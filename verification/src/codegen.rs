//! Lowering: the walk over a syntax tree that checks scopes and types and
//! writes the listing.
use vstd::prelude::*;
use crate::ast::{ASTInfo, Ast, Oprand, Type};
use crate::error::{Error, ErrorType};
use crate::ir::{
    blocks_made, count_step, counts_of, defines, enclosing_return, entered_once, enters, flow_of, flow_step,
    is_instruction, is_terminator, latest, lemma_push_enters, lemma_push_scoped, result_type, reg_value, slot_type, step_scoped, terminators_in_place, typed_at,
    value_type, well_scoped, well_typed, Arith, BlockKind, Flow, Inst, IrType, Pred, Runtime,
    Value, ValueKind,
};
use crate::lower::{
    after_code, after_enter, after_fall_through, announce_params, apply_operator, as_integer,
    binding_ok, classify, consistent, dead_code_free, declaration_ok, expression_ok,
    flow_body, flow_declaration, flow_declarations, flow_expr, flow_item, flow_items,
    flow_statements, flow_stmt, item_ok, lower_args, lower_assignment, lower_binary, lower_block,
    enters_its_blocks, grown, lemma_current_block_made, made, quiet, types_of, value_in,
    lower_call, lower_condition, lower_declaration, lower_declarations, lower_expr,
    lower_function, lower_global, lower_items, lower_program, lower_statements, lower_stmt,
    implicit_return, lower_variable, pass_args, program_ok, scalar_type_ok, spill_params,
    statement_ok,
    BuilderState, OpClass,
};
use crate::scope::{
    extends, lemma_find_function, lemma_find_last, lemma_scope_exit_restores, Binding,
    FunctionBinding, SymbolTable,
};

verus! {

/// The function whose body a step at `at` belongs to does not change when
/// the listing grows.
pub proof fn lemma_enclosing_return_push(code: Seq<Inst>, inst: Inst, at: int)
    requires
        at <= code.len(),
    ensures
        enclosing_return(code.push(inst), at) == enclosing_return(code, at),
    decreases at,
{
    if at > 0 {
        assert(code.push(inst)[at - 1] == code[at - 1]);
        lemma_enclosing_return_push(code, inst, at - 1);
    }
}

/// A well-typed listing with one more well-typed step is well typed.
pub proof fn lemma_push_typed(code: Seq<Inst>, inst: Inst)
    requires
        well_typed(code),
        typed_at(code.push(inst), code.len() as int),
    ensures
        well_typed(code.push(inst)),
        flow_of(code.push(inst)) == flow_step(flow_of(code), inst),
        enclosing_return(code.push(inst), code.len() as int + 1) == (match inst {
            Inst::Function { ret, .. } => Some(ret),
            _ => enclosing_return(code, code.len() as int),
        }),
{
    let longer = code.push(inst);
    assert forall|at: int| 0 <= at < longer.len() implies #[trigger] typed_at(longer, at) by {
        if at < code.len() {
            assert(longer[at] == code[at]);
            assert(typed_at(code, at));
            lemma_enclosing_return_push(code, inst, at);
        }
    }
    assert(longer.drop_last() =~= code);
    lemma_enclosing_return_push(code, inst, code.len() as int);
}

/// The builder that lowers a program.
#[derive(Debug)]
pub struct CodeBuilder {
    /// The name of the module.
    name: String,
    /// The steps taken so far.
    code: Vec<Inst>,
    /// The number of registers defined so far.
    regs: usize,
    /// The number of basic blocks made so far.
    blocks: usize,
    /// The names in sight.
    symbols: SymbolTable,
    /// The return type and the number of the function being lowered.
    current_function: Option<(Type, usize)>,
    /// The block that instructions go to.
    current_block: usize,
    /// Whether the current block ends in a terminator.
    terminated: bool,
}

impl View for CodeBuilder {
    type V = BuilderState;

    closed spec fn view(&self) -> BuilderState {
        BuilderState {
            code: self.code@,
            regs: self.regs as nat,
            blocks: self.blocks as nat,
            symbols: self.symbols@,
            current_function: self.current_function,
            current_block: self.current_block as nat,
            terminated: self.terminated,
        }
    }
}

/// How an expression function ends: with the type and the value of the
/// expression, or with its error; either way in the state that lowering
/// gives.
pub open spec fn ends_as(
    outcome: Result<(BuilderState, Type, Value), (BuilderState, Error)>,
    after: BuilderState,
    r: Result<(Type, Value), Error>,
) -> bool {
    match outcome {
        Ok((st, ty, v)) => r == Ok::<(Type, Value), Error>((ty, v)) && after == st,
        Err((st, e)) => r == Err::<(Type, Value), Error>(e) && after == st,
    }
}

/// How a statement function ends: well, or with its error; either way in
/// the state that lowering gives.
pub open spec fn stops_as(
    outcome: Result<BuilderState, (BuilderState, Error)>,
    after: BuilderState,
    r: Result<(), Error>,
) -> bool {
    match outcome {
        Ok(st) => r == Ok::<(), Error>(()) && after == st,
        Err((st, e)) => r == Err::<(), Error>(e) && after == st,
    }
}

/// How an operator is lowered.
pub fn classify_operator(op: Oprand) -> (r: OpClass)
    ensures
        r == classify(op),
{
    match op {
        Oprand::Add => OpClass::Arith(Arith::Add),
        Oprand::Sub => OpClass::Arith(Arith::Sub),
        Oprand::Mul => OpClass::Arith(Arith::Mul),
        Oprand::Div => OpClass::Arith(Arith::SDiv),
        Oprand::Mod => OpClass::Arith(Arith::SRem),
        Oprand::Ge => OpClass::Compare(Pred::Sge),
        Oprand::Le => OpClass::Compare(Pred::Sle),
        Oprand::Gt => OpClass::Compare(Pred::Sgt),
        Oprand::Lt => OpClass::Compare(Pred::Slt),
        Oprand::Eq => OpClass::Compare(Pred::Eq),
        Oprand::Ne => OpClass::Compare(Pred::Ne),
        Oprand::Band => OpClass::Arith(Arith::And),
        Oprand::Bor => OpClass::Arith(Arith::Or),
        Oprand::Bxor => OpClass::Arith(Arith::Xor),
        Oprand::Land => OpClass::Logical(Arith::And),
        Oprand::Lor => OpClass::Logical(Arith::Or),
        Oprand::LShift => OpClass::Arith(Arith::Shl),
        Oprand::RShift => OpClass::Arith(Arith::AShr),
    }
}

impl CodeBuilder {
    /// Takes a step that declares or announces something.
    fn note(&mut self, inst: Inst)
        requires
            consistent(old(self)@),
            inst is Extern || inst is Param || inst is Arg,
            step_scoped(made(old(self)@), inst),
        ensures
            made(final(self)@) == count_step(made(old(self)@), inst),
            quiet(old(self)@, final(self)@),
            final(self)@ == old(self)@.note(inst),
            consistent(final(self)@),
            flow_of(final(self)@.code) == flow_of(old(self)@.code),
            counts_of(final(self)@.code).params == counts_of(old(self)@.code).params,
    {
        proof {
            reveal(consistent);
            lemma_push_typed(self@.code, inst);
            lemma_push_scoped(self@.code, inst);
            lemma_push_enters(self@.code, inst);
        }
        self.code.push(inst);
    }

    /// Appends an instruction without a result to the current block.
    fn step(&mut self, inst: Inst)
        requires
            consistent(old(self)@),
            is_instruction(inst),
            !defines(inst),
            typed_at(old(self)@.code.push(inst), old(self)@.code.len() as int),
            step_scoped(made(old(self)@), inst),
        ensures
            made(final(self)@) == count_step(made(old(self)@), inst),
            quiet(old(self)@, final(self)@),
            final(self)@ == old(self)@.step(inst),
            consistent(final(self)@),
            flow_of(final(self)@.code) == flow_step(flow_of(old(self)@.code), inst),
            counts_of(final(self)@.code).params == counts_of(old(self)@.code).params,
    {
        proof {
            reveal(consistent);
            lemma_push_typed(self@.code, inst);
            lemma_push_scoped(self@.code, inst);
            lemma_push_enters(self@.code, inst);
        }
        self.terminated = match &inst {
            Inst::Return { .. } => true,
            Inst::Branch { .. } => true,
            Inst::CondBranch { .. } => true,
            _ => false,
        };
        self.code.push(inst);
    }

    /// Appends an instruction that defines the next register, and gives the
    /// register.
    fn define(&mut self, inst: Inst, ty: IrType) -> (v: Value)
        requires
            ty == result_type(made(old(self)@), inst),
            consistent(old(self)@),
            is_instruction(inst),
            !is_terminator(inst),
            defines(inst),
            typed_at(old(self)@.code.push(inst), old(self)@.code.len() as int),
            step_scoped(made(old(self)@), inst),
        ensures
            made(final(self)@) == count_step(made(old(self)@), inst),
            quiet(old(self)@, final(self)@),
            final(self)@ == old(self)@.define(inst),
            consistent(final(self)@),
            flow_of(final(self)@.code) == after_code(flow_of(old(self)@.code)),
            v == reg_value(old(self)@.regs, ty),
            value_in(final(self)@, v),
            counts_of(final(self)@.code).params == counts_of(old(self)@.code).params,
    {
        proof {
            reveal(consistent);
            lemma_push_typed(self@.code, inst);
            lemma_push_scoped(self@.code, inst);
            lemma_push_enters(self@.code, inst);
        }
        let v = Value { kind: ValueKind::Reg(self.regs), ty };
        self.terminated = false;
        self.code.push(inst);
        let steps = self.code.len();
        assert(self.regs < steps);
        self.regs = self.regs + 1;
        v
    }

    /// Makes a basic block and gives its number.
    fn block(&mut self, kind: BlockKind, anchor: usize) -> (b: usize)
        requires
            consistent(old(self)@),
            step_scoped(made(old(self)@), Inst::Block { kind, anchor }),
        ensures
            b < made(final(self)@).blocks,
            made(final(self)@) == count_step(made(old(self)@), Inst::Block { kind, anchor }),
            b == blocks_made(old(self)@.code),
            forall|x: nat| #[trigger] enters(final(self)@.code, x) == enters(old(self)@.code, x),
            blocks_made(final(self)@.code) == blocks_made(old(self)@.code) + 1,
            final(self)@ == old(self)@.block(kind, anchor),
            consistent(final(self)@),
            flow_of(final(self)@.code) == flow_of(old(self)@.code),
            b == old(self)@.next_block(),
            b < final(self)@.blocks,
            counts_of(final(self)@.code).params == counts_of(old(self)@.code).params,
    {
        proof {
            reveal(consistent);
            lemma_push_typed(self@.code, Inst::Block { kind, anchor });
            lemma_push_scoped(self@.code, Inst::Block { kind, anchor });
            lemma_push_enters(self@.code, Inst::Block { kind, anchor });
        }
        let b = self.blocks;
        self.code.push(Inst::Block { kind, anchor });
        let steps = self.code.len();
        assert(self.blocks < steps);
        self.blocks = self.blocks + 1;
        b
    }

    /// Moves to the end of a block.
    fn enter(&mut self, block: usize)
        requires
            consistent(old(self)@),
            block < old(self)@.blocks,
        ensures
            made(final(self)@) == made(old(self)@),
            forall|x: nat| #[trigger] enters(final(self)@.code, x) == enters(old(self)@.code, x) + (if x == block { 1nat } else { 0nat }),
            blocks_made(final(self)@.code) == blocks_made(old(self)@.code),
            final(self)@ == old(self)@.enter(block),
            consistent(final(self)@),
            flow_of(final(self)@.code) == after_enter(flow_of(old(self)@.code)),
            counts_of(final(self)@.code).params == counts_of(old(self)@.code).params,
    {
        proof {
            reveal(consistent);
            lemma_push_typed(self@.code, Inst::Enter { block });
            lemma_push_scoped(self@.code, Inst::Enter { block });
            lemma_push_enters(self@.code, Inst::Enter { block });
        }
        self.code.push(Inst::Enter { block });
        self.current_block = block;
        self.terminated = false;
    }

    /// Whether the current block is still open: it has no terminator.
    pub fn no_terminator(&self) -> (r: bool)
        ensures
            r == !self@.terminated,
    {
        !self.terminated
    }

    /// The register that the next defining instruction writes.
    fn next_reg(&self) -> (r: usize)
        requires
            consistent(self@),
        ensures
            r == self@.next_reg(),
            r == made(self@).types.len(),
    {
        proof {
            reveal(consistent);
        }
        self.regs
    }

    /// Casts a pointer to an integer, and leaves an integer as it is.
    fn gen_integer(&mut self, ty: Type, v: Value) -> (r: Value)
        requires
            consistent(old(self)@),
            ty is Int || ty is IntPtr,
            v.ty == value_type(ty),
            value_in(old(self)@, v),
        ensures
            quiet(old(self)@, final(self)@),
            (final(self)@, r) == as_integer(old(self)@, ty, v),
            consistent(final(self)@),
            final(self)@.symbols == old(self)@.symbols,
            grown(old(self)@, final(self)@),
            value_in(final(self)@, r),
            r.ty == IrType::I32,
            flow_of(final(self)@.code) == flow_of(old(self)@.code) || flow_of(final(self)@.code)
                == after_code(flow_of(old(self)@.code)),
    {
        match ty {
            Type::IntPtr => {
                let dst = self.next_reg();
                self.define(Inst::PtrToInt { dst, value: v }, IrType::I32)
            },
            _ => v,
        }
    }

    /// Appends the instructions of one operator on two integers.
    fn gen_operator(&mut self, op: Oprand, a: Value, b: Value) -> (r: Value)
        requires
            consistent(old(self)@),
            a.ty == IrType::I32,
            b.ty == IrType::I32,
            value_in(old(self)@, a),
            value_in(old(self)@, b),
        ensures
            quiet(old(self)@, final(self)@),
            (final(self)@, r) == apply_operator(old(self)@, op, a, b),
            consistent(final(self)@),
            final(self)@.symbols == old(self)@.symbols,
            grown(old(self)@, final(self)@),
            value_in(final(self)@, r),
            r.ty == IrType::I32,
            flow_of(final(self)@.code) == after_code(flow_of(old(self)@.code)),
    {
        match classify_operator(op) {
            OpClass::Arith(ar) => {
                let dst = self.next_reg();
                self.define(Inst::Binary { dst, op: ar, lhs: a, rhs: b }, IrType::I32)
            },
            OpClass::Compare(pred) => {
                let dst = self.next_reg();
                let bit = self.define(Inst::Compare { dst, pred, lhs: a, rhs: b }, IrType::I1);
                let dst = self.next_reg();
                self.define(Inst::Widen { dst, value: bit }, IrType::I32)
            },
            OpClass::Logical(ar) => {
                let dst = self.next_reg();
                let both = self.define(Inst::Binary { dst, op: ar, lhs: a, rhs: b }, IrType::I32);
                let dst = self.next_reg();
                let zero = Value { kind: ValueKind::Const(0), ty: IrType::I32 };
                let bit = self.define(
                    Inst::Compare { dst, pred: Pred::Ne, lhs: both, rhs: zero },
                    IrType::I1,
                );
                let dst = self.next_reg();
                self.define(Inst::Widen { dst, value: bit }, IrType::I32)
            },
        }
    }
    /// The variable that a name stands for, with the address of its slot:
    /// the innermost one in sight, or nothing where there is none.
    pub fn get_name_ptr(&self, name: &String) -> (r: Option<(Type, Value)>)
        ensures
            r == match self@.symbols.lookup_variable(name@) {
                Some(b) => Some((b.ty, b.slot)),
                None => None,
            },
    {
        self.symbols.lookup_variable(name)
    }

    /// The address that a variable expression denotes, and the type of what
    /// lies there.
    ///
    /// Fails with `VariableNotDefined` where no variable of the name is in
    /// sight, with `IndexNotInt` where the subscript of a pointer is no
    /// integer, and with the error of the subscript where that fails.
    pub fn gen_variable(&mut self, e: &Ast) -> (r: Result<(Type, Value), Error>)
        requires
            consistent(old(self)@),
            expression_ok(*e),
            e.info is Variable,
        ensures
            quiet(old(self)@, final(self)@),
            ends_as(lower_variable(old(self)@, *e), final(self)@, r),
            consistent(final(self)@),
            final(self)@.symbols == old(self)@.symbols,
            final(self)@.current_function == old(self)@.current_function,
            grown(old(self)@, final(self)@),
            r matches Ok((ty, ptr)) ==> (ty is Int || ty is IntPtr) && ptr.ty == slot_type(ty)
                && value_in(final(self)@, ptr) && (flow_of(final(self)@.code) == flow_of(
                old(self)@.code,
            ) || flow_of(final(self)@.code) == after_code(flow_of(old(self)@.code))),
        decreases e, 0nat,
    {
        match &e.info {
            ASTInfo::Variable(name, index) => {
                proof {
                    reveal(consistent);
                    lemma_find_last(self@.symbols.locals, name@, 0);
                    lemma_find_last(self@.symbols.globals, name@, 0);
                }
                match self.get_name_ptr(name) {
                    None => Err(Error::new(e.position, ErrorType::VariableNotDefined)),
                    Some((ty, slot)) => match ty {
                        Type::Int => Ok((ty, slot)),
                        Type::Void => Err(Error::new(e.position, ErrorType::ExpressionVoidType)),
                        Type::IntPtr => match index {
                            Some(ix) => match self.gen_expression(ix) {
                                Err(x) => Err(x),
                                Ok((ity, iv)) => {
                                    if ity == Type::Int {
                                        let dst = self.next_reg();
                                        let base = self.define(
                                            Inst::Load { dst, ptr: slot },
                                            IrType::Ptr,
                                        );
                                        let dst = self.next_reg();
                                        let at = self.define(
                                            Inst::ElementPtr { dst, base, index: iv },
                                            IrType::Ptr,
                                        );
                                        Ok((Type::Int, at))
                                    } else {
                                        Err(Error::new(ix.position, ErrorType::IndexNotInt))
                                    }
                                },
                            },
                            None => Ok((ty, slot)),
                        },
                        Type::IntArray(_) => Ok((ty, slot)),
                    },
                }
            },
            _ => Ok((Type::Int, Value { kind: ValueKind::Const(0), ty: IrType::I32 })),
        }
    }

    /// An assignment: stores the value of the right side at the address of
    /// the left side, and gives the stored value.
    ///
    /// Fails with `MismatchedType` where the two sides differ in type, and
    /// with the error of a side where that fails.
    pub fn gen_assinment_expr(&mut self, e: &Ast) -> (r: Result<(Type, Value), Error>)
        requires
            consistent(old(self)@),
            expression_ok(*e),
            e.info is AssignmentExpr,
        ensures
            quiet(old(self)@, final(self)@),
            ends_as(lower_assignment(old(self)@, *e), final(self)@, r),
            consistent(final(self)@),
            final(self)@.symbols == old(self)@.symbols,
            final(self)@.current_function == old(self)@.current_function,
            grown(old(self)@, final(self)@),
            r matches Ok((ty, v)) ==> (ty is Int || ty is IntPtr) && v.ty == value_type(ty)
                && value_in(final(self)@, v) && flow_of(final(self)@.code) == after_code(
                flow_of(old(self)@.code),
            ),
        decreases e, 0nat,
    {
        match &e.info {
            ASTInfo::AssignmentExpr(var, rhs) => match self.gen_variable(var) {
                Err(x) => Err(x),
                Ok((lt, ptr)) => match self.gen_expression(rhs) {
                    Err(x) => Err(x),
                    Ok((rt, v)) => {
                        if lt == rt {
                            self.step(Inst::Store { ptr, value: v });
                            Ok((lt, v))
                        } else {
                            Err(Error::new(e.position, ErrorType::MismatchedType))
                        }
                    },
                },
            },
            _ => Ok((Type::Int, Value { kind: ValueKind::Const(0), ty: IrType::I32 })),
        }
    }

    /// A binary expression: both operands, left first, each as an integer,
    /// then the operator. The result is an integer.
    ///
    /// Fails with the error of an operand where that fails.
    pub fn gen_binary_expr(&mut self, e: &Ast) -> (r: Result<(Type, Value), Error>)
        requires
            consistent(old(self)@),
            expression_ok(*e),
            e.info is BinaryExpr,
        ensures
            quiet(old(self)@, final(self)@),
            ends_as(lower_binary(old(self)@, *e), final(self)@, r),
            consistent(final(self)@),
            final(self)@.symbols == old(self)@.symbols,
            final(self)@.current_function == old(self)@.current_function,
            grown(old(self)@, final(self)@),
            r matches Ok((ty, v)) ==> ty is Int && v.ty == IrType::I32 && value_in(
                final(self)@,
                v,
            ) && flow_of(final(self)@.code) == after_code(flow_of(old(self)@.code)),
        decreases e, 0nat,
    {
        match &e.info {
            ASTInfo::BinaryExpr(op, l, r) => match self.gen_expression(l) {
                Err(x) => Err(x),
                Ok((lt, lv)) => match self.gen_expression(r) {
                    Err(x) => Err(x),
                    Ok((rt, rv)) => {
                        let a = self.gen_integer(lt, lv);
                        let b = self.gen_integer(rt, rv);
                        let v = self.gen_operator(*op, a, b);
                        Ok((Type::Int, v))
                    },
                },
            },
            _ => Ok((Type::Int, Value { kind: ValueKind::Const(0), ty: IrType::I32 })),
        }
    }

    /// A call: the callee is looked up, then the arguments are lowered in
    /// their order, then the call. The call of a procedure gives the type
    /// `Void`.
    ///
    /// Fails with `FunctionNotDefined` where the callee is no function, and
    /// then nothing is lowered; else with the error of an argument where
    /// that fails.
    pub fn gen_function_call(&mut self, e: &Ast) -> (r: Result<(Type, Value), Error>)
        requires
            consistent(old(self)@),
            expression_ok(*e),
            e.info is CallExpr,
        ensures
            quiet(old(self)@, final(self)@),
            ends_as(lower_call(old(self)@, *e), final(self)@, r),
            consistent(final(self)@),
            final(self)@.symbols == old(self)@.symbols,
            final(self)@.current_function == old(self)@.current_function,
            grown(old(self)@, final(self)@),
            r matches Ok((ty, v)) ==> !(ty is IntArray) && (!(ty is Void) ==> v.ty == value_type(
                ty,
            )) && value_in(final(self)@, v) && flow_of(final(self)@.code) == after_code(
                flow_of(old(self)@.code),
            ),
        decreases e, 0nat,
    {
        match &e.info {
            ASTInfo::CallExpr(name, args) => {
                let ghost start = self@;
                proof {
                    reveal(consistent);
                    lemma_find_function(self@.symbols.functions, name@);
                }
                let (ret, callee) = match self.symbols.lookup_function(name) {
                    None => {
                        return Err(Error::new(e.position, ErrorType::FunctionNotDefined));
                    },
                    Some(found) => found,
                };
                let mut values: Vec<Value> = Vec::new();
                let mut i: usize = 0;
                while i < args.len()
                    invariant
                        i <= args.len(),
                        start == old(self)@,
                        e.info == ASTInfo::CallExpr(*name, *args),
                        expression_ok(*e),
                        consistent(self@),
                        self@.symbols == start.symbols,
                        self@.current_function == start.current_function,
                        grown(start, self@),
                        quiet(start, self@),
                        start.symbols.lookup_function(name@) == Some((ret, callee)),
                        forall|k: int|
                            0 <= k < values@.len() ==> value_in(self@, #[trigger] values@[k]),
                        lower_args(start, args@, 0, Seq::empty()) == lower_args(
                            self@,
                            args@,
                            i as int,
                            values@,
                        ),
                        flow_of(self@.code) == flow_of(start.code) || flow_of(self@.code)
                            == after_code(flow_of(start.code)),
                    decreases args.len() - i,
                {
                    match self.gen_expression(&args[i]) {
                        Err(x) => {
                            return Err(x);
                        },
                        Ok((_, v)) => {
                            values.push(v);
                        },
                    }
                    i += 1;
                }
                let ghost lowered = self@;
                let mut k: usize = 0;
                while k < values.len()
                    invariant
                        k <= values.len(),
                        consistent(self@),
                        self@.symbols == start.symbols,
                        self@.current_function == start.current_function,
                        grown(start, self@),
                        quiet(start, self@),
                        forall|j: int|
                            0 <= j < values@.len() ==> value_in(self@, #[trigger] values@[j]),
                        pass_args(lowered, values@, 0) == pass_args(self@, values@, k as int),
                        flow_of(self@.code) == flow_of(lowered.code),
                    decreases values.len() - k,
                {
                    self.note(Inst::Arg { value: values[k] });
                    k += 1;
                }
                proof {
                    reveal(consistent);
                    lemma_find_function(self@.symbols.functions, name@);
                }
                if ret == Type::Void {
                    self.step(
                        Inst::Call { dst: None, callee, args: values.len(), name: name.clone() },
                    );
                    Ok((Type::Void, Value { kind: ValueKind::Const(0), ty: IrType::I32 }))
                } else {
                    let dst = self.next_reg();
                    let v = self.define(
                        Inst::Call {
                            dst: Some(dst),
                            callee,
                            args: values.len(),
                            name: name.clone(),
                        },
                        ret.to_llvm_basic_type(),
                    );
                    Ok((ret, v))
                }
            },
            _ => Ok((Type::Int, Value { kind: ValueKind::Const(0), ty: IrType::I32 })),
        }
    }

    /// An expression used for its value: gives its type, which is never
    /// `Void`, and its value.
    ///
    /// Fails with `ExpressionVoidType` where the expression is the call of a
    /// procedure, and with the error of a part where that fails.
    pub fn gen_expression(&mut self, e: &Ast) -> (r: Result<(Type, Value), Error>)
        requires
            consistent(old(self)@),
            expression_ok(*e),
        ensures
            quiet(old(self)@, final(self)@),
            ends_as(lower_expr(old(self)@, *e), final(self)@, r),
            consistent(final(self)@),
            final(self)@.symbols == old(self)@.symbols,
            final(self)@.current_function == old(self)@.current_function,
            grown(old(self)@, final(self)@),
            r matches Ok((ty, v)) ==> (ty is Int || ty is IntPtr) && v.ty == value_type(ty)
                && value_in(final(self)@, v) && flow_of(final(self)@.code) == flow_expr(
                *e,
                flow_of(old(self)@.code),
            ),
        decreases e, 1nat,
    {
        match &e.info {
            ASTInfo::AssignmentExpr(_, _) => self.gen_assinment_expr(e),
            ASTInfo::BinaryExpr(_, _, _) => self.gen_binary_expr(e),
            ASTInfo::CallExpr(_, _) => match self.gen_function_call(e) {
                Err(x) => Err(x),
                Ok((ty, v)) => {
                    if ty == Type::Void {
                        Err(Error::new(e.position, ErrorType::ExpressionVoidType))
                    } else {
                        Ok((ty, v))
                    }
                },
            },
            ASTInfo::Variable(_, _) => match self.gen_variable(e) {
                Err(x) => Err(x),
                Ok((ty, ptr)) => {
                    let dst = self.next_reg();
                    let v = self.define(Inst::Load { dst, ptr }, ptr.ty.target());
                    Ok((ty, v))
                },
            },
            ASTInfo::IntLiteral(v) => Ok(
                (Type::Int, Value { kind: ValueKind::Const(*v), ty: IrType::I32 }),
            ),
            _ => Ok((Type::Int, Value { kind: ValueKind::Const(0), ty: IrType::I32 })),
        }
    }
    /// Opens a scope inside the innermost one.
    fn open_scope(&mut self)
        requires
            consistent(old(self)@),
        ensures
            quiet(old(self)@, final(self)@),
            final(self)@ == old(self)@.with_symbols(old(self)@.symbols.push_scope()),
            consistent(final(self)@),
    {
        proof {
            reveal(consistent);
        }
        self.symbols.push_scope();
    }

    /// Closes the innermost scope.
    fn close_scope(&mut self)
        requires
            consistent(old(self)@),
            old(self)@.symbols.frames.len() > 0,
        ensures
            quiet(old(self)@, final(self)@),
            final(self)@ == old(self)@.with_symbols(old(self)@.symbols.pop_scope()),
            consistent(final(self)@),
    {
        proof {
            reveal(consistent);
        }
        self.symbols.pop_scope();
        proof {
            let a = old(self)@.symbols;
            let b = self@.symbols;
            assert forall|i: int| 0 <= i < b.locals.len() implies binding_ok(
                #[trigger] b.locals[i],
            ) && value_in(self@, b.locals[i].slot) by {
                assert(b.locals[i] == a.locals[i]);
                assert(value_in(old(self)@, a.locals[i].slot));
            }
        }
    }

    /// Binds a variable that the innermost scope does not hold yet.
    fn bind_declared(&mut self, name: &String, ty: Type, slot: Value)
        requires
            consistent(old(self)@),
            old(self)@.symbols.frames.len() > 0,
            !old(self)@.symbols.bound_in_top(name@),
            binding_ok(Binding { name: *name, ty, slot }),
            value_in(old(self)@, slot),
        ensures
            quiet(old(self)@, final(self)@),
            final(self)@ == old(self)@.with_symbols(
                old(self)@.symbols.declare_local(Binding { name: *name, ty, slot }),
            ),
            consistent(final(self)@),
    {
        proof {
            reveal(consistent);
        }
        let bound = self.symbols.declare_local(name, ty, slot);
        proof {
            let a = old(self)@.symbols;
            let b = self@.symbols;
            assert forall|i: int| 0 <= i < b.locals.len() implies binding_ok(
                #[trigger] b.locals[i],
            ) && value_in(self@, b.locals[i].slot) by {
                if i < a.locals.len() {
                    assert(b.locals[i] == a.locals[i]);
                    assert(value_in(old(self)@, a.locals[i].slot));
                }
            }
        }
    }

    /// A condition: the expression, cut to its lowest bit.
    ///
    /// Fails with `MismatchedType` where the expression is no integer, and
    /// with the error of the expression where that fails.
    pub fn gen_condition(&mut self, c: &Ast) -> (r: Result<Value, Error>)
        requires
            consistent(old(self)@),
            expression_ok(*c),
        ensures
            quiet(old(self)@, final(self)@),
            match lower_condition(old(self)@, *c) {
                Ok((st, v)) => r == Ok::<Value, Error>(v) && final(self)@ == st,
                Err((st, x)) => r == Err::<Value, Error>(x) && final(self)@ == st,
            },
            consistent(final(self)@),
            final(self)@.symbols == old(self)@.symbols,
            final(self)@.current_function == old(self)@.current_function,
            grown(old(self)@, final(self)@),
            r matches Ok(v) ==> v.ty == IrType::I1 && value_in(final(self)@, v) && flow_of(
                final(self)@.code,
            ) == after_code(flow_of(old(self)@.code)),
    {
        match self.gen_expression(c) {
            Err(x) => Err(x),
            Ok((ty, v)) => {
                if ty == Type::Int {
                    let dst = self.next_reg();
                    let bit = self.define(Inst::Truncate { dst, value: v }, IrType::I1);
                    Ok(bit)
                } else {
                    Err(Error::new(c.position, ErrorType::MismatchedType))
                }
            },
        }
    }

    /// Jumps to `target`, unless the current block is closed already.
    fn gen_fall_through(&mut self, target: usize)
        requires
            consistent(old(self)@),
            target < old(self)@.blocks,
        ensures
            grown(old(self)@, final(self)@),
            quiet(old(self)@, final(self)@),
            final(self)@ == old(self)@.fall_through(target),
            consistent(final(self)@),
            flow_of(final(self)@.code) == after_fall_through(flow_of(old(self)@.code)),
    {
        proof {
            reveal(consistent);
        }
        if self.no_terminator() {
            self.step(Inst::Branch { target });
        }
    }

    /// One local declaration: the slot of the variable, and its name in the
    /// innermost scope. An array is bound as a pointer to its first element.
    ///
    /// Fails with `VariableRedefinition` where the scope has the name.
    pub fn gen_declaration(&mut self, d: &Ast) -> (r: Result<(), Error>)
        requires
            consistent(old(self)@),
            declaration_ok(*d),
            old(self)@.symbols.frames.len() > 0,
        ensures
            quiet(old(self)@, final(self)@),
            stops_as(lower_declaration(old(self)@, *d), final(self)@, r),
            consistent(final(self)@),
            extends(final(self)@.symbols, old(self)@.symbols),
            final(self)@.current_function == old(self)@.current_function,
            grown(old(self)@, final(self)@),
            r is Ok ==> flow_of(final(self)@.code) == flow_declaration(
                *d,
                flow_of(old(self)@.code),
            ),
    {
        match &d.info {
            ASTInfo::VariableDec(ty, name) => {
                if self.symbols.bound_in_top(name) {
                    assert(self@.symbols.locals.take(self@.symbols.locals.len() as int)
                        =~= self@.symbols.locals);
                    return Err(Error::new(d.position, ErrorType::VariableRedefinition));
                }
                let dst = self.next_reg();
                let slot = self.define(
                    Inst::Alloca { dst, ty: ty.to_llvm_basic_type(), name: Some(name.clone()) },
                    ty.to_llvm_basic_type().pointer(),
                );
                match ty {
                    Type::IntArray(_) => {
                        let dst = self.next_reg();
                        let decayed = self.define(
                            Inst::Alloca { dst, ty: IrType::Ptr, name: Some(name.clone()) },
                            IrType::PtrPtr,
                        );
                        let dst = self.next_reg();
                        let first = self.define(
                            Inst::ArrayStart { dst, array: slot, name: name.clone() },
                            IrType::Ptr,
                        );
                        self.step(Inst::Store { ptr: decayed, value: first });
                        self.bind_declared(name, Type::IntPtr, decayed);
                    },
                    _ => {
                        self.bind_declared(name, *ty, slot);
                    },
                }
                proof {
                    let a = old(self)@.symbols;
                    let b = self@.symbols;
                    assert(b.locals.take(a.locals.len() as int) =~= a.locals);
                }
                Ok(())
            },
            _ => {
                assert(self@.symbols.locals.take(self@.symbols.locals.len() as int)
                    =~= self@.symbols.locals);
                Ok(())
            },
        }
    }

    /// A block: its declarations and its statements, in a scope of their
    /// own. The scope is left again whether the block is lowered or fails.
    ///
    /// Fails with the error of the first declaration or statement that fails.
    pub fn gen_block_stmt(&mut self, s: &Ast) -> (r: Result<(), Error>)
        requires
            consistent(old(self)@),
            statement_ok(*s),
            old(self)@.current_function is Some,
        ensures
            r is Ok ==> enters_its_blocks(old(self)@, final(self)@),
            stops_as(lower_block(old(self)@, *s), final(self)@, r),
            consistent(final(self)@),
            final(self)@.symbols == old(self)@.symbols,
            final(self)@.current_function == old(self)@.current_function,
            grown(old(self)@, final(self)@),
            r is Ok ==> flow_of(final(self)@.code) == flow_body(*s, flow_of(old(self)@.code)),
        decreases s, 0nat,
    {
        match &s.info {
            ASTInfo::BlockStmt(decls, stmts) => {
                self.open_scope();
                let ghost opened = self@;
                assert(opened.symbols.locals.take(opened.symbols.locals.len() as int)
                    =~= opened.symbols.locals);
                let mut failed: Option<Error> = None;
                let mut i: usize = 0;
                while i < decls.len() && failed.is_none()
                    invariant
                        i <= decls.len(),
                        opened == old(self)@.with_symbols(old(self)@.symbols.push_scope()),
                        s.info == ASTInfo::BlockStmt(*decls, *stmts),
                        statement_ok(*s),
                        forall|k: int|
                            0 <= k < decls@.len() ==> declaration_ok(#[trigger] decls@[k]),
                        consistent(self@),
                        extends(self@.symbols, opened.symbols),
                        self@.current_function == opened.current_function,
                        grown(opened, self@),
                        quiet(opened, self@),
                        match failed {
                            Some(x) => lower_declarations(opened, decls@, 0) == Err::<
                                BuilderState,
                                (BuilderState, Error),
                            >((self@, x)),
                            None => lower_declarations(opened, decls@, 0) == lower_declarations(
                                self@,
                                decls@,
                                i as int,
                            ) && flow_declarations(decls@, 0, flow_of(opened.code))
                                == flow_declarations(decls@, i as int, flow_of(self@.code)),
                        },
                    decreases decls.len() - i + (if failed is None { 1int } else { 0int }),
                {
                    let ghost before = self@.symbols;
                    assert(declaration_ok(decls@[i as int]));
                    match self.gen_declaration(&decls[i]) {
                        Err(x) => {
                            failed = Some(x);
                        },
                        Ok(()) => {
                            i += 1;
                        },
                    }
                    proof {
                        assert(self@.symbols.locals.take(opened.symbols.locals.len() as int)
                            =~= self@.symbols.locals.take(before.locals.len() as int).take(
                            opened.symbols.locals.len() as int,
                        ));
                    }
                }
                let ghost declared = self@;
                let mut j: usize = 0;
                while j < stmts.len() && failed.is_none()
                    invariant
                        j <= stmts.len(),
                        opened == old(self)@.with_symbols(old(self)@.symbols.push_scope()),
                        s.info == ASTInfo::BlockStmt(*decls, *stmts),
                        statement_ok(*s),
                        forall|k: int| 0 <= k < stmts@.len() ==> statement_ok(#[trigger] stmts@[k]),
                        consistent(self@),
                        extends(self@.symbols, opened.symbols),
                        self@.current_function == opened.current_function,
                        grown(opened, self@),
                        failed is None ==> enters_its_blocks(opened, self@),
                        opened.current_function is Some,
                        match failed {
                            Some(x) => lower_declarations(opened, decls@, 0) == Err::<
                                BuilderState,
                                (BuilderState, Error),
                            >((self@, x)) || (lower_declarations(opened, decls@, 0) == Ok::<
                                BuilderState,
                                (BuilderState, Error),
                            >(declared) && lower_statements(declared, stmts@, 0) == Err::<
                                BuilderState,
                                (BuilderState, Error),
                            >((self@, x))),
                            None => lower_declarations(opened, decls@, 0) == Ok::<
                                BuilderState,
                                (BuilderState, Error),
                            >(declared) && lower_statements(declared, stmts@, 0)
                                == lower_statements(self@, stmts@, j as int) && flow_statements(
                                stmts@,
                                0,
                                flow_declarations(decls@, 0, flow_of(opened.code)),
                            ) == flow_statements(stmts@, j as int, flow_of(self@.code)),
                        },
                    decreases stmts.len() - j + (if failed is None { 1int } else { 0int }),
                {
                    assert(statement_ok(stmts@[j as int]));
                    assert(s.info is BlockStmt);
                    assert(s.info->BlockStmt_1 == *stmts);
                    assert(decreases_to!(s.info => s.info->BlockStmt_1));
                    assert(decreases_to!(*stmts => stmts@[j as int]));
                    match self.gen_statement(&stmts[j]) {
                        Err(x) => {
                            failed = Some(x);
                        },
                        Ok(()) => {
                            j += 1;
                        },
                    }
                }
                proof {
                    lemma_scope_exit_restores(old(self)@.symbols, self@.symbols, Seq::empty());
                }
                self.close_scope();
                match failed {
                    Some(x) => Err(x),
                    None => Ok(()),
                }
            },
            _ => Ok(()),
        }
    }

    /// A selection: the condition, a branch on it, and the statements that
    /// it chooses between; lowering goes on in a new block behind them.
    ///
    /// Fails with `MismatchedType` where the condition is no integer, and
    /// with the error of a part where that fails.
    #[verifier::rlimit(60)]
    pub fn gen_selection_stmt(&mut self, s: &Ast) -> (r: Result<(), Error>)
        requires
            consistent(old(self)@),
            statement_ok(*s),
            s.info is SelectionStmt,
            old(self)@.current_function is Some,
        ensures
            r is Ok ==> enters_its_blocks(old(self)@, final(self)@),
            stops_as(lower_stmt(old(self)@, *s), final(self)@, r),
            consistent(final(self)@),
            final(self)@.symbols == old(self)@.symbols,
            final(self)@.current_function == old(self)@.current_function,
            grown(old(self)@, final(self)@),
            r is Ok ==> flow_of(final(self)@.code) == flow_stmt(*s, flow_of(old(self)@.code)),
        decreases s, 0nat,
    {
        match &s.info {
            ASTInfo::SelectionStmt(c, t, e) => match self.gen_condition(c) {
                Err(x) => Err(x),
                Ok(cond) => {
                    proof {
                        lemma_current_block_made(self@);
                    }
                    let current = self.current_block;
                    let then_block = self.block(BlockKind::Then, current);
                    let dest_block = self.block(BlockKind::IfDest, then_block);
                    match e {
                        Some(es) => {
                            let else_block = self.block(BlockKind::Else, dest_block);
                            self.step(Inst::CondBranch { cond, then_block, else_block });
                            self.enter(then_block);
                            match self.gen_statement(t) {
                                Err(x) => Err(x),
                                Ok(()) => {
                                    self.gen_fall_through(dest_block);
                                    self.enter(else_block);
                                    match self.gen_statement(es) {
                                        Err(x) => Err(x),
                                        Ok(()) => {
                                            self.gen_fall_through(dest_block);
                                            self.enter(dest_block);
                                            Ok(())
                                        },
                                    }
                                },
                            }
                        },
                        None => {
                            self.step(
                                Inst::CondBranch { cond, then_block, else_block: dest_block },
                            );
                            self.enter(then_block);
                            match self.gen_statement(t) {
                                Err(x) => Err(x),
                                Ok(()) => {
                                    self.gen_fall_through(dest_block);
                                    self.enter(dest_block);
                                    Ok(())
                                },
                            }
                        },
                    }
                },
            },
            _ => Ok(()),
        }
    }

    /// A loop: a block that tests the condition, a block for the body, which
    /// jumps back to the test unless it ends closed, and a block behind the
    /// loop, where lowering goes on.
    ///
    /// Fails with `MismatchedType` where the condition is no integer, and
    /// with the error of a part where that fails.
    #[verifier::rlimit(60)]
    pub fn gen_iteration_stmt(&mut self, s: &Ast) -> (r: Result<(), Error>)
        requires
            consistent(old(self)@),
            statement_ok(*s),
            s.info is IterationStmt,
            old(self)@.current_function is Some,
        ensures
            r is Ok ==> enters_its_blocks(old(self)@, final(self)@),
            stops_as(lower_stmt(old(self)@, *s), final(self)@, r),
            consistent(final(self)@),
            final(self)@.symbols == old(self)@.symbols,
            final(self)@.current_function == old(self)@.current_function,
            grown(old(self)@, final(self)@),
            r is Ok ==> flow_of(final(self)@.code) == flow_stmt(*s, flow_of(old(self)@.code)),
        decreases s, 0nat,
    {
        match &s.info {
            ASTInfo::IterationStmt(c, body) => {
                proof {
                    lemma_current_block_made(self@);
                }
                let current = self.current_block;
                let head = self.block(BlockKind::LoopHead, current);
                self.step(Inst::Branch { target: head });
                let body_block = self.block(BlockKind::LoopBody, head);
                let dest_block = self.block(BlockKind::LoopDest, body_block);
                self.enter(head);
                match self.gen_condition(c) {
                    Err(x) => Err(x),
                    Ok(cond) => {
                        self.step(
                            Inst::CondBranch {
                                cond,
                                then_block: body_block,
                                else_block: dest_block,
                            },
                        );
                        self.enter(body_block);
                        match self.gen_statement(body) {
                            Err(x) => Err(x),
                            Ok(()) => {
                                self.gen_fall_through(head);
                                self.enter(dest_block);
                                Ok(())
                            },
                        }
                    },
                }
            },
            _ => Ok(()),
        }
    }

    /// A return, with or without a value.
    ///
    /// Fails with `MismatchedTypeFunction` where the value has not the type
    /// that the function returns, and with the error of the value where that
    /// fails.
    pub fn gen_return_stmt(&mut self, s: &Ast) -> (r: Result<(), Error>)
        requires
            consistent(old(self)@),
            statement_ok(*s),
            s.info is ReturnStmt,
            old(self)@.current_function is Some,
        ensures
            r is Ok ==> enters_its_blocks(old(self)@, final(self)@),
            stops_as(lower_stmt(old(self)@, *s), final(self)@, r),
            consistent(final(self)@),
            final(self)@.symbols == old(self)@.symbols,
            final(self)@.current_function == old(self)@.current_function,
            grown(old(self)@, final(self)@),
            r is Ok ==> flow_of(final(self)@.code) == flow_stmt(*s, flow_of(old(self)@.code)),
    {
        match &s.info {
            ASTInfo::ReturnStmt(value) => match value {
                Some(e) => match self.gen_expression(e) {
                    Err(x) => Err(x),
                    Ok((ty, v)) => {
                        let matches = match self.current_function {
                            Some((ret, _)) => ret == ty,
                            None => false,
                        };
                        if matches {
                            proof {
                                reveal(consistent);
                                lemma_enclosing_return_push(
                                    self@.code,
                                    Inst::Return { value: Some(v) },
                                    self@.code.len() as int,
                                );
                            }
                            self.step(Inst::Return { value: Some(v) });
                            Ok(())
                        } else {
                            Err(Error::new(s.position, ErrorType::MismatchedTypeFunction))
                        }
                    },
                },
                None => {
                    self.step(Inst::Return { value: None });
                    Ok(())
                },
            },
            _ => Ok(()),
        }
    }

    /// A statement: a block, a selection, a loop, a return, or an expression
    /// lowered for its effect. Any other tree is passed over.
    ///
    /// Fails with the error of the statement where that fails.
    pub fn gen_statement(&mut self, s: &Ast) -> (r: Result<(), Error>)
        requires
            consistent(old(self)@),
            statement_ok(*s),
            old(self)@.current_function is Some,
        ensures
            r is Ok ==> enters_its_blocks(old(self)@, final(self)@),
            stops_as(lower_stmt(old(self)@, *s), final(self)@, r),
            consistent(final(self)@),
            final(self)@.symbols == old(self)@.symbols,
            final(self)@.current_function == old(self)@.current_function,
            grown(old(self)@, final(self)@),
            r is Ok ==> flow_of(final(self)@.code) == flow_stmt(*s, flow_of(old(self)@.code)),
        decreases s, 1nat,
    {
        match &s.info {
            ASTInfo::BlockStmt(_, _) => self.gen_block_stmt(s),
            ASTInfo::SelectionStmt(_, _, _) => self.gen_selection_stmt(s),
            ASTInfo::IterationStmt(_, _) => self.gen_iteration_stmt(s),
            ASTInfo::ReturnStmt(_) => self.gen_return_stmt(s),
            ASTInfo::AssignmentExpr(_, _) => match self.gen_assinment_expr(s) {
                Err(x) => Err(x),
                Ok(_) => Ok(()),
            },
            ASTInfo::BinaryExpr(_, _, _) => match self.gen_binary_expr(s) {
                Err(x) => Err(x),
                Ok(_) => Ok(()),
            },
            ASTInfo::CallExpr(_, _) => match self.gen_function_call(s) {
                Err(x) => Err(x),
                Ok(_) => Ok(()),
            },
            _ => Ok(()),
        }
    }
    /// Adds a function to the module, binds its name, opens the scope of its
    /// parameters, and makes and enters its entry block.
    fn open_function(&mut self, name: &String, ret: Type, params: usize)
        requires
            params <= made(old(self)@).announced.len(),
            consistent(old(self)@),
            !(ret is IntArray),
            !old(self)@.symbols.taken_globally(name@),
        ensures
            enters_its_blocks(old(self)@, final(self)@),
            final(self)@ == (BuilderState {
                symbols: old(self)@.symbols.declare_function(
                    FunctionBinding {
                        name: *name,
                        ret,
                        index: old(self)@.symbols.functions.len() as usize,
                    },
                ).push_scope(),
                current_function: Some((ret, old(self)@.symbols.functions.len() as usize)),
                terminated: true,
                ..old(self)@.note(Inst::Function { name: *name, ret, params })
            }).block(BlockKind::Entry, 0).enter(old(self)@.next_block()),
            consistent(final(self)@),
            made(final(self)@).params == latest(made(old(self)@).announced, params as nat),
            flow_of(final(self)@.code) == after_enter(
                Flow {
                    closed: true,
                    broken: flow_of(old(self)@.code).broken || !flow_of(old(self)@.code).closed,
                },
            ),
    {
        let index = self.symbols.function_count();
        proof {
            reveal(consistent);
            lemma_push_typed(self@.code, Inst::Function { name: *name, ret, params });
            lemma_push_scoped(self@.code, Inst::Function { name: *name, ret, params });
            lemma_push_enters(self@.code, Inst::Function { name: *name, ret, params });
        }
        self.code.push(Inst::Function { name: name.clone(), ret, params });
        let steps = self.code.len();
        self.current_function = None;
        self.terminated = true;
        let ghost before = self@.symbols;
        let declared = self.symbols.declare_function(name, ret, index);
        proof {
            let after = self@.symbols;
            assert forall|i: int| 0 <= i < after.functions.len() implies !((
            #[trigger] after.functions[i]).ret is IntArray) && after.functions[i].index == i by {
                if i < before.functions.len() {
                    assert(after.functions[i] == before.functions[i]);
                }
            }
        }
        self.symbols.push_scope();
        let entry = self.block(BlockKind::Entry, 0);
        self.enter(entry);
        proof {
            let code = old(self)@.code.push(Inst::Function { name: *name, ret, params });
            lemma_push_typed(code, Inst::Block { kind: BlockKind::Entry, anchor: 0 });
            lemma_push_typed(
                code.push(Inst::Block { kind: BlockKind::Entry, anchor: 0 }),
                Inst::Enter { block: entry },
            );
        }
        self.current_function = Some((ret, index));
    }

    /// Announces the parameters of the function that is added next.
    fn gen_announce(&mut self, params: &Vec<(Type, String)>)
        requires
            consistent(old(self)@),
        ensures
            made(final(self)@).announced == made(old(self)@).announced + types_of(params@),
            quiet(old(self)@, final(self)@),
            final(self)@ == announce_params(old(self)@, params@, 0),
            consistent(final(self)@),
            final(self)@.symbols == old(self)@.symbols,
            flow_of(final(self)@.code) == flow_of(old(self)@.code),
    {
        let ghost start = self@;
        let mut i: usize = 0;
        while i < params.len()
            invariant
                i <= params.len(),
                consistent(self@),
                self@.symbols == start.symbols,
                quiet(start, self@),
                made(self@).announced =~= made(start).announced + types_of(params@).take(i as int),
                announce_params(start, params@, 0) == announce_params(self@, params@, i as int),
                flow_of(self@.code) == flow_of(start.code),
            decreases params.len() - i,
        {
            self.note(Inst::Param { ty: params[i].0, name: params[i].1.clone() });
            i += 1;
        }
    }

    /// Gives each parameter a slot in the entry block, stores the incoming
    /// argument there, and binds the name to the slot.
    ///
    /// Fails with `VariableRedefinition` at `position` where a parameter
    /// has the name of an earlier one; nothing is done for that parameter.
    fn gen_spill(&mut self, params: &Vec<(Type, String)>, position: (usize, usize)) -> (r: Result<
        (),
        Error,
    >)
        requires
            consistent(old(self)@),
            old(self)@.symbols.frames.len() > 0,
            made(old(self)@).params =~= types_of(params@),
            forall|j: int| 0 <= j < params@.len() ==> scalar_type_ok((#[trigger] params@[j]).0),
        ensures
            quiet(old(self)@, final(self)@),
            stops_as(spill_params(old(self)@, params@, 0, position), final(self)@, r),
            consistent(final(self)@),
            final(self)@.symbols.frames == old(self)@.symbols.frames,
            final(self)@.current_function == old(self)@.current_function,
            r is Ok ==> flow_of(final(self)@.code) == (if params@.len() > 0 {
                after_code(flow_of(old(self)@.code))
            } else {
                flow_of(old(self)@.code)
            }),
    {
        let ghost entered = self@;
        let mut k: usize = 0;
        while k < params.len()
            invariant
                k <= params.len(),
                forall|j: int| 0 <= j < params@.len() ==> scalar_type_ok((#[trigger] params@[j]).0),
                consistent(self@),
                self@.symbols.frames == entered.symbols.frames,
                self@.symbols.frames.len() > 0,
                self@.current_function == entered.current_function,
                made(self@).params =~= types_of(params@),
                entered == old(self)@,
                quiet(entered, self@),
                spill_params(entered, params@, 0, position) == spill_params(
                    self@,
                    params@,
                    k as int,
                    position,
                ),
                flow_of(self@.code) == (if k > 0 {
                    after_code(flow_of(entered.code))
                } else {
                    flow_of(entered.code)
                }),
            decreases params.len() - k,
        {
            let ty = params[k].0;
            assert(scalar_type_ok(params@[k as int].0));
            if self.symbols.bound_in_top(&params[k].1) {
                return Err(Error::new(position, ErrorType::VariableRedefinition));
            }
            let dst = self.next_reg();
            let slot = self.define(
                Inst::Alloca { dst, ty: ty.to_llvm_basic_type(), name: None },
                ty.to_llvm_basic_type().pointer(),
            );
            proof {
                reveal(consistent);
            }
            self.step(
                Inst::Store {
                    ptr: slot,
                    value: Value { kind: ValueKind::Param(k), ty: ty.to_llvm_basic_type() },
                },
            );
            self.bind_declared(&params[k].1, ty, slot);
            k += 1;
        }
        Ok(())
    }

    /// Ends a function whose last block is open: a procedure returns, any
    /// other function returns the zero of its type.
    fn gen_implicit_return(&mut self, ret: Type)
        requires
            consistent(old(self)@),
            !(ret is IntArray),
            old(self)@.current_function matches Some((r, _)) && r == ret,
        ensures
            quiet(old(self)@, final(self)@),
            final(self)@ == implicit_return(old(self)@, ret),
            consistent(final(self)@),
            final(self)@.terminated,
            flow_of(final(self)@.code) == after_fall_through(flow_of(old(self)@.code)),
    {
        proof {
            reveal(consistent);
        }
        if self.no_terminator() {
            match ret {
                Type::Void => {
                    self.step(Inst::Return { value: None });
                },
                _ => {
                    let zero = Value { kind: ValueKind::Zero, ty: ret.to_llvm_basic_type() };
                    proof {
                        lemma_enclosing_return_push(
                            self@.code,
                            Inst::Return { value: Some(zero) },
                            self@.code.len() as int,
                        );
                    }
                    self.step(Inst::Return { value: Some(zero) });
                },
            }
        }
    }

    /// A function definition: the function with its parameters, its entry
    /// block with a slot for each parameter, and its body. A body that ends
    /// open gets a return: of nothing in a procedure, of zero elsewhere.
    ///
    /// Fails with `FunctionRedefinition` where the name is taken by a global
    /// variable or a function, and then nothing is changed; with
    /// `VariableRedefinition` at the function where two parameters have one
    /// name; and with the error of the body where that fails.
    pub fn gen_function(&mut self, f: &Ast) -> (r: Result<(), Error>)
        requires
            consistent(old(self)@),
            item_ok(*f),
            f.info is FunctionDec,
            old(self)@.symbols.frames.len() == 0,
        ensures
            r is Ok ==> enters_its_blocks(old(self)@, final(self)@),
            stops_as(lower_function(old(self)@, *f), final(self)@, r),
            consistent(final(self)@),
            final(self)@.symbols.frames.len() == 0,
            r is Ok ==> final(self)@.terminated && flow_of(final(self)@.code) == flow_item(
                *f,
                flow_of(old(self)@.code),
            ),
    {
        match &f.info {
            ASTInfo::FunctionDec(ret, name, params, body) => {
                if self.symbols.taken_globally(name) {
                    return Err(Error::new(f.position, ErrorType::FunctionRedefinition));
                }
                self.gen_announce(params);
                self.open_function(name, *ret, params.len());
                assert(made(self@).params =~= types_of(params@));
                match self.gen_spill(params, f.position) {
                    Err(x) => {
                        self.close_scope();
                        Err(x)
                    },
                    Ok(()) => match self.gen_block_stmt(body) {
                        Err(x) => {
                            self.close_scope();
                            Err(x)
                        },
                        Ok(()) => {
                            self.gen_implicit_return(*ret);
                            self.close_scope();
                            Ok(())
                        },
                    },
                }
            },
            _ => Ok(()),
        }
    }

    /// A global variable: added to the module with the value zero, and bound
    /// to its address.
    ///
    /// Fails with `VariableRedefinition` where the name is taken by a global
    /// variable or a function.
    pub fn gen_global_variable(&mut self, d: &Ast) -> (r: Result<(), Error>)
        requires
            consistent(old(self)@),
            item_ok(*d),
            d.info is VariableDec,
        ensures
            quiet(old(self)@, final(self)@),
            stops_as(lower_global(old(self)@, *d), final(self)@, r),
            consistent(final(self)@),
            final(self)@.symbols.frames == old(self)@.symbols.frames,
            final(self)@.terminated == old(self)@.terminated,
            flow_of(final(self)@.code) == flow_of(old(self)@.code) || r is Err,
    {
        match &d.info {
            ASTInfo::VariableDec(ty, name) => {
                if self.symbols.taken_globally(name) {
                    return Err(Error::new(d.position, ErrorType::VariableRedefinition));
                }
                let slot = Value {
                    kind: ValueKind::Global(self.symbols.global_count()),
                    ty: ty.to_llvm_basic_type().pointer(),
                };
                proof {
                    reveal(consistent);
                    lemma_push_typed(self@.code, Inst::Global { name: *name, ty: *ty });
                    lemma_push_scoped(self@.code, Inst::Global { name: *name, ty: *ty });
                    lemma_push_enters(self@.code, Inst::Global { name: *name, ty: *ty });
                }
                self.code.push(Inst::Global { name: name.clone(), ty: *ty });
                let steps = self.code.len();
                let ghost before = self@.symbols;
                let declared = self.symbols.declare_global_var(name, *ty, slot);
                proof {
                    let after = self@.symbols;
                    assert forall|i: int| 0 <= i < after.globals.len() implies binding_ok(
                        #[trigger] after.globals[i],
                    ) && value_in(self@, after.globals[i].slot) by {
                        if i < before.globals.len() {
                            assert(after.globals[i] == before.globals[i]);
                            assert(value_in(old(self)@, before.globals[i].slot));
                        }
                    }
                }
                Ok(())
            },
            _ => Ok(()),
        }
    }

    /// Lowers a program into a builder that has taken no step yet: declares
    /// the two routines of the runtime, then lowers the top-level
    /// declarations in their order.
    ///
    /// Fails with the error of the first declaration that fails.
    pub fn generate(&mut self, ast: &Vec<Ast>) -> (r: Result<(), Error>)
        requires
            old(self)@ == BuilderState::start(),
            program_ok(ast@),
        ensures
            r is Ok ==> entered_once(final(self)@.code),
            stops_as(lower_program(ast@), final(self)@, r),
            consistent(final(self)@),
            final(self)@.symbols.frames.len() == 0,
            r is Ok ==> final(self)@.terminated && flow_of(final(self)@.code) == flow_items(
                ast@,
                0,
                Flow { closed: true, broken: false },
            ),
    {
        proof {
            reveal(consistent);
            assert(flow_of(self@.code) == Flow { closed: true, broken: false });
            assert(consistent(self@));
        }
        self.note(Inst::Extern { routine: Runtime::Input });
        self.note(Inst::Extern { routine: Runtime::Output });
        let mut i: usize = 0;
        while i < ast.len()
            invariant
                i <= ast.len(),
                program_ok(ast@),
                consistent(self@),
                self@.symbols.frames.len() == 0,
                self@.terminated,
                entered_once(self@.code),
                lower_program(ast@) == lower_items(self@, ast@, i as int),
                flow_items(ast@, 0, Flow { closed: true, broken: false }) == flow_items(
                    ast@,
                    i as int,
                    flow_of(self@.code),
                ),
            decreases ast.len() - i,
        {
            assert(item_ok(ast@[i as int]));
            let done = match &ast[i].info {
                ASTInfo::FunctionDec(_, _, _, _) => self.gen_function(&ast[i]),
                _ => self.gen_global_variable(&ast[i]),
            };
            match done {
                Err(x) => {
                    return Err(x);
                },
                Ok(()) => {},
            }
            i += 1;
        }
        Ok(())
    }

    /// A builder that has taken no step yet, for a module without a name.
    pub fn empty() -> (r: Self)
        ensures
            r@ == BuilderState::start(),
            r.module_name() == Seq::<char>::empty(),
    {
        let builder = CodeBuilder {
            name: String::new(),
            code: Vec::new(),
            regs: 0,
            blocks: 0,
            symbols: SymbolTable::new(),
            current_function: None,
            current_block: 0,
            terminated: true,
        };
        assert(builder@.code =~= Seq::empty());
        builder
    }

    /// Lowers a program to the listing of a module called `name`.
    ///
    /// The result is the listing that `lower_program` gives, or the error
    /// with which it ends. A listing that comes out is well typed and well
    /// scoped, and in it every basic block holds exactly one terminator, as
    /// its last instruction, unless the program holds dead code.
    pub fn new(name: &str, ast: &Vec<Ast>) -> (r: Result<Self, Error>)
        requires
            program_ok(ast@),
        ensures
            match lower_program(ast@) {
                Ok(st) => r matches Ok(b) && b@ == st && b.module_name() == name@,
                Err((_, x)) => r matches Err(e) && e == x,
            },
            r matches Ok(b) ==> consistent(b@) && well_typed(b@.code) && well_scoped(b@.code)
                && entered_once(b@.code) && (dead_code_free(ast@) ==> terminators_in_place(
                b@.code,
            )),
    {
        let mut builder = CodeBuilder::empty();
        proof {
            reveal(consistent);
        }
        match builder.generate(ast) {
            Err(x) => Err(x),
            Ok(()) => {
                builder.name = name.to_owned();
                Ok(builder)
            },
        }
    }

    /// The name of the module.
    pub closed spec fn module_name(&self) -> Seq<char> {
        self.name@
    }

    /// The name of the module.
    pub fn name(&self) -> (r: &String)
        ensures
            r@ == self.module_name(),
    {
        &self.name
    }

    /// The steps of the listing, in their order.
    pub fn listing(&self) -> (r: &Vec<Inst>)
        ensures
            r@ == self@.code,
    {
        &self.code
    }
}

} // verus!
