//! What lowering means: for every syntax tree, the listing that it becomes or
//! the error that ends it, as a mathematical function.
use vstd::prelude::*;
use crate::ast::{ASTInfo, Ast, Oprand, Type};
use crate::error::{Error, ErrorType};
use crate::ir::{
    blocks_made, const_value, counts_of, enclosing_return, enters, flow_of, is_terminator, pointee, reg_value,
    slot_type, value_made, value_type, well_scoped, well_typed, Arith, BlockKind, Counts, Flow,
    Inst, IrType, Pred, Runtime, Value, ValueKind,
};
use crate::scope::{find_last, Binding, FunctionBinding, Symbols};

verus! {

/// The state of a lowering: the listing so far and where the builder stands.
pub struct BuilderState {
    /// The steps taken so far.
    pub code: Seq<Inst>,
    /// The number of registers defined so far.
    pub regs: nat,
    /// The number of basic blocks made so far.
    pub blocks: nat,
    /// The names in sight.
    pub symbols: Symbols,
    /// The return type and the number of the function being lowered.
    pub current_function: Option<(Type, usize)>,
    /// The block that instructions go to.
    pub current_block: nat,
    /// Whether the current block ends in a terminator.
    pub terminated: bool,
}

/// What an operator is lowered to.
pub enum OpClass {
    /// One arithmetic instruction.
    Arith(Arith),
    /// One comparison, widened to an integer.
    Compare(Pred),
    /// Both operands combined bitwise, the result compared with zero and
    /// widened to an integer: both operands are always evaluated.
    Logical(Arith),
}

/// How each operator of the language is lowered.
pub open spec fn classify(op: Oprand) -> OpClass {
    match op {
        Oprand::Add => OpClass::Arith(Arith::Add),
        Oprand::Sub => OpClass::Arith(Arith::Sub),
        Oprand::Mul => OpClass::Arith(Arith::Mul),
        Oprand::Div => OpClass::Arith(Arith::SDiv),
        Oprand::Mod => OpClass::Arith(Arith::SRem),
        Oprand::Ge => OpClass::Compare(Pred::Sge),
        Oprand::Le => OpClass::Compare(Pred::Sle),
        Oprand::Gt => OpClass::Compare(Pred::Sgt),
        Oprand::Lt => OpClass::Compare(Pred::Slt),
        Oprand::Eq => OpClass::Compare(Pred::Eq),
        Oprand::Ne => OpClass::Compare(Pred::Ne),
        Oprand::Band => OpClass::Arith(Arith::And),
        Oprand::Bor => OpClass::Arith(Arith::Or),
        Oprand::Bxor => OpClass::Arith(Arith::Xor),
        Oprand::Land => OpClass::Logical(Arith::And),
        Oprand::Lor => OpClass::Logical(Arith::Or),
        Oprand::LShift => OpClass::Arith(Arith::Shl),
        Oprand::RShift => OpClass::Arith(Arith::AShr),
    }
}

/// A failure: the state in which lowering stops, and the error of sort
/// `error` at `position` with which it stops.
pub open spec fn fail(st: BuilderState, position: (usize, usize), error: ErrorType) -> (
    BuilderState,
    Error,
) {
    (st, Error { position, error })
}

impl BuilderState {
    /// The state before anything is lowered.
    pub open spec fn start() -> BuilderState {
        BuilderState {
            code: Seq::empty(),
            regs: 0,
            blocks: 0,
            symbols: Symbols::empty(),
            current_function: None,
            current_block: 0,
            terminated: true,
        }
    }

    /// The register that the next defining instruction writes.
    pub open spec fn next_reg(self) -> usize {
        self.regs as usize
    }

    /// The number of the block that is made next.
    pub open spec fn next_block(self) -> usize {
        self.blocks as usize
    }

    /// After a step that declares or announces something.
    pub open spec fn note(self, inst: Inst) -> BuilderState {
        BuilderState { code: self.code.push(inst), ..self }
    }

    /// After an instruction without a result.
    pub open spec fn step(self, inst: Inst) -> BuilderState {
        BuilderState { code: self.code.push(inst), terminated: is_terminator(inst), ..self }
    }

    /// After an instruction that defines the next register.
    pub open spec fn define(self, inst: Inst) -> BuilderState {
        BuilderState {
            code: self.code.push(inst),
            regs: self.regs + 1,
            terminated: false,
            ..self
        }
    }

    /// After a new block is made.
    pub open spec fn block(self, kind: BlockKind, anchor: usize) -> BuilderState {
        BuilderState {
            code: self.code.push(Inst::Block { kind, anchor }),
            blocks: self.blocks + 1,
            ..self
        }
    }

    /// After the builder has moved to the end of `block`.
    pub open spec fn enter(self, block: usize) -> BuilderState {
        BuilderState {
            code: self.code.push(Inst::Enter { block }),
            current_block: block as nat,
            terminated: false,
            ..self
        }
    }

    /// With other names in sight.
    pub open spec fn with_symbols(self, symbols: Symbols) -> BuilderState {
        BuilderState { symbols, ..self }
    }

    /// After a jump to `target`, unless the current block is closed already.
    pub open spec fn fall_through(self, target: usize) -> BuilderState {
        if self.terminated {
            self
        } else {
            self.step(Inst::Branch { target })
        }
    }
}

/// The value as an integer: a pointer is cast, an integer is taken as it is.
pub open spec fn as_integer(st: BuilderState, ty: Type, v: Value) -> (BuilderState, Value) {
    if ty == Type::IntPtr {
        (st.define(Inst::PtrToInt { dst: st.next_reg(), value: v }), reg_value(st.regs, IrType::I32))
    } else {
        (st, v)
    }
}

/// The instructions of one operator on two integers, and their result.
pub open spec fn apply_operator(st: BuilderState, op: Oprand, a: Value, b: Value) -> (
    BuilderState,
    Value,
) {
    match classify(op) {
        OpClass::Arith(ar) => (
            st.define(Inst::Binary { dst: st.next_reg(), op: ar, lhs: a, rhs: b }),
            reg_value(st.regs, IrType::I32),
        ),
        OpClass::Compare(pred) => {
            let s1 = st.define(Inst::Compare { dst: st.next_reg(), pred, lhs: a, rhs: b });
            let s2 = s1.define(
                Inst::Widen { dst: s1.next_reg(), value: reg_value(st.regs, IrType::I1) },
            );
            (s2, reg_value(s1.regs, IrType::I32))
        },
        OpClass::Logical(ar) => {
            let s1 = st.define(Inst::Binary { dst: st.next_reg(), op: ar, lhs: a, rhs: b });
            let s2 = s1.define(
                Inst::Compare {
                    dst: s1.next_reg(),
                    pred: Pred::Ne,
                    lhs: reg_value(st.regs, IrType::I32),
                    rhs: const_value(0),
                },
            );
            let s3 = s2.define(
                Inst::Widen { dst: s2.next_reg(), value: reg_value(s1.regs, IrType::I1) },
            );
            (s3, reg_value(s2.regs, IrType::I32))
        },
    }
}

/// The address that a variable expression denotes, with the type of what
/// lies there. A subscripted pointer denotes the address of the element: the
/// subscript is evaluated first and must be an integer, then the pointer is
/// read from its slot and indexed.
pub open spec fn lower_variable(st: BuilderState, e: Ast) -> Result<
    (BuilderState, Type, Value), (BuilderState, Error)>
    decreases e, 0nat,
{
    match e.info {
        ASTInfo::Variable(name, index) => match st.symbols.lookup_variable(name@) {
            None => Err(fail(st, e.position, ErrorType::VariableNotDefined)),
            Some(b) => match b.ty {
                Type::Int => Ok((st, Type::Int, b.slot)),
                Type::Void => Err(fail(st, e.position, ErrorType::ExpressionVoidType)),
                Type::IntPtr => match index {
                    Some(ix) => match lower_expr(st, *ix) {
                        Err(x) => Err(x),
                        Ok((s1, ity, iv)) => if ity == Type::Int {
                            let s2 = s1.define(Inst::Load { dst: s1.next_reg(), ptr: b.slot });
                            let s3 = s2.define(
                                Inst::ElementPtr {
                                    dst: s2.next_reg(),
                                    base: reg_value(s1.regs, IrType::Ptr),
                                    index: iv,
                                },
                            );
                            Ok((s3, Type::Int, reg_value(s2.regs, IrType::Ptr)))
                        } else {
                            Err(fail(s1, ix.position, ErrorType::IndexNotInt))
                        },
                    },
                    None => Ok((st, Type::IntPtr, b.slot)),
                },
                Type::IntArray(_) => Ok((st, b.ty, b.slot)),
            },
        },
        _ => Ok((st, Type::Int, const_value(0))),
    }
}

/// An assignment: the address of the left side, then the value of the right
/// side, which must have the type of what lies at the address, then the
/// store. The assignment has the stored value.
pub open spec fn lower_assignment(st: BuilderState, e: Ast) -> Result<
    (BuilderState, Type, Value), (BuilderState, Error)>
    decreases e, 0nat,
{
    match e.info {
        ASTInfo::AssignmentExpr(var, rhs) => match lower_variable(st, *var) {
            Err(x) => Err(x),
            Ok((s1, lt, ptr)) => match lower_expr(s1, *rhs) {
                Err(x) => Err(x),
                Ok((s2, rt, v)) => if lt == rt {
                    Ok((s2.step(Inst::Store { ptr, value: v }), lt, v))
                } else {
                    Err(fail(s2, e.position, ErrorType::MismatchedType))
                },
            },
        },
        _ => Ok((st, Type::Int, const_value(0))),
    }
}

/// A binary expression: the left operand, then the right one, each cast to
/// an integer where it is a pointer, then the operator.
pub open spec fn lower_binary(st: BuilderState, e: Ast) -> Result<
    (BuilderState, Type, Value), (BuilderState, Error)>
    decreases e, 0nat,
{
    match e.info {
        ASTInfo::BinaryExpr(op, l, r) => match lower_expr(st, *l) {
            Err(x) => Err(x),
            Ok((s1, lt, lv)) => match lower_expr(s1, *r) {
                Err(x) => Err(x),
                Ok((s2, rt, rv)) => {
                    let (s3, a) = as_integer(s2, lt, lv);
                    let (s4, b) = as_integer(s3, rt, rv);
                    let (s5, v) = apply_operator(s4, op, a, b);
                    Ok((s5, Type::Int, v))
                },
            },
        },
        _ => Ok((st, Type::Int, const_value(0))),
    }
}

/// The arguments of a call from the one at `from` on, in their order; the
/// values of the earlier ones are in `done`.
pub open spec fn lower_args(st: BuilderState, args: Seq<Ast>, from: int, done: Seq<Value>) -> Result<
    (BuilderState, Seq<Value>), (BuilderState, Error)>
    decreases args, args.len() - from,
{
    if from < 0 || from >= args.len() {
        Ok((st, done))
    } else {
        match lower_expr(st, args[from]) {
            Err(x) => Err(x),
            Ok((s1, _, v)) => lower_args(s1, args, from + 1, done.push(v)),
        }
    }
}

/// The state after the values from `from` on are passed as arguments.
pub open spec fn pass_args(st: BuilderState, values: Seq<Value>, from: int) -> BuilderState
    decreases values.len() - from,
{
    if from < 0 || from >= values.len() {
        st
    } else {
        pass_args(st.note(Inst::Arg { value: values[from] }), values, from + 1)
    }
}

/// A call: the callee, which must be a function, then the arguments in
/// their order, then the call itself. Where the callee is no function no
/// argument is lowered. A call of a procedure has the type `Void`.
pub open spec fn lower_call(st: BuilderState, e: Ast) -> Result<
    (BuilderState, Type, Value),
    (BuilderState, Error),
>
    decreases e, 0nat,
{
    match e.info {
        ASTInfo::CallExpr(name, args) => match st.symbols.lookup_function(name@) {
            None => Err(fail(st, e.position, ErrorType::FunctionNotDefined)),
            Some((ret, callee)) => match lower_args(st, args@, 0, Seq::empty()) {
                Err(x) => Err(x),
                Ok((s1, values)) => {
                    let s2 = pass_args(s1, values, 0);
                    if ret == Type::Void {
                        Ok(
                            (
                                s2.step(
                                    Inst::Call {
                                        dst: None,
                                        callee,
                                        args: values.len() as usize,
                                        name,
                                    },
                                ),
                                Type::Void,
                                const_value(0),
                            ),
                        )
                    } else {
                        Ok(
                            (
                                s2.define(
                                    Inst::Call {
                                        dst: Some(s2.next_reg()),
                                        callee,
                                        args: values.len() as usize,
                                        name,
                                    },
                                ),
                                ret,
                                reg_value(s2.regs, value_type(ret)),
                            ),
                        )
                    }
                },
            },
        },
        _ => Ok((st, Type::Int, const_value(0))),
    }
}

/// An expression used for its value. A literal is a constant; a variable is
/// read from its address; a call must not be the call of a procedure.
pub open spec fn lower_expr(st: BuilderState, e: Ast) -> Result<(BuilderState, Type, Value), (BuilderState, Error)>
    decreases e, 1nat,
{
    match e.info {
        ASTInfo::AssignmentExpr(_, _) => lower_assignment(st, e),
        ASTInfo::BinaryExpr(_, _, _) => lower_binary(st, e),
        ASTInfo::CallExpr(_, _) => match lower_call(st, e) {
            Err(x) => Err(x),
            Ok((s1, ty, v)) => if ty == Type::Void {
                Err(fail(s1, e.position, ErrorType::ExpressionVoidType))
            } else {
                Ok((s1, ty, v))
            },
        },
        ASTInfo::Variable(_, _) => match lower_variable(st, e) {
            Err(x) => Err(x),
            Ok((s1, ty, ptr)) => Ok(
                (
                    s1.define(Inst::Load { dst: s1.next_reg(), ptr }),
                    ty,
                    reg_value(s1.regs, pointee(ptr.ty)),
                ),
            ),
        },
        ASTInfo::IntLiteral(v) => Ok((st, Type::Int, const_value(v))),
        _ => Ok((st, Type::Int, const_value(0))),
    }
}

/// A condition: the expression, which must be an integer, cut to its lowest
/// bit.
pub open spec fn lower_condition(st: BuilderState, c: Ast) -> Result<(BuilderState, Value), (BuilderState, Error)> {
    match lower_expr(st, c) {
        Err(x) => Err(x),
        Ok((s1, ty, v)) => if ty == Type::Int {
            Ok(
                (
                    s1.define(Inst::Truncate { dst: s1.next_reg(), value: v }),
                    reg_value(s1.regs, IrType::I1),
                ),
            )
        } else {
            Err(fail(s1, c.position, ErrorType::MismatchedType))
        },
    }
}

/// One local declaration at the start of a block. The name must be new in
/// the block's scope. A scalar gets a slot; an array gets its storage and a
/// second slot that holds the address of its first element, and the name is
/// bound to that slot as a pointer.
pub open spec fn lower_declaration(st: BuilderState, d: Ast) -> Result<BuilderState, (BuilderState, Error)> {
    match d.info {
        ASTInfo::VariableDec(ty, name) => if st.symbols.bound_in_top(name@) {
            Err(fail(st, d.position, ErrorType::VariableRedefinition))
        } else {
            let s1 = st.define(
                Inst::Alloca { dst: st.next_reg(), ty: value_type(ty), name: Some(name) },
            );
            let slot = reg_value(st.regs, slot_type(ty));
            if ty is IntArray {
                let s2 = s1.define(
                    Inst::Alloca { dst: s1.next_reg(), ty: IrType::Ptr, name: Some(name) },
                );
                let decayed = reg_value(s1.regs, IrType::PtrPtr);
                let s3 = s2.define(Inst::ArrayStart { dst: s2.next_reg(), array: slot, name });
                let s4 = s3.step(
                    Inst::Store { ptr: decayed, value: reg_value(s2.regs, IrType::Ptr) },
                );
                Ok(
                    s4.with_symbols(
                        s4.symbols.declare_local(
                            Binding { name, ty: Type::IntPtr, slot: decayed },
                        ),
                    ),
                )
            } else {
                Ok(s1.with_symbols(s1.symbols.declare_local(Binding { name, ty, slot })))
            }
        },
        _ => Ok(st),
    }
}

/// The declarations of a block from the one at `from` on, in their order.
pub open spec fn lower_declarations(st: BuilderState, decls: Seq<Ast>, from: int) -> Result<
    BuilderState, (BuilderState, Error)>
    decreases decls.len() - from,
{
    if from < 0 || from >= decls.len() {
        Ok(st)
    } else {
        match lower_declaration(st, decls[from]) {
            Err(x) => Err(x),
            Ok(s1) => lower_declarations(s1, decls, from + 1),
        }
    }
}

/// The statements of a block from the one at `from` on, in their order.
pub open spec fn lower_statements(st: BuilderState, stmts: Seq<Ast>, from: int) -> Result<
    BuilderState, (BuilderState, Error)>
    decreases stmts, stmts.len() - from,
{
    if from < 0 || from >= stmts.len() {
        Ok(st)
    } else {
        match lower_stmt(st, stmts[from]) {
            Err(x) => Err(x),
            Ok(s1) => lower_statements(s1, stmts, from + 1),
        }
    }
}

/// A block: a new scope, the declarations, the statements, and the scope is
/// left again, also where a declaration or a statement fails.
pub open spec fn lower_block(st: BuilderState, s: Ast) -> Result<BuilderState, (BuilderState, Error)>
    decreases s, 0nat,
{
    match s.info {
        ASTInfo::BlockStmt(decls, stmts) => match lower_declarations(
            st.with_symbols(st.symbols.push_scope()),
            decls@,
            0,
        ) {
            Err((s1, x)) => Err((s1.with_symbols(s1.symbols.pop_scope()), x)),
            Ok(s1) => match lower_statements(s1, stmts@, 0) {
                Err((s2, x)) => Err((s2.with_symbols(s2.symbols.pop_scope()), x)),
                Ok(s2) => Ok(s2.with_symbols(s2.symbols.pop_scope())),
            },
        },
        _ => Ok(st),
    }
}

/// A statement.
///
/// A selection tests its condition in the current block and continues in a
/// new block behind both branches; a branch that ends open jumps there. A
/// loop jumps to a new block that tests the condition, and its body jumps
/// back there unless it ends closed. A return with a value must return the
/// function's type. An expression is lowered for its effect; a call of a
/// procedure is in order here.
pub open spec fn lower_stmt(st: BuilderState, s: Ast) -> Result<BuilderState, (BuilderState, Error)>
    decreases s, 1nat,
{
    match s.info {
        ASTInfo::BlockStmt(_, _) => lower_block(st, s),
        ASTInfo::SelectionStmt(c, t, e) => match lower_condition(st, *c) {
            Err(x) => Err(x),
            Ok((s1, cond)) => {
                let then_block = s1.next_block();
                let s2 = s1.block(BlockKind::Then, s1.current_block as usize);
                let dest_block = s2.next_block();
                let s3 = s2.block(BlockKind::IfDest, then_block);
                match e {
                    Some(es) => {
                        let else_block = s3.next_block();
                        let s4 = s3.block(BlockKind::Else, dest_block);
                        let s5 = s4.step(Inst::CondBranch { cond, then_block, else_block });
                        match lower_stmt(s5.enter(then_block), *t) {
                            Err(x) => Err(x),
                            Ok(s6) => match lower_stmt(
                                s6.fall_through(dest_block).enter(else_block),
                                *es,
                            ) {
                                Err(x) => Err(x),
                                Ok(s7) => Ok(s7.fall_through(dest_block).enter(dest_block)),
                            },
                        }
                    },
                    None => {
                        let s5 = s3.step(
                            Inst::CondBranch { cond, then_block, else_block: dest_block },
                        );
                        match lower_stmt(s5.enter(then_block), *t) {
                            Err(x) => Err(x),
                            Ok(s6) => Ok(s6.fall_through(dest_block).enter(dest_block)),
                        }
                    },
                }
            },
        },
        ASTInfo::IterationStmt(c, body) => {
            let head = st.next_block();
            let s1 = st.block(BlockKind::LoopHead, st.current_block as usize).step(
                Inst::Branch { target: head },
            );
            let body_block = s1.next_block();
            let s2 = s1.block(BlockKind::LoopBody, head);
            let dest_block = s2.next_block();
            let s3 = s2.block(BlockKind::LoopDest, body_block);
            match lower_condition(s3.enter(head), *c) {
                Err(x) => Err(x),
                Ok((s4, cond)) => {
                    let s5 = s4.step(
                        Inst::CondBranch { cond, then_block: body_block, else_block: dest_block },
                    );
                    match lower_stmt(s5.enter(body_block), *body) {
                        Err(x) => Err(x),
                        Ok(s6) => Ok(s6.fall_through(head).enter(dest_block)),
                    }
                },
            }
        },
        ASTInfo::ReturnStmt(Some(e)) => match lower_expr(st, *e) {
            Err(x) => Err(x),
            Ok((s1, ty, v)) => if s1.current_function matches Some((ret, _)) && ret == ty {
                Ok(s1.step(Inst::Return { value: Some(v) }))
            } else {
                Err(fail(s1, s.position, ErrorType::MismatchedTypeFunction))
            },
        },
        ASTInfo::ReturnStmt(None) => Ok(st.step(Inst::Return { value: None })),
        ASTInfo::AssignmentExpr(_, _) => match lower_assignment(st, s) {
            Err(x) => Err(x),
            Ok((s1, _, _)) => Ok(s1),
        },
        ASTInfo::BinaryExpr(_, _, _) => match lower_binary(st, s) {
            Err(x) => Err(x),
            Ok((s1, _, _)) => Ok(s1),
        },
        ASTInfo::CallExpr(_, _) => match lower_call(st, s) {
            Err(x) => Err(x),
            Ok((s1, _, _)) => Ok(s1),
        },
        _ => Ok(st),
    }
}

/// The state after the parameters from `from` on are announced.
pub open spec fn announce_params(st: BuilderState, params: Seq<(Type, String)>, from: int) -> BuilderState
    decreases params.len() - from,
{
    if from < 0 || from >= params.len() {
        st
    } else {
        announce_params(
            st.note(Inst::Param { ty: params[from].0, name: params[from].1 }),
            params,
            from + 1,
        )
    }
}

/// The parameters from `from` on get their slots: each gets a slot of its
/// type, the incoming argument is stored there, and the name is bound to the
/// slot in the scope of the parameters. A name that the scope holds already
/// fails with `VariableRedefinition` at `position`, the place of the
/// function, before anything is done for that parameter.
pub open spec fn spill_params(
    st: BuilderState,
    params: Seq<(Type, String)>,
    from: int,
    position: (usize, usize),
) -> Result<BuilderState, (BuilderState, Error)>
    decreases params.len() - from,
{
    if from < 0 || from >= params.len() {
        Ok(st)
    } else {
        let (ty, name) = params[from];
        if st.symbols.bound_in_top(name@) {
            Err(fail(st, position, ErrorType::VariableRedefinition))
        } else {
            let slot = reg_value(st.regs, slot_type(ty));
            let s1 = st.define(
                Inst::Alloca { dst: st.next_reg(), ty: value_type(ty), name: None },
            );
            let s2 = s1.step(
                Inst::Store {
                    ptr: slot,
                    value: Value { kind: ValueKind::Param(from as usize), ty: value_type(ty) },
                },
            );
            spill_params(
                s2.with_symbols(s2.symbols.declare_local(Binding { name, ty, slot })),
                params,
                from + 1,
                position,
            )
        }
    }
}

/// The end of a function whose last block is open: a procedure returns, any
/// other function returns the zero of its type.
pub open spec fn implicit_return(st: BuilderState, ret: Type) -> BuilderState {
    if st.terminated {
        st
    } else if ret == Type::Void {
        st.step(Inst::Return { value: None })
    } else {
        st.step(
            Inst::Return { value: Some(Value { kind: ValueKind::Zero, ty: value_type(ret) }) },
        )
    }
}

/// A function definition. The name must be free at module level. The
/// function is added and bound before its body is lowered, so that it can
/// call itself. Its entry block spills the parameters into a scope of their
/// own, in which no name stands twice; the scope is left when the body is
/// done, and also where a parameter or the body fails.
pub open spec fn lower_function(st: BuilderState, f: Ast) -> Result<BuilderState, (BuilderState, Error)> {
    match f.info {
        ASTInfo::FunctionDec(ret, name, params, body) => if st.symbols.taken_globally(name@) {
            Err(fail(st, f.position, ErrorType::FunctionRedefinition))
        } else {
            let index = st.symbols.functions.len() as usize;
            let s1 = announce_params(st, params@, 0).note(
                Inst::Function { name, ret, params: params@.len() as usize },
            );
            let s2 = BuilderState {
                symbols: s1.symbols.declare_function(FunctionBinding { name, ret, index }).push_scope(),
                current_function: Some((ret, index)),
                terminated: true,
                ..s1
            };
            let entry = s2.next_block();
            match spill_params(
                s2.block(BlockKind::Entry, 0).enter(entry),
                params@,
                0,
                f.position,
            ) {
                Err((s3, x)) => Err((s3.with_symbols(s3.symbols.pop_scope()), x)),
                Ok(s3) => match lower_block(s3, *body) {
                    Err((s4, x)) => Err((s4.with_symbols(s4.symbols.pop_scope()), x)),
                    Ok(s4) => {
                        let s5 = implicit_return(s4, ret);
                        Ok(s5.with_symbols(s5.symbols.pop_scope()))
                    },
                },
            }
        },
        _ => Ok(st),
    }
}

/// A global variable. The name must be free at module level. The variable
/// is added with the value zero and bound to its address.
pub open spec fn lower_global(st: BuilderState, d: Ast) -> Result<BuilderState, (BuilderState, Error)> {
    match d.info {
        ASTInfo::VariableDec(ty, name) => if st.symbols.taken_globally(name@) {
            Err(fail(st, d.position, ErrorType::VariableRedefinition))
        } else {
            let slot = Value {
                kind: ValueKind::Global(st.symbols.globals.len() as usize),
                ty: slot_type(ty),
            };
            let s1 = st.note(Inst::Global { name, ty });
            Ok(s1.with_symbols(s1.symbols.declare_global_var(Binding { name, ty, slot })))
        },
        _ => Ok(st),
    }
}

/// The top-level declarations from the one at `from` on, in their order.
pub open spec fn lower_items(st: BuilderState, items: Seq<Ast>, from: int) -> Result<
    BuilderState, (BuilderState, Error)>
    decreases items.len() - from,
{
    if from < 0 || from >= items.len() {
        Ok(st)
    } else {
        let next = if items[from].info is FunctionDec {
            lower_function(st, items[from])
        } else {
            lower_global(st, items[from])
        };
        match next {
            Err(x) => Err(x),
            Ok(s1) => lower_items(s1, items, from + 1),
        }
    }
}

/// The state in which the declarations of a program are lowered: the two
/// routines of the runtime are declared.
pub open spec fn prelude() -> BuilderState {
    BuilderState::start().note(Inst::Extern { routine: Runtime::Input }).note(
        Inst::Extern { routine: Runtime::Output },
    )
}

/// A program: the routines of the runtime, then its declarations in their
/// order. The first error ends the lowering.
pub open spec fn lower_program(items: Seq<Ast>) -> Result<BuilderState, (BuilderState, Error)> {
    lower_items(prelude(), items, 0)
}

/// Whether a tree can stand where a value is needed: it is an assignment to
/// a variable, a binary expression, a call, a variable or a literal, and so
/// are its parts.
pub open spec fn expression_ok(e: Ast) -> bool
    decreases e,
{
    match e.info {
        ASTInfo::AssignmentExpr(var, rhs) => var.info is Variable && expression_ok(*var)
            && expression_ok(*rhs),
        ASTInfo::BinaryExpr(_, l, r) => expression_ok(*l) && expression_ok(*r),
        ASTInfo::CallExpr(_, args) => forall|i: int|
            0 <= i < args@.len() ==> expression_ok(#[trigger] args@[i]),
        ASTInfo::Variable(_, index) => match index {
            Some(ix) => expression_ok(*ix),
            None => true,
        },
        ASTInfo::IntLiteral(_) => true,
        _ => false,
    }
}

/// Whether a variable can be declared in a block with this type: an
/// integer, a pointer, or an array of at least one element.
pub open spec fn local_type_ok(ty: Type) -> bool {
    match ty {
        Type::Int => true,
        Type::IntPtr => true,
        Type::IntArray(n) => 1 <= n <= u32::MAX,
        Type::Void => false,
    }
}

/// Whether a parameter or a global variable can have this type: an integer
/// or a pointer.
pub open spec fn scalar_type_ok(ty: Type) -> bool {
    ty is Int || ty is IntPtr
}

/// Whether a tree can stand among the declarations of a block.
pub open spec fn declaration_ok(d: Ast) -> bool {
    match d.info {
        ASTInfo::VariableDec(ty, _) => local_type_ok(ty),
        _ => true,
    }
}

/// Whether a tree can stand where a statement is needed: the conditions and
/// values in it are expressions, and the variables declared in its blocks
/// have types that a local variable can have.
pub open spec fn statement_ok(s: Ast) -> bool
    decreases s,
{
    match s.info {
        ASTInfo::BlockStmt(decls, stmts) => (forall|i: int|
            0 <= i < decls@.len() ==> declaration_ok(#[trigger] decls@[i])) && (forall|i: int|
            0 <= i < stmts@.len() ==> statement_ok(#[trigger] stmts@[i])),
        ASTInfo::SelectionStmt(c, t, e) => expression_ok(*c) && statement_ok(*t) && match e {
            Some(es) => statement_ok(*es),
            None => true,
        },
        ASTInfo::IterationStmt(c, body) => expression_ok(*c) && statement_ok(*body),
        ASTInfo::ReturnStmt(value) => match value {
            Some(e) => expression_ok(*e),
            None => true,
        },
        ASTInfo::AssignmentExpr(_, _) => expression_ok(s),
        ASTInfo::BinaryExpr(_, _, _) => expression_ok(s),
        ASTInfo::CallExpr(_, _) => expression_ok(s),
        _ => true,
    }
}

/// Whether a tree can stand at the top level of a program: it is a global
/// variable of a scalar type, or a function that returns no array, whose
/// parameters are scalars and whose body is a statement.
pub open spec fn item_ok(item: Ast) -> bool {
    match item.info {
        ASTInfo::FunctionDec(ret, _, params, body) => !(ret is IntArray) && (forall|i: int|
            0 <= i < params@.len() ==> scalar_type_ok((#[trigger] params@[i]).0)) && statement_ok(
            *body,
        ),
        ASTInfo::VariableDec(ty, _) => scalar_type_ok(ty),
        _ => false,
    }
}

/// Whether a list of trees is a program that can be lowered.
pub open spec fn program_ok(items: Seq<Ast>) -> bool {
    forall|i: int| 0 <= i < items.len() ==> item_ok(#[trigger] items[i])
}

/// A variable in sight has an integer or a pointer, and its slot is an
/// address of such a value.
pub open spec fn binding_ok(b: Binding) -> bool {
    (b.ty is Int || b.ty is IntPtr) && b.slot.ty == slot_type(b.ty)
}

/// The types of a list of parameters.
pub open spec fn types_of(params: Seq<(Type, String)>) -> Seq<Type> {
    Seq::new(params.len(), |i: int| params[i].0)
}

/// What the steps of a state have made.
pub open spec fn made(st: BuilderState) -> Counts {
    counts_of(st.code)
}

/// Whether a value that an expression gave names something that the state
/// has made, and has its type.
pub open spec fn value_in(st: BuilderState, v: Value) -> bool {
    !(v.kind is Param) && value_made(made(st), v)
}

/// Whether the state `after` has made all that the state `before` had made:
/// the registers and blocks of `before` are those of `after`, and the
/// global variables are the same.
pub open spec fn grown(before: BuilderState, after: BuilderState) -> bool {
    &&& before.regs <= after.regs
    &&& before.blocks <= after.blocks
    &&& made(before).types.len() <= made(after).types.len()
    &&& forall|r: int|
        0 <= r < made(before).types.len() ==> (#[trigger] made(after).types[r]) == made(
            before,
        ).types[r]
    &&& made(after).globals == made(before).globals
    &&& made(after).returns == made(before).returns
    &&& made(after).params == made(before).params
    &&& made(after).blocks >= made(before).blocks
}

/// Whether the steps from `before` to `after` made no block and entered
/// none.
pub open spec fn quiet(before: BuilderState, after: BuilderState) -> bool {
    &&& blocks_made(after.code) == blocks_made(before.code)
    &&& forall|b: nat| #[trigger] enters(after.code, b) == enters(before.code, b)
}

/// Whether the steps from `before` to `after` entered each block that they
/// made exactly once, and no other block.
pub open spec fn enters_its_blocks(before: BuilderState, after: BuilderState) -> bool {
    &&& blocks_made(before.code) <= blocks_made(after.code)
    &&& forall|b: nat| #[trigger]
        enters(after.code, b) == enters(before.code, b) + (if blocks_made(before.code) <= b
            < blocks_made(after.code) {
            1nat
        } else {
            0nat
        })
}

/// What holds of a builder between any two steps: the environment is well
/// formed and every variable in it has a slot of its type, which has been
/// made; no function returns an array; the counters are in step with the
/// listing; the listing is well typed and well scoped so far; and the
/// builder knows whether its block is closed and which function it is in.
#[verifier::opaque]
pub open spec fn consistent(st: BuilderState) -> bool {
    &&& st.symbols.wf()
    &&& well_scoped(st.code)
    &&& made(st).types.len() == st.regs
    &&& made(st).blocks == st.blocks
    &&& made(st).globals.len() == st.symbols.globals.len()
    &&& made(st).returns.len() == st.symbols.functions.len()
    &&& forall|i: int|
        0 <= i < st.symbols.globals.len() ==> (#[trigger] made(st).globals[i])
            == st.symbols.globals[i].ty && st.symbols.globals[i].slot.kind == ValueKind::Global(
            i as usize,
        )
    &&& forall|i: int|
        0 <= i < st.symbols.functions.len() ==> (#[trigger] made(st).returns[i])
            == st.symbols.functions[i].ret
    &&& blocks_made(st.code) == st.blocks
    &&& forall|i: int|
        0 <= i < st.symbols.locals.len() ==> value_in(st, (#[trigger] st.symbols.locals[i]).slot)
    &&& forall|i: int|
        0 <= i < st.symbols.globals.len() ==> value_in(st, (#[trigger] st.symbols.globals[i]).slot)
    &&& forall|i: int| 0 <= i < st.symbols.locals.len() ==> binding_ok(#[trigger] st.symbols.locals[i])
    &&& forall|i: int|
        0 <= i < st.symbols.globals.len() ==> binding_ok(#[trigger] st.symbols.globals[i])
    &&& forall|i: int|
        0 <= i < st.symbols.functions.len() ==> !((#[trigger] st.symbols.functions[i]).ret is IntArray)
            && st.symbols.functions[i].index == i
    &&& st.current_function is Some ==> st.current_block < st.blocks
    &&& st.regs <= st.code.len()
    &&& st.blocks <= st.code.len()
    &&& st.symbols.globals.len() <= st.code.len()
    &&& st.symbols.functions.len() <= st.code.len()
    &&& well_typed(st.code)
    &&& st.terminated == flow_of(st.code).closed
    &&& match st.current_function {
        Some((ret, _)) => enclosing_return(st.code, st.code.len() as int) == Some(ret),
        None => true,
    }
}

/// In a consistent state that is in a function, the current block has been
/// made.
pub proof fn lemma_current_block_made(st: BuilderState)
    requires
        consistent(st),
        st.current_function is Some,
    ensures
        st.current_block < st.blocks,
        st.current_block < made(st).blocks,
{
    reveal(consistent);
}

/// The flow after one or more instructions that are no terminators.
pub open spec fn after_code(f: Flow) -> Flow {
    Flow { closed: false, broken: f.broken || f.closed }
}

/// The flow after a terminator.
pub open spec fn after_terminator(f: Flow) -> Flow {
    Flow { closed: true, broken: f.broken || f.closed }
}

/// The flow after a block is entered.
pub open spec fn after_enter(f: Flow) -> Flow {
    Flow { closed: false, broken: f.broken || !f.closed }
}

/// The flow after a jump that is made only where the block is open.
pub open spec fn after_fall_through(f: Flow) -> Flow {
    if f.closed {
        f
    } else {
        after_terminator(f)
    }
}

/// The flow after an expression is lowered for its value: all but a literal
/// put at least one instruction into the current block.
pub open spec fn flow_expr(e: Ast, f: Flow) -> Flow {
    match e.info {
        ASTInfo::AssignmentExpr(_, _) => after_code(f),
        ASTInfo::BinaryExpr(_, _, _) => after_code(f),
        ASTInfo::CallExpr(_, _) => after_code(f),
        ASTInfo::Variable(_, _) => after_code(f),
        _ => f,
    }
}

/// The flow after one declaration of a block.
pub open spec fn flow_declaration(d: Ast, f: Flow) -> Flow {
    if d.info is VariableDec {
        after_code(f)
    } else {
        f
    }
}

/// The flow after the declarations of a block from the one at `from` on.
pub open spec fn flow_declarations(decls: Seq<Ast>, from: int, f: Flow) -> Flow
    decreases decls.len() - from,
{
    if from < 0 || from >= decls.len() {
        f
    } else {
        flow_declarations(decls, from + 1, flow_declaration(decls[from], f))
    }
}

/// The flow after the statements of a block from the one at `from` on.
pub open spec fn flow_statements(stmts: Seq<Ast>, from: int, f: Flow) -> Flow
    decreases stmts, stmts.len() - from,
{
    if from < 0 || from >= stmts.len() {
        f
    } else {
        flow_statements(stmts, from + 1, flow_stmt(stmts[from], f))
    }
}

/// The flow after a statement is lowered: whether it leaves its block
/// closed, and whether it put an instruction behind a terminator.
pub open spec fn flow_stmt(s: Ast, f: Flow) -> Flow
    decreases s, 1nat,
{
    match s.info {
        ASTInfo::BlockStmt(decls, stmts) => flow_statements(
            stmts@,
            0,
            flow_declarations(decls@, 0, f),
        ),
        ASTInfo::SelectionStmt(c, t, e) => {
            let f1 = after_enter(after_terminator(after_code(f)));
            let f2 = after_enter(after_fall_through(flow_stmt(*t, f1)));
            match e {
                Some(es) => after_enter(after_fall_through(flow_stmt(*es, f2))),
                None => f2,
            }
        },
        ASTInfo::IterationStmt(c, body) => {
            let f1 = after_enter(after_terminator(f));
            let f2 = after_enter(after_terminator(after_code(f1)));
            after_enter(after_fall_through(flow_stmt(*body, f2)))
        },
        ASTInfo::ReturnStmt(value) => match value {
            Some(e) => after_terminator(flow_expr(*e, f)),
            None => after_terminator(f),
        },
        ASTInfo::AssignmentExpr(_, _) => after_code(f),
        ASTInfo::BinaryExpr(_, _, _) => after_code(f),
        ASTInfo::CallExpr(_, _) => after_code(f),
        _ => f,
    }
}

/// The flow after the body of a function.
pub open spec fn flow_body(body: Ast, f: Flow) -> Flow {
    if body.info is BlockStmt {
        flow_stmt(body, f)
    } else {
        f
    }
}

/// The flow after a top-level declaration.
pub open spec fn flow_item(item: Ast, f: Flow) -> Flow {
    match item.info {
        ASTInfo::FunctionDec(_, _, params, body) => {
            let f1 = after_enter(Flow { closed: true, broken: f.broken || !f.closed });
            after_fall_through(flow_body(*body, if params@.len() > 0 {
                after_code(f1)
            } else {
                f1
            }))
        },
        _ => f,
    }
}

/// The flow after the top-level declarations from the one at `from` on.
pub open spec fn flow_items(items: Seq<Ast>, from: int, f: Flow) -> Flow
    decreases items.len() - from,
{
    if from < 0 || from >= items.len() {
        f
    } else {
        flow_items(items, from + 1, flow_item(items[from], f))
    }
}

/// Whether a program holds no dead code: no statement that puts an
/// instruction into a block follows, in that block, a `return` or a
/// statement that ends in one.
pub open spec fn dead_code_free(items: Seq<Ast>) -> bool {
    !flow_items(items, 0, Flow { closed: true, broken: false }).broken
}

/// An assignment is lowered only where both sides have one type: the type
/// of what lies at the address of the left side is the type of the right
/// side, and it is the type of the assignment.
pub proof fn lemma_assignment_types_agree(st: BuilderState, e: Ast)
    requires
        e.info is AssignmentExpr,
        lower_assignment(st, e) is Ok,
    ensures
        ({
            let var = e.info->AssignmentExpr_0;
            let rhs = e.info->AssignmentExpr_1;
            &&& lower_variable(st, *var) matches Ok((s1, lt, _))
            &&& lower_expr(s1, *rhs) matches Ok((_, rt, _))
            &&& lt == rt
            &&& lower_assignment(st, e) matches Ok((_, ty, _))
            &&& ty == lt
        }),
{
}

/// A return with a value is lowered only where the value has the type that
/// the function being lowered returns.
pub proof fn lemma_returned_type_agrees(st: BuilderState, s: Ast)
    requires
        s.info matches ASTInfo::ReturnStmt(Some(_)),
        lower_stmt(st, s) is Ok,
    ensures
        ({
            let e = s.info->ReturnStmt_0->Some_0;
            &&& lower_expr(st, *e) matches Ok((s1, ty, _))
            &&& s1.current_function matches Some((ret, _))
            &&& ret == ty
        }),
{
}

/// After the declaration of an array the name stands for a pointer: the
/// variable that the name resolves to has the type `IntPtr`.
pub proof fn lemma_array_decays(st: BuilderState, d: Ast)
    requires
        d.info matches ASTInfo::VariableDec(Type::IntArray(_), _),
        lower_declaration(st, d) is Ok,
    ensures
        ({
            let name = d.info->VariableDec_1;
            &&& lower_declaration(st, d) matches Ok(s1)
            &&& s1.symbols.lookup_variable(name@) matches Some(b)
            &&& b.ty == Type::IntPtr
            &&& b.name@ == name@
        }),
{
    let name = d.info->VariableDec_1;
    let s1 = lower_declaration(st, d)->Ok_0;
    assert(s1.symbols.locals.last().name@ == name@);
    assert(find_last(s1.symbols.locals, name@, 0) == Some(s1.symbols.locals.len() - 1));
}

} // verus!
