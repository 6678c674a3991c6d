//! The listing that lowering produces: the steps handed to the backend, in
//! the order in which they are taken.
//!
//! A listing is flat. A step either declares something in the module, makes
//! or enters a basic block, or appends one instruction to the block entered
//! last. Registers, blocks, globals and functions are numbered in the order
//! in which their steps appear.
use vstd::prelude::*;
use crate::ast::Type;

verus! {

/// The type of a value in the listing.
#[derive(Debug, PartialEq, Eq, Clone, Copy, Structural)]
pub enum IrType {
    /// A truth value, `i1`.
    I1,
    /// A 32-bit integer, `i32`.
    I32,
    /// An array of integers, `[n x i32]`.
    Array(usize),
    /// A pointer to an integer, `i32*`.
    Ptr,
    /// A pointer to a pointer to an integer, `i32**`.
    PtrPtr,
    /// A pointer to an array of integers, `[n x i32]*`.
    PtrArray(usize),
}

/// Where a value comes from.
#[derive(Debug, PartialEq, Eq, Clone, Copy, Structural)]
pub enum ValueKind {
    /// An integer constant.
    Const(i32),
    /// The zero of the value's type: `0`, or the null pointer.
    Zero,
    /// The result of the instruction that defines this register.
    Reg(usize),
    /// The address of a global variable.
    Global(usize),
    /// An incoming argument of the function being defined.
    Param(usize),
}

/// A value: where it comes from, and its type.
#[derive(Debug, PartialEq, Eq, Clone, Copy, Structural)]
pub struct Value {
    pub kind: ValueKind,
    pub ty: IrType,
}

/// An arithmetic or bitwise instruction on two integers.
#[derive(Debug, PartialEq, Eq, Clone, Copy, Structural)]
pub enum Arith {
    Add,
    Sub,
    Mul,
    /// Signed division.
    SDiv,
    /// Signed remainder.
    SRem,
    And,
    Or,
    Xor,
    Shl,
    /// Arithmetic shift right: the sign is kept.
    AShr,
}

/// A signed comparison of two integers.
#[derive(Debug, PartialEq, Eq, Clone, Copy, Structural)]
pub enum Pred {
    Sge,
    Sle,
    Sgt,
    Slt,
    Eq,
    Ne,
}

/// The two routines of the runtime that every module declares.
#[derive(Debug, PartialEq, Eq, Clone, Copy, Structural)]
pub enum Runtime {
    /// `int input(void)`
    Input,
    /// `void output(int)`
    Output,
}

/// A function that can be called.
#[derive(Debug, PartialEq, Eq, Clone, Copy, Structural)]
pub enum Callee {
    Runtime(Runtime),
    /// A function of the program, by its number.
    Defined(usize),
}

/// Why a basic block was made; this decides its label and where it is put.
#[derive(Debug, PartialEq, Eq, Clone, Copy, Structural)]
pub enum BlockKind {
    /// The first block of a function, appended to it.
    Entry,
    /// The block taken when a selection's condition holds; after its anchor.
    Then,
    /// The block where a selection ends; after its anchor.
    IfDest,
    /// The block taken when a selection's condition fails; before its anchor.
    Else,
    /// The block that tests a loop's condition; after its anchor.
    LoopHead,
    /// The block of a loop's body; after its anchor.
    LoopBody,
    /// The block where a loop ends; after its anchor.
    LoopDest,
}

/// One step of a listing.
#[derive(Debug, PartialEq, Eq)]
#[allow(inconsistent_fields)]
pub enum Inst {
    /// Declares an external routine of the runtime.
    Extern { routine: Runtime },
    /// Adds a global variable, initialised with zero.
    Global { name: String, ty: Type },
    /// Names one parameter of the function that the next `Function` adds.
    Param { ty: Type, name: String },
    /// Adds a function whose parameters are the `params` steps before it.
    Function { name: String, ret: Type, params: usize },
    /// Makes a basic block, placed relative to the block `anchor`; an entry
    /// block has no anchor and is appended to the function added last.
    Block { kind: BlockKind, anchor: usize },
    /// Moves to the end of a block: later instructions go there.
    Enter { block: usize },
    /// Reserves a stack slot for a value of type `ty`.
    Alloca { dst: usize, ty: IrType, name: Option<String> },
    /// Writes `value` to the address `ptr`.
    Store { ptr: Value, value: Value },
    /// Reads the value at the address `ptr`.
    Load { dst: usize, ptr: Value },
    /// The address of the first element of the array at `array`.
    ArrayStart { dst: usize, array: Value, name: String },
    /// The address of the element `index` places after `base`.
    ElementPtr { dst: usize, base: Value, index: Value },
    /// The pointer `value` as an integer.
    PtrToInt { dst: usize, value: Value },
    /// Arithmetic on two integers.
    Binary { dst: usize, op: Arith, lhs: Value, rhs: Value },
    /// A comparison of two integers; the result is a truth value.
    Compare { dst: usize, pred: Pred, lhs: Value, rhs: Value },
    /// The truth value `value` as the integer 0 or 1.
    Widen { dst: usize, value: Value },
    /// The lowest bit of the integer `value` as a truth value.
    Truncate { dst: usize, value: Value },
    /// Passes one argument to the `Call` that follows.
    Arg { value: Value },
    /// Calls a function with the `args` arguments passed before it.
    Call { dst: Option<usize>, callee: Callee, args: usize, name: String },
    /// Returns from the function.
    Return { value: Option<Value> },
    /// Jumps to a block.
    Branch { target: usize },
    /// Jumps to `then_block` where `cond` holds and to `else_block` where not.
    CondBranch { cond: Value, then_block: usize, else_block: usize },
}

/// The type of the values that a variable of source type `ty` holds.
pub open spec fn value_type(ty: Type) -> IrType {
    match ty {
        Type::Int => IrType::I32,
        Type::Void => IrType::I32,
        Type::IntArray(n) => IrType::Array(n),
        Type::IntPtr => IrType::Ptr,
    }
}

/// The type of the address of a value of type `ty`.
pub open spec fn pointer_to(ty: IrType) -> IrType {
    match ty {
        IrType::I32 => IrType::Ptr,
        IrType::Ptr => IrType::PtrPtr,
        IrType::Array(n) => IrType::PtrArray(n),
        _ => IrType::Ptr,
    }
}

/// The type of what lies at an address of type `ty`.
pub open spec fn pointee(ty: IrType) -> IrType {
    match ty {
        IrType::Ptr => IrType::I32,
        IrType::PtrPtr => IrType::Ptr,
        IrType::PtrArray(n) => IrType::Array(n),
        _ => IrType::I32,
    }
}

/// The type of the storage slot of a variable of source type `ty`.
pub open spec fn slot_type(ty: Type) -> IrType {
    pointer_to(value_type(ty))
}

/// Whether a step ends a basic block.
pub open spec fn is_terminator(inst: Inst) -> bool {
    inst is Return || inst is Branch || inst is CondBranch
}

/// Whether a step is an instruction, which goes into the block entered last.
pub open spec fn is_instruction(inst: Inst) -> bool {
    !(inst is Extern || inst is Global || inst is Param || inst is Function || inst is Block
        || inst is Enter || inst is Arg)
}

/// An integer constant.
pub open spec fn const_value(v: i32) -> Value {
    Value { kind: ValueKind::Const(v), ty: IrType::I32 }
}

/// A register of the given type.
pub open spec fn reg_value(r: nat, ty: IrType) -> Value {
    Value { kind: ValueKind::Reg(r as usize), ty }
}

impl Type {
    /// The backend type of the values of this type, as slots and values
    /// have it: `i32` for an integer, `[n x i32]` for an array, `i32*` for a
    /// pointer. `Void` has none.
    pub fn to_llvm_basic_type(self) -> (r: IrType)
        requires
            !(self is Void),
        ensures
            r == value_type(self),
    {
        match self {
            Type::IntArray(n) => IrType::Array(n),
            Type::IntPtr => IrType::Ptr,
            _ => IrType::I32,
        }
    }

    /// The backend type of a parameter of this type in a function's
    /// signature: the same as that of its values. `Void` has none.
    pub fn to_llvm_basic_metadata_type(self) -> (r: IrType)
        requires
            !(self is Void),
        ensures
            r == value_type(self),
    {
        self.to_llvm_basic_type()
    }
}

impl IrType {
    /// The type of the address of a value of this type.
    pub fn pointer(self) -> (r: IrType)
        ensures
            r == pointer_to(self),
    {
        match self {
            IrType::I32 => IrType::Ptr,
            IrType::Ptr => IrType::PtrPtr,
            IrType::Array(n) => IrType::PtrArray(n),
            _ => IrType::Ptr,
        }
    }

    /// The type of what lies at an address of this type.
    pub fn target(self) -> (r: IrType)
        ensures
            r == pointee(self),
    {
        match self {
            IrType::Ptr => IrType::I32,
            IrType::PtrPtr => IrType::Ptr,
            IrType::PtrArray(n) => IrType::Array(n),
            _ => IrType::I32,
        }
    }
}

/// Where the blocks of a listing stand after some of its steps.
#[derive(Debug, PartialEq, Eq, Clone, Copy, Structural)]
pub struct Flow {
    /// The block entered last ends in a terminator, or none was entered yet.
    pub closed: bool,
    /// Some step so far broke the discipline: an instruction went into a
    /// closed block, or a block was left open.
    pub broken: bool,
}

/// The flow after one more step.
pub open spec fn flow_step(f: Flow, inst: Inst) -> Flow {
    if inst is Enter || inst is Function {
        Flow { closed: inst is Function, broken: f.broken || !f.closed }
    } else if is_instruction(inst) {
        Flow { closed: is_terminator(inst), broken: f.broken || f.closed }
    } else {
        f
    }
}

/// The flow after all steps of `code`.
pub open spec fn flow_of(code: Seq<Inst>) -> Flow
    decreases code.len(),
{
    if code.len() == 0 {
        Flow { closed: true, broken: false }
    } else {
        flow_step(flow_of(code.drop_last()), code.last())
    }
}

/// How often the steps of `code` enter the block `b`.
pub open spec fn enters(code: Seq<Inst>, b: nat) -> nat
    decreases code.len(),
{
    if code.len() == 0 {
        0
    } else {
        enters(code.drop_last(), b) + (if code.last() matches Inst::Enter { block } && block
            == b {
            1nat
        } else {
            0nat
        })
    }
}

/// How many blocks the steps of `code` make.
pub open spec fn blocks_made(code: Seq<Inst>) -> nat
    decreases code.len(),
{
    if code.len() == 0 {
        0
    } else {
        blocks_made(code.drop_last()) + (if code.last() is Block {
            1nat
        } else {
            0nat
        })
    }
}

/// Every block that the listing makes is entered exactly once, and no
/// other block is entered.
pub open spec fn entered_once(code: Seq<Inst>) -> bool {
    forall|b: nat| #[trigger]
        enters(code, b) == (if b < blocks_made(code) {
            1nat
        } else {
            0nat
        })
}

/// The instructions of the listing are in order: none follows a terminator
/// in the block that it goes to, and no block is left open when another is
/// entered, a function is added, or the listing ends.
pub open spec fn blocks_closed(code: Seq<Inst>) -> bool {
    flow_of(code) == (Flow { closed: true, broken: false })
}

/// Every basic block of the listing holds exactly one terminator, as its
/// last instruction: each block that is made is entered exactly once, and
/// what is appended to it while it is entered ends in a terminator and
/// holds no other.
pub open spec fn terminators_in_place(code: Seq<Inst>) -> bool {
    blocks_closed(code) && entered_once(code)
}

/// One more step enters the block that it names and no other, and makes a
/// block where it is a `Block`.
pub proof fn lemma_push_enters(code: Seq<Inst>, inst: Inst)
    ensures
        forall|b: nat| #[trigger]
            enters(code.push(inst), b) == enters(code, b) + (if inst matches Inst::Enter {
                block,
            } && block == b {
                1nat
            } else {
                0nat
            }),
        blocks_made(code.push(inst)) == blocks_made(code) + (if inst is Block {
            1nat
        } else {
            0nat
        }),
{
    assert(code.push(inst).drop_last() =~= code);
}

/// The return type of the function that the step at `at` belongs to.
pub open spec fn enclosing_return(code: Seq<Inst>, at: int) -> Option<Type>
    decreases at,
{
    if at <= 0 || at > code.len() {
        None
    } else {
        match code[at - 1] {
            Inst::Function { ret, .. } => Some(ret),
            _ => enclosing_return(code, at - 1),
        }
    }
}

/// Whether the operands of the step at `at` have the types that it needs.
pub open spec fn typed_at(code: Seq<Inst>, at: int) -> bool {
    match code[at] {
        Inst::Store { ptr, value } => ptr.ty == pointer_to(value.ty),
        Inst::Load { ptr, .. } => ptr.ty == IrType::Ptr || ptr.ty == IrType::PtrPtr,
        Inst::ArrayStart { array, .. } => array.ty is PtrArray,
        Inst::ElementPtr { base, index, .. } => base.ty == IrType::Ptr && index.ty == IrType::I32,
        Inst::PtrToInt { value, .. } => value.ty == IrType::Ptr,
        Inst::Binary { lhs, rhs, .. } => lhs.ty == IrType::I32 && rhs.ty == IrType::I32,
        Inst::Compare { lhs, rhs, .. } => lhs.ty == IrType::I32 && rhs.ty == IrType::I32,
        Inst::Widen { value, .. } => value.ty == IrType::I1,
        Inst::Truncate { value, .. } => value.ty == IrType::I32,
        Inst::Return { value: Some(v) } => match enclosing_return(code, at) {
            Some(ret) => ret != Type::Void && v.ty == value_type(ret),
            None => false,
        },
        Inst::CondBranch { cond, .. } => cond.ty == IrType::I1,
        _ => true,
    }
}

/// Every step of the listing has operands that carry the types that it
/// needs: a store writes a value to an address of its type, a conditional
/// branch tests a truth value, and a returned value has the function's
/// return type. The type that a value carries is judged here as it stands;
/// `well_scoped` says that it is the type of what the value names.
pub open spec fn well_typed(code: Seq<Inst>) -> bool {
    forall|at: int| 0 <= at < code.len() ==> #[trigger] typed_at(code, at)
}

/// What the steps of a listing have made.
pub struct Counts {
    /// The type of each register defined.
    pub types: Seq<IrType>,
    /// The number of basic blocks made.
    pub blocks: nat,
    /// The type of each global variable added.
    pub globals: Seq<Type>,
    /// The return type of each function added.
    pub returns: Seq<Type>,
    /// The types of the parameters announced so far.
    pub announced: Seq<Type>,
    /// The types of the parameters of the function added last.
    pub params: Seq<Type>,
}

/// Whether a step defines a register.
pub open spec fn defines(inst: Inst) -> bool {
    match inst {
        Inst::Alloca { .. } => true,
        Inst::Load { .. } => true,
        Inst::ArrayStart { .. } => true,
        Inst::ElementPtr { .. } => true,
        Inst::PtrToInt { .. } => true,
        Inst::Binary { .. } => true,
        Inst::Compare { .. } => true,
        Inst::Widen { .. } => true,
        Inst::Truncate { .. } => true,
        Inst::Call { dst, .. } => dst is Some,
        _ => false,
    }
}

/// The return type of a function that can be called.
pub open spec fn callee_return(c: Counts, callee: Callee) -> Type {
    match callee {
        Callee::Runtime(Runtime::Input) => Type::Int,
        Callee::Runtime(Runtime::Output) => Type::Void,
        Callee::Defined(f) => if f < c.returns.len() {
            c.returns[f as int]
        } else {
            Type::Void
        },
    }
}

/// The type of the register that a step defines.
pub open spec fn result_type(c: Counts, inst: Inst) -> IrType {
    match inst {
        Inst::Alloca { ty, .. } => pointer_to(ty),
        Inst::Load { ptr, .. } => pointee(ptr.ty),
        Inst::Compare { .. } => IrType::I1,
        Inst::Truncate { .. } => IrType::I1,
        Inst::ArrayStart { .. } => IrType::Ptr,
        Inst::ElementPtr { .. } => IrType::Ptr,
        Inst::Call { callee, .. } => value_type(callee_return(c, callee)),
        _ => IrType::I32,
    }
}

/// The parameters of a function that is added with `params` parameters:
/// those that were announced last.
pub open spec fn latest(announced: Seq<Type>, params: nat) -> Seq<Type> {
    if params <= announced.len() {
        announced.subrange(announced.len() - params, announced.len() as int)
    } else {
        announced
    }
}

/// What is made after one more step.
pub open spec fn count_step(c: Counts, inst: Inst) -> Counts {
    match inst {
        Inst::Global { ty, .. } => Counts { globals: c.globals.push(ty), ..c },
        Inst::Param { ty, .. } => Counts { announced: c.announced.push(ty), ..c },
        Inst::Function { ret, params, .. } => Counts {
            returns: c.returns.push(ret),
            params: latest(c.announced, params as nat),
            ..c
        },
        Inst::Block { .. } => Counts { blocks: c.blocks + 1, ..c },
        _ => if defines(inst) {
            Counts { types: c.types.push(result_type(c, inst)), ..c }
        } else {
            c
        },
    }
}

/// What all steps of `code` have made.
pub open spec fn counts_of(code: Seq<Inst>) -> Counts
    decreases code.len(),
{
    if code.len() == 0 {
        Counts {
            types: Seq::empty(),
            blocks: 0,
            globals: Seq::empty(),
            returns: Seq::empty(),
            announced: Seq::empty(),
            params: Seq::empty(),
        }
    } else {
        count_step(counts_of(code.drop_last()), code.last())
    }
}

/// Whether a value names something that has been made, and has its type:
/// the type of the register as the step that defines it gives it, the
/// type of the address of the global variable, the type of the parameter.
pub open spec fn value_made(c: Counts, v: Value) -> bool {
    match v.kind {
        ValueKind::Reg(r) => r < c.types.len() && c.types[r as int] == v.ty,
        ValueKind::Global(g) => g < c.globals.len() && v.ty == slot_type(c.globals[g as int]),
        ValueKind::Param(i) => i < c.params.len() && v.ty == value_type(c.params[i as int]),
        ValueKind::Const(_) => v.ty == IrType::I32,
        ValueKind::Zero => true,
    }
}

/// Whether a step, taken after steps that made `c`, names only what has
/// been made, with its type, and defines the register that is next.
pub open spec fn step_scoped(c: Counts, inst: Inst) -> bool {
    match inst {
        Inst::Function { params, .. } => params <= c.announced.len(),
        Inst::Block { kind, anchor } => if kind is Entry {
            c.returns.len() > 0
        } else {
            anchor < c.blocks
        },
        Inst::Enter { block } => block < c.blocks,
        Inst::Alloca { dst, .. } => dst == c.types.len(),
        Inst::Store { ptr, value } => value_made(c, ptr) && value_made(c, value),
        Inst::Load { dst, ptr } => dst == c.types.len() && value_made(c, ptr),
        Inst::ArrayStart { dst, array, .. } => dst == c.types.len() && value_made(c, array),
        Inst::ElementPtr { dst, base, index } => dst == c.types.len() && value_made(c, base)
            && value_made(c, index),
        Inst::PtrToInt { dst, value } => dst == c.types.len() && value_made(c, value),
        Inst::Binary { dst, lhs, rhs, .. } => dst == c.types.len() && value_made(c, lhs)
            && value_made(c, rhs),
        Inst::Compare { dst, lhs, rhs, .. } => dst == c.types.len() && value_made(c, lhs)
            && value_made(c, rhs),
        Inst::Widen { dst, value } => dst == c.types.len() && value_made(c, value),
        Inst::Truncate { dst, value } => dst == c.types.len() && value_made(c, value),
        Inst::Arg { value } => value_made(c, value),
        Inst::Call { dst, callee, .. } => (dst matches Some(d) ==> d == c.types.len()) && (
        callee matches Callee::Defined(f) ==> f < c.returns.len()),
        Inst::Return { value } => value matches Some(v) ==> value_made(c, v),
        Inst::Branch { target } => target < c.blocks,
        Inst::CondBranch { cond, then_block, else_block } => value_made(c, cond) && then_block
            < c.blocks && else_block < c.blocks,
        _ => true,
    }
}

/// Every step of the listing names only registers, blocks, global
/// variables, functions and parameters that earlier steps have made; the
/// registers are defined in the order of their numbers; and every value
/// carries the type of what it names: a register the type that the step
/// that defines it gives, a global variable and a parameter the type with
/// which it was declared.
pub open spec fn well_scoped(code: Seq<Inst>) -> bool {
    forall|at: int|
        0 <= at < code.len() ==> step_scoped(counts_of(code.take(at)), #[trigger] code[at])
}

/// A well-scoped listing with one more step in scope is well scoped.
pub proof fn lemma_push_scoped(code: Seq<Inst>, inst: Inst)
    requires
        well_scoped(code),
        step_scoped(counts_of(code), inst),
    ensures
        well_scoped(code.push(inst)),
        counts_of(code.push(inst)) == count_step(counts_of(code), inst),
{
    let longer = code.push(inst);
    assert(longer.drop_last() =~= code);
    assert forall|at: int| 0 <= at < longer.len() implies step_scoped(
        counts_of(longer.take(at)),
        #[trigger] longer[at],
    ) by {
        if at < code.len() {
            assert(longer.take(at) =~= code.take(at));
            assert(longer[at] == code[at]);
        } else {
            assert(longer.take(at) =~= code);
        }
    }
}

/// In a well-typed listing every conditional branch tests a truth value.
pub proof fn lemma_conditions_are_boolean(code: Seq<Inst>, at: int)
    requires
        well_typed(code),
        0 <= at < code.len(),
        code[at] is CondBranch,
    ensures
        code[at]->cond.ty == IrType::I1,
{
    assert(typed_at(code, at));
}

/// In a well-typed listing every store writes a value to an address of that
/// value's type, and every return with a value stands in a function that
/// returns a value of that type.
pub proof fn lemma_stores_and_returns_are_typed(code: Seq<Inst>, at: int)
    requires
        well_typed(code),
        0 <= at < code.len(),
    ensures
        code[at] matches Inst::Store { ptr, value } ==> ptr.ty == pointer_to(value.ty),
        code[at] matches Inst::Return { value: Some(v) } ==> (enclosing_return(code, at) matches Some(
            ret,
        ) && ret != Type::Void && v.ty == value_type(ret)),
{
    assert(typed_at(code, at));
}

} // verus!
