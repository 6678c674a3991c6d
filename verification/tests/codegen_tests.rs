use cmm::ast::{Ast, Type};
use cmm::check::{check_program, first_refused, has_dead_code};
use cmm::codegen::CodeBuilder;
use cmm::error::{Error, ErrorType};
use cmm::ir::{Arith, BlockKind, Callee, Inst, IrType, Pred, Runtime, Value, ValueKind};

fn compile(source: &str) -> Result<CodeBuilder, Error> {
    let ast = Ast::parse(source).expect("the text is a program");
    assert!(check_program(&ast), "the program can be lowered");
    CodeBuilder::new("test", &ast)
}

fn listing_of(source: &str) -> Vec<Inst> {
    let builder = compile(source).expect("the program is lowered");
    builder_listing(&builder)
}

fn builder_listing(builder: &CodeBuilder) -> Vec<Inst> {
    builder.listing().iter().map(copy_of).collect()
}

fn copy_of(inst: &Inst) -> Inst {
    match inst {
        Inst::Extern { routine } => Inst::Extern { routine: *routine },
        Inst::Global { name, ty } => Inst::Global { name: name.clone(), ty: *ty },
        Inst::Param { ty, name } => Inst::Param { ty: *ty, name: name.clone() },
        Inst::Function { name, ret, params } => {
            Inst::Function { name: name.clone(), ret: *ret, params: *params }
        }
        Inst::Block { kind, anchor } => Inst::Block { kind: *kind, anchor: *anchor },
        Inst::Enter { block } => Inst::Enter { block: *block },
        Inst::Alloca { dst, ty, name } => Inst::Alloca { dst: *dst, ty: *ty, name: name.clone() },
        Inst::Store { ptr, value } => Inst::Store { ptr: *ptr, value: *value },
        Inst::Load { dst, ptr } => Inst::Load { dst: *dst, ptr: *ptr },
        Inst::ArrayStart { dst, array, name } => {
            Inst::ArrayStart { dst: *dst, array: *array, name: name.clone() }
        }
        Inst::ElementPtr { dst, base, index } => {
            Inst::ElementPtr { dst: *dst, base: *base, index: *index }
        }
        Inst::PtrToInt { dst, value } => Inst::PtrToInt { dst: *dst, value: *value },
        Inst::Binary { dst, op, lhs, rhs } => {
            Inst::Binary { dst: *dst, op: *op, lhs: *lhs, rhs: *rhs }
        }
        Inst::Compare { dst, pred, lhs, rhs } => {
            Inst::Compare { dst: *dst, pred: *pred, lhs: *lhs, rhs: *rhs }
        }
        Inst::Widen { dst, value } => Inst::Widen { dst: *dst, value: *value },
        Inst::Truncate { dst, value } => Inst::Truncate { dst: *dst, value: *value },
        Inst::Arg { value } => Inst::Arg { value: *value },
        Inst::Call { dst, callee, args, name } => {
            Inst::Call { dst: *dst, callee: *callee, args: *args, name: name.clone() }
        }
        Inst::Return { value } => Inst::Return { value: *value },
        Inst::Branch { target } => Inst::Branch { target: *target },
        Inst::CondBranch { cond, then_block, else_block } => {
            Inst::CondBranch { cond: *cond, then_block: *then_block, else_block: *else_block }
        }
    }
}

fn failure_of(source: &str) -> Error {
    match compile(source) {
        Ok(builder) => panic!("the program was lowered: {:?}", builder.listing()),
        Err(e) => e,
    }
}

fn constant(v: i32) -> Value {
    Value { kind: ValueKind::Const(v), ty: IrType::I32 }
}

fn reg(r: usize, ty: IrType) -> Value {
    Value { kind: ValueKind::Reg(r), ty }
}

fn prelude() -> Vec<Inst> {
    vec![Inst::Extern { routine: Runtime::Input }, Inst::Extern { routine: Runtime::Output }]
}

fn main_function() -> Vec<Inst> {
    vec![
        Inst::Function { name: "main".to_string(), ret: Type::Int, params: 0 },
        Inst::Block { kind: BlockKind::Entry, anchor: 0 },
        Inst::Enter { block: 0 },
    ]
}

fn is_terminator(inst: &Inst) -> bool {
    matches!(inst, Inst::Return { .. } | Inst::Branch { .. } | Inst::CondBranch { .. })
}

fn is_instruction(inst: &Inst) -> bool {
    !matches!(
        inst,
        Inst::Extern { .. }
            | Inst::Global { .. }
            | Inst::Param { .. }
            | Inst::Function { .. }
            | Inst::Block { .. }
            | Inst::Enter { .. }
            | Inst::Arg { .. }
    )
}

/// Whether every block that is entered holds exactly one terminator, as its
/// last instruction.
fn terminators_in_place(code: &[Inst]) -> bool {
    let mut closed = true;
    for inst in code {
        match inst {
            Inst::Enter { .. } | Inst::Function { .. } => {
                if !closed {
                    return false;
                }
                closed = matches!(inst, Inst::Function { .. });
            }
            _ if is_instruction(inst) => {
                if closed {
                    return false;
                }
                closed = is_terminator(inst);
            }
            _ => {}
        }
    }
    closed
}

#[test]
fn main_that_returns_zero() {
    let mut expected = prelude();
    expected.extend(main_function());
    expected.push(Inst::Return { value: Some(constant(0)) });
    assert_eq!(listing_of("int main(void) { return 0; }"), expected);
}

#[test]
fn the_module_keeps_its_name() {
    let builder = compile("int main(void) { return 0; }").unwrap();
    assert_eq!(builder.name(), "test");
}

#[test]
fn a_global_is_stored_to_and_read() {
    let mut expected = prelude();
    expected.push(Inst::Global { name: "g".to_string(), ty: Type::Int });
    expected.extend(main_function());
    let g = Value { kind: ValueKind::Global(0), ty: IrType::Ptr };
    expected.push(Inst::Binary {
        dst: 0,
        op: Arith::Add,
        lhs: constant(40),
        rhs: constant(2),
    });
    expected.push(Inst::Store { ptr: g, value: reg(0, IrType::I32) });
    expected.push(Inst::Load { dst: 1, ptr: g });
    expected.push(Inst::Return { value: Some(reg(1, IrType::I32)) });
    assert_eq!(listing_of("int g; int main(void){ g = 40 + 2; return g; }"), expected);
}

#[test]
fn an_array_decays_to_a_pointer() {
    let code = listing_of(
        "int main(void){ int a[3]; a[0]=1; a[1]=2; a[2]=a[0]+a[1]; return a[2]; }",
    );
    let mut expected = prelude();
    expected.extend(main_function());
    let array = reg(0, IrType::PtrArray(3));
    let slot = reg(1, IrType::PtrPtr);
    expected.push(Inst::Alloca { dst: 0, ty: IrType::Array(3), name: Some("a".to_string()) });
    expected.push(Inst::Alloca { dst: 1, ty: IrType::Ptr, name: Some("a".to_string()) });
    expected.push(Inst::ArrayStart { dst: 2, array, name: "a".to_string() });
    expected.push(Inst::Store { ptr: slot, value: reg(2, IrType::Ptr) });
    // a[0] = 1
    expected.push(Inst::Load { dst: 3, ptr: slot });
    expected.push(Inst::ElementPtr { dst: 4, base: reg(3, IrType::Ptr), index: constant(0) });
    expected.push(Inst::Store { ptr: reg(4, IrType::Ptr), value: constant(1) });
    // a[1] = 2
    expected.push(Inst::Load { dst: 5, ptr: slot });
    expected.push(Inst::ElementPtr { dst: 6, base: reg(5, IrType::Ptr), index: constant(1) });
    expected.push(Inst::Store { ptr: reg(6, IrType::Ptr), value: constant(2) });
    // a[2] = a[0] + a[1]
    expected.push(Inst::Load { dst: 7, ptr: slot });
    expected.push(Inst::ElementPtr { dst: 8, base: reg(7, IrType::Ptr), index: constant(2) });
    expected.push(Inst::Load { dst: 9, ptr: slot });
    expected.push(Inst::ElementPtr { dst: 10, base: reg(9, IrType::Ptr), index: constant(0) });
    expected.push(Inst::Load { dst: 11, ptr: reg(10, IrType::Ptr) });
    expected.push(Inst::Load { dst: 12, ptr: slot });
    expected.push(Inst::ElementPtr { dst: 13, base: reg(12, IrType::Ptr), index: constant(1) });
    expected.push(Inst::Load { dst: 14, ptr: reg(13, IrType::Ptr) });
    expected.push(Inst::Binary {
        dst: 15,
        op: Arith::Add,
        lhs: reg(11, IrType::I32),
        rhs: reg(14, IrType::I32),
    });
    expected.push(Inst::Store { ptr: reg(8, IrType::Ptr), value: reg(15, IrType::I32) });
    // return a[2]
    expected.push(Inst::Load { dst: 16, ptr: slot });
    expected.push(Inst::ElementPtr { dst: 17, base: reg(16, IrType::Ptr), index: constant(2) });
    expected.push(Inst::Load { dst: 18, ptr: reg(17, IrType::Ptr) });
    expected.push(Inst::Return { value: Some(reg(18, IrType::I32)) });
    assert_eq!(code, expected);
}

#[test]
fn a_function_calls_itself() {
    let code = listing_of(
        "int f(int n){ if (n<2) return n; return f(n-1)+f(n-2); }\nint main(void){ return f(10); }",
    );
    let mut expected = prelude();
    let n = reg(0, IrType::Ptr);
    expected.push(Inst::Param { ty: Type::Int, name: "n".to_string() });
    expected.push(Inst::Function { name: "f".to_string(), ret: Type::Int, params: 1 });
    expected.push(Inst::Block { kind: BlockKind::Entry, anchor: 0 });
    expected.push(Inst::Enter { block: 0 });
    expected.push(Inst::Alloca { dst: 0, ty: IrType::I32, name: None });
    expected.push(Inst::Store {
        ptr: n,
        value: Value { kind: ValueKind::Param(0), ty: IrType::I32 },
    });
    // if (n < 2)
    expected.push(Inst::Load { dst: 1, ptr: n });
    expected.push(Inst::Compare {
        dst: 2,
        pred: Pred::Slt,
        lhs: reg(1, IrType::I32),
        rhs: constant(2),
    });
    expected.push(Inst::Widen { dst: 3, value: reg(2, IrType::I1) });
    expected.push(Inst::Truncate { dst: 4, value: reg(3, IrType::I32) });
    expected.push(Inst::Block { kind: BlockKind::Then, anchor: 0 });
    expected.push(Inst::Block { kind: BlockKind::IfDest, anchor: 1 });
    expected.push(Inst::CondBranch { cond: reg(4, IrType::I1), then_block: 1, else_block: 2 });
    expected.push(Inst::Enter { block: 1 });
    // return n
    expected.push(Inst::Load { dst: 5, ptr: n });
    expected.push(Inst::Return { value: Some(reg(5, IrType::I32)) });
    expected.push(Inst::Enter { block: 2 });
    // f(n - 1)
    expected.push(Inst::Load { dst: 6, ptr: n });
    expected.push(Inst::Binary {
        dst: 7,
        op: Arith::Sub,
        lhs: reg(6, IrType::I32),
        rhs: constant(1),
    });
    expected.push(Inst::Arg { value: reg(7, IrType::I32) });
    expected.push(Inst::Call {
        dst: Some(8),
        callee: Callee::Defined(0),
        args: 1,
        name: "f".to_string(),
    });
    // f(n - 2)
    expected.push(Inst::Load { dst: 9, ptr: n });
    expected.push(Inst::Binary {
        dst: 10,
        op: Arith::Sub,
        lhs: reg(9, IrType::I32),
        rhs: constant(2),
    });
    expected.push(Inst::Arg { value: reg(10, IrType::I32) });
    expected.push(Inst::Call {
        dst: Some(11),
        callee: Callee::Defined(0),
        args: 1,
        name: "f".to_string(),
    });
    expected.push(Inst::Binary {
        dst: 12,
        op: Arith::Add,
        lhs: reg(8, IrType::I32),
        rhs: reg(11, IrType::I32),
    });
    expected.push(Inst::Return { value: Some(reg(12, IrType::I32)) });
    // main
    expected.push(Inst::Function { name: "main".to_string(), ret: Type::Int, params: 0 });
    expected.push(Inst::Block { kind: BlockKind::Entry, anchor: 0 });
    expected.push(Inst::Enter { block: 3 });
    expected.push(Inst::Arg { value: constant(10) });
    expected.push(Inst::Call {
        dst: Some(13),
        callee: Callee::Defined(0),
        args: 1,
        name: "f".to_string(),
    });
    expected.push(Inst::Return { value: Some(reg(13, IrType::I32)) });
    assert_eq!(code, expected);
    assert!(terminators_in_place(&code));
}

#[test]
fn an_unbound_name_is_no_variable() {
    let e = failure_of("int main(void){ int x; x = y; return 0; }");
    assert_eq!(e, Error::new((1, 28), ErrorType::VariableNotDefined));
    assert_eq!(e.to_string(), "1:28: Variable has not been defined");
}

#[test]
fn a_procedure_has_no_value() {
    let e = failure_of("void p(void){} int main(void){ int x; x = p(); return 0; }");
    assert_eq!(e, Error::new((1, 43), ErrorType::ExpressionVoidType));
    assert_eq!(e.to_string(), "1:43: Expression has void type");
}

#[test]
fn a_subscript_is_an_integer() {
    let e = failure_of("int main(void){ int a[2]; a[a] = 0; return 0; }");
    assert_eq!(e, Error::new((1, 29), ErrorType::IndexNotInt));
    assert_eq!(e.to_string(), "1:29: Index of array should be integer");
}

#[test]
fn a_procedure_can_be_called_as_a_statement() {
    let code = listing_of("void p(void){} int main(void){ p(); output(input()); return 0; }");
    let mut expected = prelude();
    expected.push(Inst::Function { name: "p".to_string(), ret: Type::Void, params: 0 });
    expected.push(Inst::Block { kind: BlockKind::Entry, anchor: 0 });
    expected.push(Inst::Enter { block: 0 });
    expected.push(Inst::Return { value: None });
    expected.push(Inst::Function { name: "main".to_string(), ret: Type::Int, params: 0 });
    expected.push(Inst::Block { kind: BlockKind::Entry, anchor: 0 });
    expected.push(Inst::Enter { block: 1 });
    expected.push(Inst::Call {
        dst: None,
        callee: Callee::Defined(0),
        args: 0,
        name: "p".to_string(),
    });
    expected.push(Inst::Call {
        dst: Some(0),
        callee: Callee::Runtime(Runtime::Input),
        args: 0,
        name: "input".to_string(),
    });
    expected.push(Inst::Arg { value: reg(0, IrType::I32) });
    expected.push(Inst::Call {
        dst: None,
        callee: Callee::Runtime(Runtime::Output),
        args: 1,
        name: "output".to_string(),
    });
    expected.push(Inst::Return { value: Some(constant(0)) });
    assert_eq!(code, expected);
}

#[test]
fn names_are_declared_once_in_a_scope() {
    assert_eq!(failure_of("int x; int x;"), Error::new((1, 8), ErrorType::VariableRedefinition));
    assert_eq!(
        failure_of("int f(void){} int f(void){}"),
        Error::new((1, 15), ErrorType::FunctionRedefinition)
    );
    assert_eq!(
        failure_of("int f; int f(void){}"),
        Error::new((1, 8), ErrorType::FunctionRedefinition)
    );
    assert_eq!(
        failure_of("int f(void){} int f;"),
        Error::new((1, 15), ErrorType::VariableRedefinition)
    );
    assert_eq!(
        failure_of("int main(void){ int x;\n int x; }"),
        Error::new((2, 2), ErrorType::VariableRedefinition)
    );
    assert_eq!(
        failure_of("int main(void){ int a[2]; int a; }"),
        Error::new((1, 27), ErrorType::VariableRedefinition)
    );
}

#[test]
fn the_runtime_takes_two_names() {
    assert_eq!(failure_of("int input;"), Error::new((1, 1), ErrorType::VariableRedefinition));
    assert_eq!(
        failure_of("void output(int x){}"),
        Error::new((1, 1), ErrorType::FunctionRedefinition)
    );
}

#[test]
fn an_inner_scope_shadows_and_ends() {
    let code = listing_of(
        "int x; int main(void){ int x; x = 1; { int x; x = 2; } x = 3; return x; }",
    );
    let mut expected = prelude();
    expected.push(Inst::Global { name: "x".to_string(), ty: Type::Int });
    expected.extend(main_function());
    expected.push(Inst::Alloca { dst: 0, ty: IrType::I32, name: Some("x".to_string()) });
    expected.push(Inst::Store { ptr: reg(0, IrType::Ptr), value: constant(1) });
    expected.push(Inst::Alloca { dst: 1, ty: IrType::I32, name: Some("x".to_string()) });
    expected.push(Inst::Store { ptr: reg(1, IrType::Ptr), value: constant(2) });
    expected.push(Inst::Store { ptr: reg(0, IrType::Ptr), value: constant(3) });
    expected.push(Inst::Load { dst: 2, ptr: reg(0, IrType::Ptr) });
    expected.push(Inst::Return { value: Some(reg(2, IrType::I32)) });
    assert_eq!(code, expected);
}

#[test]
fn a_name_ends_with_its_block() {
    assert_eq!(
        failure_of("int main(void){ { int y; y = 1; } y = 2; return 0; }"),
        Error::new((1, 35), ErrorType::VariableNotDefined)
    );
    assert_eq!(
        failure_of("void f(int n){} int main(void){ return n; }"),
        Error::new((1, 40), ErrorType::VariableNotDefined)
    );
}

#[test]
fn a_local_name_does_not_hide_a_function_from_a_call() {
    assert!(compile("int f(void){ return 1; } int main(void){ int f; f = f(); return f; }").is_ok());
    assert_eq!(
        failure_of("int f(void){ return 1; } int main(void){ return f; }"),
        Error::new((1, 49), ErrorType::VariableNotDefined)
    );
}

#[test]
fn a_later_function_is_not_in_sight() {
    assert_eq!(
        failure_of("int main(void){ return later(); } int later(void){ return 1; }"),
        Error::new((1, 24), ErrorType::FunctionNotDefined)
    );
}

#[test]
fn the_callee_is_looked_up_before_the_arguments_are_lowered() {
    assert_eq!(
        failure_of("int main(void){ return nowhere(missing); }"),
        Error::new((1, 24), ErrorType::FunctionNotDefined)
    );
    assert_eq!(
        failure_of("int main(void){ return input(missing); }"),
        Error::new((1, 30), ErrorType::VariableNotDefined)
    );
}

#[test]
fn both_sides_of_an_assignment_have_one_type() {
    assert_eq!(
        failure_of("int main(void){ int a[2]; int x; x = a; return 0; }"),
        Error::new((1, 34), ErrorType::MismatchedType)
    );
    assert_eq!(
        failure_of("int main(void){ int a[2]; a = 1; return 0; }"),
        Error::new((1, 27), ErrorType::MismatchedType)
    );
    assert!(compile("void f(int *p, int *q){ p = q; p[0] = q[1]; }").is_ok());
}

#[test]
fn a_returned_value_has_the_type_of_the_function() {
    assert_eq!(
        failure_of("void f(void){ return 1; }"),
        Error::new((1, 15), ErrorType::MismatchedTypeFunction)
    );
    assert_eq!(
        failure_of("int f(int *p){\n  return p;\n}"),
        Error::new((2, 3), ErrorType::MismatchedTypeFunction)
    );
    assert!(compile("int f(int *p){ return p[0]; }").is_ok());
}

#[test]
fn a_condition_is_an_integer() {
    assert_eq!(
        failure_of("int main(void){ int a[2]; if (a) return 1; return 0; }"),
        Error::new((1, 31), ErrorType::MismatchedType)
    );
    assert_eq!(
        failure_of("int main(void){ int a[2]; while (a) a[0] = 1; return 0; }"),
        Error::new((1, 34), ErrorType::MismatchedType)
    );
}

#[test]
fn a_pointer_operand_is_cast_to_an_integer() {
    let code = listing_of("int f(int *p){ return p + 1; }");
    let mut expected = prelude();
    expected.push(Inst::Param { ty: Type::IntPtr, name: "p".to_string() });
    expected.push(Inst::Function { name: "f".to_string(), ret: Type::Int, params: 1 });
    expected.push(Inst::Block { kind: BlockKind::Entry, anchor: 0 });
    expected.push(Inst::Enter { block: 0 });
    expected.push(Inst::Alloca { dst: 0, ty: IrType::Ptr, name: None });
    expected.push(Inst::Store {
        ptr: reg(0, IrType::PtrPtr),
        value: Value { kind: ValueKind::Param(0), ty: IrType::Ptr },
    });
    expected.push(Inst::Load { dst: 1, ptr: reg(0, IrType::PtrPtr) });
    expected.push(Inst::PtrToInt { dst: 2, value: reg(1, IrType::Ptr) });
    expected.push(Inst::Binary {
        dst: 3,
        op: Arith::Add,
        lhs: reg(2, IrType::I32),
        rhs: constant(1),
    });
    expected.push(Inst::Return { value: Some(reg(3, IrType::I32)) });
    assert_eq!(code, expected);
}

fn body_of_main(source: &str) -> Vec<Inst> {
    let code = listing_of(source);
    code.into_iter().skip(5).collect()
}

#[test]
fn every_arithmetic_operator_is_one_instruction() {
    let cases = [
        ("+", Arith::Add),
        ("-", Arith::Sub),
        ("*", Arith::Mul),
        ("/", Arith::SDiv),
        ("%", Arith::SRem),
        ("&", Arith::And),
        ("|", Arith::Or),
        ("^", Arith::Xor),
        ("<<", Arith::Shl),
        (">>", Arith::AShr),
    ];
    for (text, op) in cases {
        let source = format!("int main(void){{ return 6 {} 3; }}", text);
        assert_eq!(
            body_of_main(&source),
            vec![
                Inst::Binary { dst: 0, op, lhs: constant(6), rhs: constant(3) },
                Inst::Return { value: Some(reg(0, IrType::I32)) },
            ]
        );
    }
}

#[test]
fn every_comparison_is_signed_and_widened() {
    let cases = [
        (">=", Pred::Sge),
        ("<=", Pred::Sle),
        (">", Pred::Sgt),
        ("<", Pred::Slt),
        ("==", Pred::Eq),
        ("!=", Pred::Ne),
    ];
    for (text, pred) in cases {
        let source = format!("int main(void){{ return 6 {} 3; }}", text);
        assert_eq!(
            body_of_main(&source),
            vec![
                Inst::Compare { dst: 0, pred, lhs: constant(6), rhs: constant(3) },
                Inst::Widen { dst: 1, value: reg(0, IrType::I1) },
                Inst::Return { value: Some(reg(1, IrType::I32)) },
            ]
        );
    }
}

#[test]
fn logical_operators_evaluate_both_sides() {
    for (text, op) in [("&&", Arith::And), ("||", Arith::Or)] {
        let source = format!("int main(void){{ return input() {} input(); }}", text);
        assert_eq!(
            body_of_main(&source),
            vec![
                Inst::Call {
                    dst: Some(0),
                    callee: Callee::Runtime(Runtime::Input),
                    args: 0,
                    name: "input".to_string(),
                },
                Inst::Call {
                    dst: Some(1),
                    callee: Callee::Runtime(Runtime::Input),
                    args: 0,
                    name: "input".to_string(),
                },
                Inst::Binary {
                    dst: 2,
                    op,
                    lhs: reg(0, IrType::I32),
                    rhs: reg(1, IrType::I32),
                },
                Inst::Compare {
                    dst: 3,
                    pred: Pred::Ne,
                    lhs: reg(2, IrType::I32),
                    rhs: constant(0),
                },
                Inst::Widen { dst: 4, value: reg(3, IrType::I1) },
                Inst::Return { value: Some(reg(4, IrType::I32)) },
            ]
        );
    }
}

#[test]
fn a_selection_with_both_branches() {
    let body = body_of_main("int main(void){ if (1) return 1; else output(2); return 3; }");
    assert_eq!(
        body,
        vec![
            Inst::Truncate { dst: 0, value: constant(1) },
            Inst::Block { kind: BlockKind::Then, anchor: 0 },
            Inst::Block { kind: BlockKind::IfDest, anchor: 1 },
            Inst::Block { kind: BlockKind::Else, anchor: 2 },
            Inst::CondBranch { cond: reg(0, IrType::I1), then_block: 1, else_block: 3 },
            Inst::Enter { block: 1 },
            Inst::Return { value: Some(constant(1)) },
            Inst::Enter { block: 3 },
            Inst::Arg { value: constant(2) },
            Inst::Call {
                dst: None,
                callee: Callee::Runtime(Runtime::Output),
                args: 1,
                name: "output".to_string(),
            },
            Inst::Branch { target: 2 },
            Inst::Enter { block: 2 },
            Inst::Return { value: Some(constant(3)) },
        ]
    );
}

#[test]
fn a_loop_jumps_back_to_its_test() {
    let body = body_of_main("int main(void){ int i; while (i) i = i - 1; return 0; }");
    let i = reg(0, IrType::Ptr);
    assert_eq!(
        body,
        vec![
            Inst::Alloca { dst: 0, ty: IrType::I32, name: Some("i".to_string()) },
            Inst::Block { kind: BlockKind::LoopHead, anchor: 0 },
            Inst::Branch { target: 1 },
            Inst::Block { kind: BlockKind::LoopBody, anchor: 1 },
            Inst::Block { kind: BlockKind::LoopDest, anchor: 2 },
            Inst::Enter { block: 1 },
            Inst::Load { dst: 1, ptr: i },
            Inst::Truncate { dst: 2, value: reg(1, IrType::I32) },
            Inst::CondBranch { cond: reg(2, IrType::I1), then_block: 2, else_block: 3 },
            Inst::Enter { block: 2 },
            Inst::Load { dst: 3, ptr: i },
            Inst::Binary { dst: 4, op: Arith::Sub, lhs: reg(3, IrType::I32), rhs: constant(1) },
            Inst::Store { ptr: i, value: reg(4, IrType::I32) },
            Inst::Branch { target: 1 },
            Inst::Enter { block: 3 },
            Inst::Return { value: Some(constant(0)) },
        ]
    );
}

#[test]
fn a_loop_whose_body_returns_does_not_jump_back() {
    let body = body_of_main("int main(void){ while (1) return 1; return 0; }");
    assert_eq!(
        body,
        vec![
            Inst::Block { kind: BlockKind::LoopHead, anchor: 0 },
            Inst::Branch { target: 1 },
            Inst::Block { kind: BlockKind::LoopBody, anchor: 1 },
            Inst::Block { kind: BlockKind::LoopDest, anchor: 2 },
            Inst::Enter { block: 1 },
            Inst::Truncate { dst: 0, value: constant(1) },
            Inst::CondBranch { cond: reg(0, IrType::I1), then_block: 2, else_block: 3 },
            Inst::Enter { block: 2 },
            Inst::Return { value: Some(constant(1)) },
            Inst::Enter { block: 3 },
            Inst::Return { value: Some(constant(0)) },
        ]
    );
}

#[test]
fn a_function_that_ends_open_returns() {
    assert_eq!(
        listing_of("void f(void){}").last(),
        Some(&Inst::Return { value: None })
    );
    assert_eq!(
        listing_of("int f(void){}").last(),
        Some(&Inst::Return { value: Some(Value { kind: ValueKind::Zero, ty: IrType::I32 }) })
    );
    assert_eq!(
        listing_of("int f(void){ if (1) return 1; }").last(),
        Some(&Inst::Return { value: Some(Value { kind: ValueKind::Zero, ty: IrType::I32 }) })
    );
    assert_eq!(
        listing_of("int f(void){ return; }").last(),
        Some(&Inst::Return { value: None })
    );
}

#[test]
fn parameters_have_different_names() {
    assert_eq!(
        failure_of("int f(int a, int *a){ return a[0]; }"),
        Error::new((1, 1), ErrorType::VariableRedefinition)
    );
    assert_eq!(
        failure_of("int g;\n  void f(int a, int b, int a){}"),
        Error::new((2, 3), ErrorType::VariableRedefinition)
    );
    assert!(compile("int f(int a, int b){ { int a; a = b; } return a; }").is_ok());
}

#[test]
fn a_subscript_on_an_integer_is_passed_over() {
    let body = body_of_main("int main(void){ int x; return x[missing]; }");
    assert_eq!(
        body,
        vec![
            Inst::Alloca { dst: 0, ty: IrType::I32, name: Some("x".to_string()) },
            Inst::Load { dst: 1, ptr: reg(0, IrType::Ptr) },
            Inst::Return { value: Some(reg(1, IrType::I32)) },
        ]
    );
}

const SAMPLE: &str = "int g;\nint gcd(int a, int b){ while (b != 0) { int t; t = b; b = a % b; a = t; } return a; }\nvoid fill(int *p, int n){ int i; i = 0; while (i < n) { p[i] = i * i; i = i + 1; } }\nint main(void){ int a[8]; fill(a, 8); if (a[3] > 4 && g == 0) { output(gcd(a[6], a[4])); } else output(0); return 0; }\n";

#[test]
fn every_block_has_one_terminator() {
    let code = listing_of(SAMPLE);
    assert!(terminators_in_place(&code));
    let mut entered_blocks: Vec<usize> = code
        .iter()
        .filter_map(|i| match i {
            Inst::Enter { block } => Some(*block),
            _ => None,
        })
        .collect();
    entered_blocks.sort();
    let entered = entered_blocks.len();
    let made = code.iter().filter(|i| matches!(i, Inst::Block { .. })).count();
    assert_eq!(entered_blocks, (0..made).collect::<Vec<usize>>());
    let terminators = code.iter().filter(|i| is_terminator(i)).count();
    assert_eq!(entered, made);
    assert_eq!(terminators, made);
}

#[test]
fn dead_code_follows_a_terminator() {
    let source = "int main(void){ return 0; output(1); }";
    assert!(has_dead_code(&Ast::parse(source).unwrap()));
    assert!(!terminators_in_place(&listing_of(source)));
}

#[test]
fn a_program_without_dead_code_has_its_terminators_in_place() {
    for source in [
        SAMPLE,
        "int main(void){ return 0; }",
        "int main(void){ return 0; 1; x; }",
        "void f(void){ if (1) return; else return; }",
        "void f(void){ while (1) { return; } }",
        "int f(int n){ if (n) { return 1; } return 2; }",
    ] {
        let ast = Ast::parse(source).unwrap();
        assert!(!has_dead_code(&ast), "{}", source);
        let code = match CodeBuilder::new("test", &ast) {
            Ok(builder) => builder_listing(&builder),
            Err(_) => continue,
        };
        assert!(terminators_in_place(&code), "{}", source);
    }
    for source in [
        "void f(void){ return; return; }",
        "void f(void){ { return; } output(1); }",
        "void f(void){ return; if (1) return; }",
        "void f(void){ return; { int x; } }",
        "void f(void){ if (1) { return; output(2); } }",
    ] {
        let ast = Ast::parse(source).unwrap();
        assert!(has_dead_code(&ast), "{}", source);
        assert!(!terminators_in_place(&listing_of(source)), "{}", source);
    }
}

#[test]
fn every_condition_is_a_truth_value() {
    let code = listing_of(SAMPLE);
    let mut seen = 0;
    for inst in &code {
        if let Inst::CondBranch { cond, .. } = inst {
            assert_eq!(cond.ty, IrType::I1);
            seen += 1;
        }
    }
    assert_eq!(seen, 3);
}

#[test]
fn every_store_fits_its_address() {
    let code = listing_of(SAMPLE);
    let mut seen = 0;
    for inst in &code {
        if let Inst::Store { ptr, value } = inst {
            assert_eq!(ptr.ty, value.ty.pointer());
            seen += 1;
        }
    }
    assert!(seen > 8);
}

/// Whether a value names something that was made, and carries its type.
fn made(v: &Value, types: &[IrType], globals: &[Type], params: &[Type]) -> bool {
    match v.kind {
        ValueKind::Reg(r) => r < types.len() && types[r] == v.ty,
        ValueKind::Global(g) => {
            g < globals.len() && v.ty == globals[g].to_llvm_basic_type().pointer()
        }
        ValueKind::Param(i) => i < params.len() && v.ty == params[i].to_llvm_basic_type(),
        ValueKind::Const(_) => v.ty == IrType::I32,
        ValueKind::Zero => true,
    }
}

#[test]
fn every_step_names_what_was_made_before() {
    let code = listing_of(SAMPLE);
    let mut types: Vec<IrType> = vec![];
    let mut globals: Vec<Type> = vec![];
    let mut returns: Vec<Type> = vec![];
    let mut announced: Vec<Type> = vec![];
    let mut params: Vec<Type> = vec![];
    let mut blocks = 0;
    for inst in &code {
        let ok = |v: &Value| made(v, &types, &globals, &params);
        let mut defined = None;
        match inst {
            Inst::Global { ty, .. } => globals.push(*ty),
            Inst::Param { ty, .. } => announced.push(*ty),
            Inst::Function { params: n, ret, .. } => {
                assert!(*n <= announced.len());
                params = announced[announced.len() - n..].to_vec();
                returns.push(*ret);
            }
            Inst::Block { kind, anchor } => {
                match kind {
                    BlockKind::Entry => assert!(!returns.is_empty()),
                    _ => assert!(*anchor < blocks),
                }
                blocks += 1;
            }
            Inst::Enter { block } => assert!(*block < blocks),
            Inst::Alloca { dst, ty, .. } => defined = Some((*dst, ty.pointer())),
            Inst::Store { ptr, value } => assert!(ok(ptr) && ok(value)),
            Inst::Load { dst, ptr } => {
                assert!(ok(ptr));
                defined = Some((*dst, ptr.ty.target()));
            }
            Inst::ArrayStart { dst, array, .. } => {
                assert!(ok(array));
                defined = Some((*dst, IrType::Ptr));
            }
            Inst::ElementPtr { dst, base, index } => {
                assert!(ok(base) && ok(index));
                defined = Some((*dst, IrType::Ptr));
            }
            Inst::PtrToInt { dst, value } | Inst::Widen { dst, value } => {
                assert!(ok(value));
                defined = Some((*dst, IrType::I32));
            }
            Inst::Truncate { dst, value } => {
                assert!(ok(value));
                defined = Some((*dst, IrType::I1));
            }
            Inst::Binary { dst, lhs, rhs, .. } => {
                assert!(ok(lhs) && ok(rhs));
                defined = Some((*dst, IrType::I32));
            }
            Inst::Compare { dst, lhs, rhs, .. } => {
                assert!(ok(lhs) && ok(rhs));
                defined = Some((*dst, IrType::I1));
            }
            Inst::Arg { value } => assert!(ok(value)),
            Inst::Call { dst, callee, .. } => {
                let ret = match callee {
                    Callee::Runtime(Runtime::Input) => Type::Int,
                    Callee::Runtime(Runtime::Output) => Type::Void,
                    Callee::Defined(f) => {
                        assert!(*f < returns.len());
                        returns[*f]
                    }
                };
                if let Some(d) = dst {
                    defined = Some((*d, ret.to_llvm_basic_type()));
                }
            }
            Inst::Return { value } => assert!(value.iter().all(ok)),
            Inst::Branch { target } => assert!(*target < blocks),
            Inst::CondBranch { cond, then_block, else_block } => {
                assert!(ok(cond) && *then_block < blocks && *else_block < blocks)
            }
            Inst::Extern { .. } => {}
        }
        if let Some((dst, ty)) = defined {
            assert_eq!(dst, types.len());
            types.push(ty);
        }
    }
    assert_eq!((globals.len(), returns.len()), (1, 3));
}

#[test]
fn lowering_twice_gives_the_same_listing() {
    assert_eq!(listing_of(SAMPLE), listing_of(SAMPLE));
}

#[test]
fn void_variables_and_global_arrays_are_not_lowered() {
    for source in [
        "void x;",
        "int a[4];",
        "int f(void x){}",
        "int main(void){ void x; }",
    ] {
        let ast = Ast::parse(source).expect("the text is a program");
        assert!(!check_program(&ast), "{}", source);
    }
    let ast = Ast::parse(SAMPLE).unwrap();
    assert!(check_program(&ast));
}

#[test]
fn a_program_that_cannot_be_lowered_gives_nothing() {
    let ast = Ast::parse("void x; int main(void){ return 0; }").unwrap();
    assert!(CodeBuilder::try_new("test", &ast).is_none());
    let ast = Ast::parse("int x; int main(void){ return y; }").unwrap();
    match CodeBuilder::try_new("test", &ast) {
        Some(Err(e)) => assert_eq!(e, Error::new((1, 31), ErrorType::VariableNotDefined)),
        other => panic!("not the error of the name: {:?}", other),
    }
    let ast = Ast::parse("int x; int main(void){ return x; }").unwrap();
    match CodeBuilder::try_new("test", &ast) {
        Some(Ok(builder)) => assert_eq!(builder.listing().len(), 8),
        other => panic!("not lowered: {:?}", other),
    }
}

#[test]
fn the_first_tree_that_cannot_be_lowered_is_found() {
    let ast = Ast::parse("int x; int a[4]; void v;").unwrap();
    assert_eq!(first_refused(&ast), Some(1));
    let ast = Ast::parse("int x; int main(void){ void v; }").unwrap();
    assert_eq!(first_refused(&ast), Some(1));
    let ast = Ast::parse(SAMPLE).unwrap();
    assert_eq!(first_refused(&ast), None);
}

#[test]
fn a_builder_starts_empty() {
    let mut builder = CodeBuilder::empty();
    assert!(builder.listing().is_empty());
    assert_eq!(builder.name(), "");
    let ast = Ast::parse("int main(void) { return 0; }").unwrap();
    assert!(check_program(&ast));
    assert_eq!(builder.generate(&ast), Ok(()));
    assert_eq!(builder.listing().len(), 6);
}

#[test]
fn a_failure_leaves_nothing_half_done() {
    // the store of a mismatched assignment and the return of a mismatched
    // value are not appended: the listing ends with what the right side gave
    let ast = Ast::parse("int f(int *p){ int x; x = p; }").unwrap();
    let mut builder = CodeBuilder::empty();
    assert_eq!(
        builder.generate(&ast),
        Err(Error::new((1, 23), ErrorType::MismatchedType))
    );
    assert_eq!(builder.listing().last(), Some(&Inst::Load { dst: 2, ptr: reg(0, IrType::PtrPtr) }));
    let ast = Ast::parse("int g; int g(void){}").unwrap();
    let mut builder = CodeBuilder::empty();
    assert_eq!(
        builder.generate(&ast),
        Err(Error::new((1, 8), ErrorType::FunctionRedefinition))
    );
    assert_eq!(builder.listing().len(), 3);
    let ast = Ast::parse("int main(void){ return nowhere(input()); }").unwrap();
    let mut builder = CodeBuilder::empty();
    assert_eq!(
        builder.generate(&ast),
        Err(Error::new((1, 24), ErrorType::FunctionNotDefined))
    );
    assert_eq!(builder.listing().last(), Some(&Inst::Enter { block: 0 }));
}

#[test]
fn backend_types_of_source_types() {
    assert_eq!(Type::Int.to_llvm_basic_type(), IrType::I32);
    assert_eq!(Type::IntPtr.to_llvm_basic_type(), IrType::Ptr);
    assert_eq!(Type::IntArray(7).to_llvm_basic_type(), IrType::Array(7));
    assert_eq!(Type::IntArray(7).to_llvm_basic_metadata_type(), IrType::Array(7));
    assert_eq!(Type::Int.to_llvm_basic_metadata_type(), IrType::I32);
    assert_eq!(IrType::I32.pointer(), IrType::Ptr);
    assert_eq!(IrType::Ptr.pointer(), IrType::PtrPtr);
    assert_eq!(IrType::Array(7).pointer(), IrType::PtrArray(7));
    assert_eq!(IrType::PtrArray(7).target(), IrType::Array(7));
    assert_eq!(IrType::PtrPtr.target(), IrType::Ptr);
    assert_eq!(IrType::Ptr.target(), IrType::I32);
}
