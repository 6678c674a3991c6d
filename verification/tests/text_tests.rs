use cmm::ast::{Oprand, Type};
use cmm::error::{Error, ErrorType};
use cmm::ir::{Callee, IrType, Runtime, Value, ValueKind};
use cmm::scope::{Resolved, SymbolTable};
use cmm::text::{digit, push_decimal, push_signed_decimal, push_text};

#[test]
fn decimal_numerals() {
    let mut s = String::from("n=");
    push_decimal(&mut s, 0);
    push_text(&mut s, ",");
    push_decimal(&mut s, 9);
    push_text(&mut s, ",");
    push_decimal(&mut s, 10);
    push_text(&mut s, ",");
    push_decimal(&mut s, 1234567890);
    push_text(&mut s, ",");
    push_decimal(&mut s, u64::MAX);
    assert_eq!(s, "n=0,9,10,1234567890,18446744073709551615");
}

#[test]
fn signed_decimal_numerals() {
    let mut s = String::new();
    push_signed_decimal(&mut s, -1);
    push_text(&mut s, " ");
    push_signed_decimal(&mut s, 0);
    push_text(&mut s, " ");
    push_signed_decimal(&mut s, i32::MIN);
    push_text(&mut s, " ");
    push_signed_decimal(&mut s, i32::MAX);
    assert_eq!(s, "-1 0 -2147483648 2147483647");
}

#[test]
fn digits_are_characters() {
    let all: String = (0u8..10).map(digit).collect();
    assert_eq!(all, "0123456789");
}

#[test]
fn names_of_types() {
    assert_eq!(Type::Int.to_string(), "int");
    assert_eq!(Type::Void.to_string(), "void");
    assert_eq!(Type::IntPtr.to_string(), "int pointer");
    assert_eq!(Type::IntArray(16).to_string(), "int array[16]");
    assert_eq!(Type::IntArray(0).to_string(), "int array[0]");
}

#[test]
fn names_of_operators() {
    let all = [
        (Oprand::Add, "Add"),
        (Oprand::Sub, "Sub"),
        (Oprand::Mul, "Mul"),
        (Oprand::Div, "Div"),
        (Oprand::Mod, "Mod"),
        (Oprand::Ge, "Ge"),
        (Oprand::Le, "Le"),
        (Oprand::Gt, "Gt"),
        (Oprand::Lt, "Lt"),
        (Oprand::Eq, "Eq"),
        (Oprand::Ne, "Ne"),
        (Oprand::Band, "Band"),
        (Oprand::Bor, "Bor"),
        (Oprand::Bxor, "Bxor"),
        (Oprand::Land, "Land"),
        (Oprand::Lor, "Lor"),
        (Oprand::LShift, "LShift"),
        (Oprand::RShift, "RShift"),
    ];
    for (op, name) in all {
        assert_eq!(op.to_string(), name);
    }
}

#[test]
fn errors_are_shown_with_line_and_column() {
    let all = [
        (ErrorType::VariableRedefinition, "3:7: Variable redefinition"),
        (ErrorType::IndexNotInt, "3:7: Index of array should be integer"),
        (ErrorType::VariableNotDefined, "3:7: Variable has not been defined"),
        (ErrorType::FunctionRedefinition, "3:7: Function redefinition"),
        (ErrorType::MismatchedType, "3:7: Mismatched type"),
        (ErrorType::MismatchedTypeFunction, "3:7: Mismatched type of Function's return type"),
        (ErrorType::FunctionNotDefined, "3:7: Function has not been defined"),
        (ErrorType::ExpressionVoidType, "3:7: Expression has void type"),
        (ErrorType::PestError, "3:7: "),
    ];
    for (kind, text) in all {
        assert_eq!(Error::new((3, 7), kind).to_string(), text);
    }
    assert_eq!(
        Error::new((120, 4096), ErrorType::MismatchedType).to_string(),
        "120:4096: Mismatched type"
    );
}

#[test]
fn an_error_holds_what_it_was_made_of() {
    let e = Error::new((5, 6), ErrorType::IndexNotInt);
    assert_eq!(e.position, (5, 6));
    assert_eq!(e.error, ErrorType::IndexNotInt);
}

fn slot(r: usize) -> Value {
    Value { kind: ValueKind::Reg(r), ty: IrType::Ptr }
}

#[test]
fn the_innermost_binding_is_found() {
    let mut table = SymbolTable::new();
    let x = "x".to_string();
    let y = "y".to_string();
    assert_eq!(table.resolve(&x), Resolved::NotFound);
    assert!(table.declare_global_var(&x, Type::Int, slot(0)).is_ok());
    assert_eq!(table.resolve(&x), Resolved::Variable(Type::Int, slot(0)));
    table.push_scope();
    assert_eq!(table.depth(), 1);
    assert!(table.declare_local(&x, Type::IntPtr, slot(1)).is_ok());
    assert!(table.declare_local(&y, Type::Int, slot(2)).is_ok());
    assert_eq!(table.resolve(&x), Resolved::Variable(Type::IntPtr, slot(1)));
    table.push_scope();
    assert_eq!(table.resolve(&x), Resolved::Variable(Type::IntPtr, slot(1)));
    assert!(!table.bound_in_top(&x));
    assert!(table.declare_local(&x, Type::Int, slot(3)).is_ok());
    assert!(table.bound_in_top(&x));
    assert_eq!(table.resolve(&x), Resolved::Variable(Type::Int, slot(3)));
    assert_eq!(table.resolve(&y), Resolved::Variable(Type::Int, slot(2)));
    table.pop_scope();
    assert_eq!(table.resolve(&x), Resolved::Variable(Type::IntPtr, slot(1)));
    table.pop_scope();
    assert_eq!(table.depth(), 0);
    assert_eq!(table.resolve(&x), Resolved::Variable(Type::Int, slot(0)));
    assert_eq!(table.resolve(&y), Resolved::NotFound);
}

#[test]
fn a_scope_holds_a_name_once() {
    let mut table = SymbolTable::new();
    let x = "x".to_string();
    table.push_scope();
    assert_eq!(table.declare_local(&x, Type::Int, slot(0)), Ok(()));
    assert_eq!(
        table.declare_local(&x, Type::Int, slot(1)),
        Err(ErrorType::VariableRedefinition)
    );
    assert_eq!(table.lookup_variable(&x), Some((Type::Int, slot(0))));
    table.push_scope();
    assert_eq!(table.declare_local(&x, Type::Int, slot(3)), Ok(()));
}

#[test]
fn variables_and_functions_share_the_module_level() {
    let mut table = SymbolTable::new();
    let f = "f".to_string();
    let g = "g".to_string();
    assert!(!table.taken_globally(&f));
    assert_eq!(table.declare_function(&f, Type::Void, 0), Ok(()));
    assert!(table.taken_globally(&f));
    assert_eq!(table.function_count(), 1);
    assert_eq!(
        table.declare_global_var(&f, Type::Int, slot(0)),
        Err(ErrorType::VariableRedefinition)
    );
    assert_eq!(table.declare_function(&f, Type::Int, 1), Err(ErrorType::FunctionRedefinition));
    assert_eq!(table.declare_global_var(&g, Type::Int, slot(0)), Ok(()));
    assert_eq!(table.global_count(), 1);
    assert_eq!(table.declare_function(&g, Type::Int, 1), Err(ErrorType::FunctionRedefinition));
    assert_eq!(table.resolve(&f), Resolved::Function(Type::Void, Callee::Defined(0)));
    assert_eq!(table.lookup_function(&g), None);
    assert_eq!(table.lookup_variable(&f), None);
}

#[test]
fn the_runtime_is_always_in_sight() {
    let mut table = SymbolTable::new();
    let input = "input".to_string();
    let output = "output".to_string();
    assert_eq!(
        table.resolve(&input),
        Resolved::Function(Type::Int, Callee::Runtime(Runtime::Input))
    );
    assert_eq!(
        table.resolve(&output),
        Resolved::Function(Type::Void, Callee::Runtime(Runtime::Output))
    );
    assert!(table.taken_globally(&input));
    assert_eq!(
        table.declare_function(&output, Type::Void, 0),
        Err(ErrorType::FunctionRedefinition)
    );
    table.push_scope();
    assert_eq!(table.declare_local(&input, Type::Int, slot(0)), Ok(()));
    assert_eq!(table.resolve(&input), Resolved::Variable(Type::Int, slot(0)));
    assert_eq!(
        table.lookup_function(&input),
        Some((Type::Int, Callee::Runtime(Runtime::Input)))
    );
}
