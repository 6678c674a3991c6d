//! The errors that end a compilation.
use vstd::prelude::*;
use crate::text::{decimal, push_decimal, push_text};

verus! {

/// What went wrong.
#[derive(Debug, PartialEq, Eq, Clone, Copy, Structural)]
pub enum ErrorType {
    VariableRedefinition,
    IndexNotInt,
    VariableNotDefined,
    FunctionRedefinition,
    MismatchedType,
    MismatchedTypeFunction,
    FunctionNotDefined,
    ExpressionVoidType,
    /// The source text is not a program.
    PestError,
}

/// An error, with the line and column of the construct at fault.
#[derive(Debug, PartialEq, Eq, Clone, Copy)]
pub struct Error {
    pub position: (usize, usize),
    pub error: ErrorType,
}

/// The sentence that describes an error of the given sort.
pub open spec fn error_message(error: ErrorType) -> Seq<char> {
    match error {
        ErrorType::VariableRedefinition => "Variable redefinition"@,
        ErrorType::IndexNotInt => "Index of array should be integer"@,
        ErrorType::VariableNotDefined => "Variable has not been defined"@,
        ErrorType::FunctionRedefinition => "Function redefinition"@,
        ErrorType::MismatchedType => "Mismatched type"@,
        ErrorType::MismatchedTypeFunction => "Mismatched type of Function's return type"@,
        ErrorType::FunctionNotDefined => "Function has not been defined"@,
        ErrorType::ExpressionVoidType => "Expression has void type"@,
        ErrorType::PestError => ""@,
    }
}

/// The text of an error: line, colon, column, colon, space, sentence.
pub open spec fn error_text(e: Error) -> Seq<char> {
    decimal(e.position.0 as nat) + ":"@ + decimal(e.position.1 as nat) + ": "@ + error_message(
        e.error,
    )
}

impl ErrorType {
    /// The sentence that describes this sort of error.
    pub fn message(&self) -> (r: &'static str)
        ensures
            r@ == error_message(*self),
    {
        match self {
            ErrorType::VariableRedefinition => "Variable redefinition",
            ErrorType::IndexNotInt => "Index of array should be integer",
            ErrorType::VariableNotDefined => "Variable has not been defined",
            ErrorType::FunctionRedefinition => "Function redefinition",
            ErrorType::MismatchedType => "Mismatched type",
            ErrorType::MismatchedTypeFunction => "Mismatched type of Function's return type",
            ErrorType::FunctionNotDefined => "Function has not been defined",
            ErrorType::ExpressionVoidType => "Expression has void type",
            ErrorType::PestError => "",
        }
    }
}

impl Error {
    /// An error of sort `error` at `position`.
    pub fn new(position: (usize, usize), error: ErrorType) -> (r: Self)
        ensures
            r.position == position,
            r.error == error,
    {
        Self { position, error }
    }

    /// The error as shown to the user, such as `3:7: Mismatched type`.
    pub fn to_string(&self) -> (r: String)
        ensures
            r@ == error_text(*self),
    {
        let mut s = String::new();
        push_decimal(&mut s, self.position.0 as u64);
        push_text(&mut s, ":");
        push_decimal(&mut s, self.position.1 as u64);
        push_text(&mut s, ": ");
        push_text(&mut s, self.error.message());
        assert(s@ =~= error_text(*self));
        s
    }
}

} // verus!
