//! The syntax tree of a C-- program.
use vstd::prelude::*;
use crate::text::{decimal, push_decimal, push_text};

verus! {

/// A type of the source language.
#[derive(Debug, PartialEq, Eq, Clone, Copy, Structural)]
pub enum Type {
    /// A 32-bit signed integer.
    Int,
    /// No value: the return type of a procedure.
    Void,
    /// A local array of integers with a fixed number of elements.
    IntArray(usize),
    /// A pointer to an integer.
    IntPtr,
}

/// A binary operator.
#[derive(Debug, PartialEq, Eq, Clone, Copy, Structural)]
pub enum Oprand {
    Add,
    Sub,
    Mul,
    Div,
    Mod,
    Ge,
    Le,
    Gt,
    Lt,
    Eq,
    Ne,
    Band,
    Bor,
    Bxor,
    Land,
    Lor,
    LShift,
    RShift,
}

/// A node of the syntax tree: what it is, and the line and column where it
/// starts in the source.
#[derive(Debug, PartialEq, Eq)]
pub struct Ast {
    pub position: (usize, usize),
    pub info: ASTInfo,
}

/// What a node of the syntax tree is.
#[derive(Debug, PartialEq, Eq)]
pub enum ASTInfo {
    /// return type, name, parameters, body: `type name(params) { .. }`
    FunctionDec(Type, String, Vec<(Type, String)>, Box<Ast>),
    /// type, name
    VariableDec(Type, String),
    /// local declarations, statements
    BlockStmt(Vec<Ast>, Vec<Ast>),
    /// condition, statement taken when it holds, statement taken otherwise
    SelectionStmt(Box<Ast>, Box<Ast>, Option<Box<Ast>>),
    /// condition, body: `while (condition) body`
    IterationStmt(Box<Ast>, Box<Ast>),
    /// the returned expression, if any
    ReturnStmt(Option<Box<Ast>>),
    /// variable, expression: `variable = expression`
    AssignmentExpr(Box<Ast>, Box<Ast>),
    /// operator, left operand, right operand
    BinaryExpr(Oprand, Box<Ast>, Box<Ast>),
    /// callee, arguments
    CallExpr(String, Vec<Ast>),
    /// name, subscript: `name` or `name[subscript]`
    Variable(String, Option<Box<Ast>>),
    IntLiteral(i32),
}

/// The name under which an operator is shown.
pub open spec fn oprand_text(op: Oprand) -> Seq<char> {
    match op {
        Oprand::Add => "Add"@,
        Oprand::Sub => "Sub"@,
        Oprand::Mul => "Mul"@,
        Oprand::Div => "Div"@,
        Oprand::Mod => "Mod"@,
        Oprand::Ge => "Ge"@,
        Oprand::Le => "Le"@,
        Oprand::Gt => "Gt"@,
        Oprand::Lt => "Lt"@,
        Oprand::Eq => "Eq"@,
        Oprand::Ne => "Ne"@,
        Oprand::Band => "Band"@,
        Oprand::Bor => "Bor"@,
        Oprand::Bxor => "Bxor"@,
        Oprand::Land => "Land"@,
        Oprand::Lor => "Lor"@,
        Oprand::LShift => "LShift"@,
        Oprand::RShift => "RShift"@,
    }
}

/// The name under which a type is shown.
pub open spec fn type_text(ty: Type) -> Seq<char> {
    match ty {
        Type::Int => "int"@,
        Type::Void => "void"@,
        Type::IntArray(size) => "int array["@ + decimal(size as nat) + "]"@,
        Type::IntPtr => "int pointer"@,
    }
}

impl Oprand {
    /// The operator's name.
    pub fn to_string(&self) -> (r: String)
        ensures
            r@ == oprand_text(*self),
    {
        let name = match self {
            Oprand::Add => "Add",
            Oprand::Sub => "Sub",
            Oprand::Mul => "Mul",
            Oprand::Div => "Div",
            Oprand::Mod => "Mod",
            Oprand::Ge => "Ge",
            Oprand::Le => "Le",
            Oprand::Gt => "Gt",
            Oprand::Lt => "Lt",
            Oprand::Eq => "Eq",
            Oprand::Ne => "Ne",
            Oprand::Band => "Band",
            Oprand::Bor => "Bor",
            Oprand::Bxor => "Bxor",
            Oprand::Land => "Land",
            Oprand::Lor => "Lor",
            Oprand::LShift => "LShift",
            Oprand::RShift => "RShift",
        };
        name.to_owned()
    }
}

impl Type {
    /// The type's name; an array's name holds its length.
    pub fn to_string(&self) -> (r: String)
        ensures
            r@ == type_text(*self),
    {
        match self {
            Type::Int => "int".to_owned(),
            Type::Void => "void".to_owned(),
            Type::IntArray(size) => {
                let mut s = "int array[".to_owned();
                push_decimal(&mut s, *size as u64);
                push_text(&mut s, "]");
                s
            },
            Type::IntPtr => "int pointer".to_owned(),
        }
    }
}

impl Ast {
    /// A node at `position`.
    pub fn new(position: (usize, usize), info: ASTInfo) -> (r: Self)
        ensures
            r.position == position,
            r.info == info,
    {
        Self { position, info }
    }
}

} // verus!
