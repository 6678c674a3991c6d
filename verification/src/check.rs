//! Tests of whether a syntax tree can be lowered at all.
use vstd::prelude::*;
use crate::ast::{ASTInfo, Ast, Type};
use crate::codegen::CodeBuilder;
use crate::error::Error;
use crate::lower::{
    after_code, after_enter, after_fall_through, after_terminator, dead_code_free,
    declaration_ok, expression_ok, flow_declarations, flow_item, flow_items, flow_statements,
    flow_stmt, item_ok, local_type_ok, lower_program, program_ok, scalar_type_ok, statement_ok,
};
use crate::ir::{entered_once, terminators_in_place, well_scoped, well_typed, Flow};

verus! {

/// Whether a variable can be declared in a block with this type.
pub fn check_local_type(ty: Type) -> (r: bool)
    ensures
        r == local_type_ok(ty),
{
    match ty {
        Type::Int => true,
        Type::IntPtr => true,
        Type::IntArray(n) => 1 <= n && n <= 0xffff_ffff,
        Type::Void => false,
    }
}

/// Whether a parameter or a global variable can have this type.
pub fn check_scalar_type(ty: Type) -> (r: bool)
    ensures
        r == scalar_type_ok(ty),
{
    match ty {
        Type::Int => true,
        Type::IntPtr => true,
        _ => false,
    }
}

/// Whether a tree can stand where a value is needed.
pub fn check_expression(e: &Ast) -> (r: bool)
    ensures
        r == expression_ok(*e),
    decreases e,
{
    match &e.info {
        ASTInfo::AssignmentExpr(var, rhs) => {
            let is_variable = match &var.info {
                ASTInfo::Variable(_, _) => true,
                _ => false,
            };
            is_variable && check_expression(var) && check_expression(rhs)
        },
        ASTInfo::BinaryExpr(_, l, r) => check_expression(l) && check_expression(r),
        ASTInfo::CallExpr(_, args) => {
            let mut i: usize = 0;
            while i < args.len()
                invariant
                    i <= args.len(),
                    e.info matches ASTInfo::CallExpr(_, a) && a == *args,
                    forall|k: int| 0 <= k < i ==> expression_ok(#[trigger] args@[k]),
                decreases args.len() - i,
            {
                if !check_expression(&args[i]) {
                    return false;
                }
                i += 1;
            }
            true
        },
        ASTInfo::Variable(_, index) => match index {
            Some(ix) => check_expression(ix),
            None => true,
        },
        ASTInfo::IntLiteral(_) => true,
        _ => false,
    }
}

/// Whether a tree can stand among the declarations of a block.
pub fn check_declaration(d: &Ast) -> (r: bool)
    ensures
        r == declaration_ok(*d),
{
    match &d.info {
        ASTInfo::VariableDec(ty, _) => check_local_type(*ty),
        _ => true,
    }
}

/// Whether a tree can stand where a statement is needed.
pub fn check_statement(s: &Ast) -> (r: bool)
    ensures
        r == statement_ok(*s),
    decreases s,
{
    match &s.info {
        ASTInfo::BlockStmt(decls, stmts) => {
            let mut i: usize = 0;
            while i < decls.len()
                invariant
                    i <= decls.len(),
                    s.info matches ASTInfo::BlockStmt(d, t) && d == *decls && t == *stmts,
                    forall|k: int| 0 <= k < i ==> declaration_ok(#[trigger] decls@[k]),
                decreases decls.len() - i,
            {
                if !check_declaration(&decls[i]) {
                    return false;
                }
                i += 1;
            }
            let mut j: usize = 0;
            while j < stmts.len()
                invariant
                    j <= stmts.len(),
                    s.info matches ASTInfo::BlockStmt(d, t) && d == *decls && t == *stmts,
                    forall|k: int| 0 <= k < decls@.len() ==> declaration_ok(#[trigger] decls@[k]),
                    forall|k: int| 0 <= k < j ==> statement_ok(#[trigger] stmts@[k]),
                decreases stmts.len() - j,
            {
                if !check_statement(&stmts[j]) {
                    return false;
                }
                j += 1;
            }
            true
        },
        ASTInfo::SelectionStmt(c, t, e) => check_expression(c) && check_statement(t) && match e {
            Some(es) => check_statement(es),
            None => true,
        },
        ASTInfo::IterationStmt(c, body) => check_expression(c) && check_statement(body),
        ASTInfo::ReturnStmt(value) => match value {
            Some(e) => check_expression(e),
            None => true,
        },
        ASTInfo::AssignmentExpr(_, _) => check_expression(s),
        ASTInfo::BinaryExpr(_, _, _) => check_expression(s),
        ASTInfo::CallExpr(_, _) => check_expression(s),
        _ => true,
    }
}

/// Whether a tree can stand at the top level of a program.
pub fn check_item(item: &Ast) -> (r: bool)
    ensures
        r == item_ok(*item),
{
    match &item.info {
        ASTInfo::FunctionDec(ret, _, params, body) => {
            match ret {
                Type::IntArray(_) => {
                    return false;
                },
                _ => {},
            }
            let mut i: usize = 0;
            while i < params.len()
                invariant
                    i <= params.len(),
                    item.info matches ASTInfo::FunctionDec(_, _, p, _) && p == *params,
                    forall|k: int| 0 <= k < i ==> scalar_type_ok((#[trigger] params@[k]).0),
                decreases params.len() - i,
            {
                if !check_scalar_type(params[i].0) {
                    return false;
                }
                i += 1;
            }
            check_statement(body)
        },
        ASTInfo::VariableDec(ty, _) => check_scalar_type(*ty),
        _ => false,
    }
}

/// Whether a list of trees is a program that can be lowered.
pub fn check_program(items: &Vec<Ast>) -> (r: bool)
    ensures
        r == program_ok(items@),
{
    let mut i: usize = 0;
    while i < items.len()
        invariant
            i <= items.len(),
            forall|k: int| 0 <= k < i ==> item_ok(#[trigger] items@[k]),
        decreases items.len() - i,
    {
        if !check_item(&items[i]) {
            return false;
        }
        i += 1;
    }
    true
}

/// Whether the tree at `at` is the first top-level tree of the list that
/// cannot be lowered.
pub open spec fn first_refused_at(items: Seq<Ast>, at: int) -> bool {
    &&& 0 <= at < items.len()
    &&& !item_ok(items[at])
    &&& forall|k: int| 0 <= k < at ==> item_ok(#[trigger] items[k])
}

/// The place in the list of the first top-level tree that cannot be
/// lowered, for a diagnostic; nothing where the program can be lowered.
pub fn first_refused(items: &Vec<Ast>) -> (r: Option<usize>)
    ensures
        match r {
            Some(at) => first_refused_at(items@, at as int),
            None => program_ok(items@),
        },
{
    let mut i: usize = 0;
    while i < items.len()
        invariant
            i <= items.len(),
            forall|k: int| 0 <= k < i ==> item_ok(#[trigger] items@[k]),
        decreases items.len() - i,
    {
        if !check_item(&items[i]) {
            return Some(i);
        }
        i += 1;
    }
    None
}

/// The flow after one or more instructions that are no terminators.
pub fn flow_after_code(f: Flow) -> (r: Flow)
    ensures
        r == after_code(f),
{
    Flow { closed: false, broken: f.broken || f.closed }
}

/// The flow after a terminator.
pub fn flow_after_terminator(f: Flow) -> (r: Flow)
    ensures
        r == after_terminator(f),
{
    Flow { closed: true, broken: f.broken || f.closed }
}

/// The flow after a block is entered.
pub fn flow_after_enter(f: Flow) -> (r: Flow)
    ensures
        r == after_enter(f),
{
    Flow { closed: false, broken: f.broken || !f.closed }
}

/// The flow after a jump that is made only where the block is open.
pub fn flow_after_fall_through(f: Flow) -> (r: Flow)
    ensures
        r == after_fall_through(f),
{
    if f.closed {
        f
    } else {
        flow_after_terminator(f)
    }
}

/// The flow after a statement is lowered.
pub fn statement_flow(s: &Ast, f: Flow) -> (r: Flow)
    ensures
        r == flow_stmt(*s, f),
    decreases s,
{
    match &s.info {
        ASTInfo::BlockStmt(decls, stmts) => {
            let mut flow = f;
            let mut i: usize = 0;
            while i < decls.len()
                invariant
                    i <= decls.len(),
                    flow_declarations(decls@, 0, f) == flow_declarations(decls@, i as int, flow),
                decreases decls.len() - i,
            {
                flow = match &decls[i].info {
                    ASTInfo::VariableDec(_, _) => flow_after_code(flow),
                    _ => flow,
                };
                i += 1;
            }
            let ghost declared = flow;
            let mut j: usize = 0;
            while j < stmts.len()
                invariant
                    j <= stmts.len(),
                    s.info matches ASTInfo::BlockStmt(d, t) && d == *decls && t == *stmts,
                    flow_statements(stmts@, 0, declared) == flow_statements(
                        stmts@,
                        j as int,
                        flow,
                    ),
                decreases stmts.len() - j,
            {
                flow = statement_flow(&stmts[j], flow);
                j += 1;
            }
            flow
        },
        ASTInfo::SelectionStmt(_, t, e) => {
            let f1 = flow_after_enter(flow_after_terminator(flow_after_code(f)));
            let f2 = flow_after_enter(flow_after_fall_through(statement_flow(t, f1)));
            match e {
                Some(es) => flow_after_enter(flow_after_fall_through(statement_flow(es, f2))),
                None => f2,
            }
        },
        ASTInfo::IterationStmt(_, body) => {
            let f1 = flow_after_enter(flow_after_terminator(f));
            let f2 = flow_after_enter(flow_after_terminator(flow_after_code(f1)));
            flow_after_enter(flow_after_fall_through(statement_flow(body, f2)))
        },
        ASTInfo::ReturnStmt(value) => match value {
            Some(e) => {
                let emits = match &e.info {
                    ASTInfo::AssignmentExpr(_, _) => true,
                    ASTInfo::BinaryExpr(_, _, _) => true,
                    ASTInfo::CallExpr(_, _) => true,
                    ASTInfo::Variable(_, _) => true,
                    _ => false,
                };
                if emits {
                    flow_after_terminator(flow_after_code(f))
                } else {
                    flow_after_terminator(f)
                }
            },
            None => flow_after_terminator(f),
        },
        ASTInfo::AssignmentExpr(_, _) => flow_after_code(f),
        ASTInfo::BinaryExpr(_, _, _) => flow_after_code(f),
        ASTInfo::CallExpr(_, _) => flow_after_code(f),
        _ => f,
    }
}

/// The flow after a top-level declaration is lowered.
pub fn item_flow(item: &Ast, f: Flow) -> (r: Flow)
    ensures
        r == flow_item(*item, f),
{
    match &item.info {
        ASTInfo::FunctionDec(_, _, params, body) => {
            let f1 = flow_after_enter(Flow { closed: true, broken: f.broken || !f.closed });
            let f2 = if params.len() > 0 {
                flow_after_code(f1)
            } else {
                f1
            };
            let f3 = match &body.info {
                ASTInfo::BlockStmt(_, _) => statement_flow(body, f2),
                _ => f2,
            };
            flow_after_fall_through(f3)
        },
        _ => f,
    }
}

/// Whether a program holds dead code: a statement that puts an instruction
/// behind a `return` in its block.
pub fn has_dead_code(items: &Vec<Ast>) -> (r: bool)
    ensures
        r == !dead_code_free(items@),
{
    let mut flow = Flow { closed: true, broken: false };
    let mut i: usize = 0;
    while i < items.len()
        invariant
            i <= items.len(),
            flow_items(items@, 0, Flow { closed: true, broken: false }) == flow_items(
                items@,
                i as int,
                flow,
            ),
        decreases items.len() - i,
    {
        flow = item_flow(&items[i], flow);
        i += 1;
    }
    flow.broken
}

impl CodeBuilder {
    /// Lowers a program, where it is one that can be lowered: where a tree
    /// of it cannot stand where it stands, or a variable has a type that it
    /// cannot have, gives nothing.
    pub fn try_new(name: &str, ast: &Vec<Ast>) -> (r: Option<Result<Self, Error>>)
        ensures
            r is Some <==> program_ok(ast@),
            r matches Some(done) ==> match lower_program(ast@) {
                Ok(st) => done matches Ok(b) && b@ == st && b.module_name() == name@ && well_typed(
                    b@.code,
                ) && well_scoped(b@.code) && entered_once(b@.code) && (dead_code_free(ast@)
                    ==> terminators_in_place(b@.code)),
                Err((_, x)) => done matches Err(e) && e == x,
            },
    {
        if check_program(ast) {
            Some(CodeBuilder::new(name, ast))
        } else {
            None
        }
    }
}

} // verus!
