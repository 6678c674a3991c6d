//! What is in sight while a program is lowered: expressions and statements
//! leave the names in sight as they found them, a block forgets what it
//! declared, and an array stays a pointer for as long as its block lasts.
use vstd::prelude::*;
use crate::ast::{ASTInfo, Ast, Type};
use crate::error::Error;
use crate::ir::Value;
use crate::lower::{
    apply_operator, as_integer, lower_args, lower_assignment, lower_binary, lower_block,
    lower_call, lower_condition, lower_declaration, lower_declarations, lower_expr,
    lower_statements, lower_stmt, lower_variable, pass_args, BuilderState,
};
use crate::scope::{extends, find_last, lemma_find_last, lemma_scope_exit_restores, Symbols};

verus! {

/// Whether the lowering of an expression left the names in sight, and the
/// function that is being lowered, as they were in `st`; where it failed
/// too.
pub open spec fn value_keeps(
    st: BuilderState,
    r: Result<(BuilderState, Type, Value), (BuilderState, Error)>,
) -> bool {
    let after = match r {
        Ok((s, _, _)) => s,
        Err((s, _)) => s,
    };
    after.symbols == st.symbols && after.current_function == st.current_function
}

/// Whether the lowering of a statement left the names in sight, and the
/// function that is being lowered, as they were in `st`; where it failed
/// too.
pub open spec fn end_keeps(st: BuilderState, r: Result<BuilderState, (BuilderState, Error)>) -> bool {
    let after = match r {
        Ok(s) => s,
        Err((s, _)) => s,
    };
    after.symbols == st.symbols && after.current_function == st.current_function
}

/// Whether the lowering of declarations only added variables to the
/// innermost scope of `st`; where it failed too.
pub open spec fn end_extends(st: BuilderState, r: Result<BuilderState, (BuilderState, Error)>) -> bool {
    let after = match r {
        Ok(s) => s,
        Err((s, _)) => s,
    };
    extends(after.symbols, st.symbols) && after.current_function == st.current_function
}

/// Passing arguments leaves the names in sight as they were.
pub proof fn lemma_pass_args_keeps(st: BuilderState, values: Seq<Value>, from: int)
    ensures
        pass_args(st, values, from).symbols == st.symbols,
        pass_args(st, values, from).current_function == st.current_function,
    decreases values.len() - from,
{
    if from < 0 || from >= values.len() {
    } else {
        lemma_pass_args_keeps(
            st.note(crate::ir::Inst::Arg { value: values[from] }),
            values,
            from + 1,
        );
    }
}

/// The address of a variable is found without a change of what is in sight.
pub proof fn lemma_variable_keeps(st: BuilderState, e: Ast)
    ensures
        value_keeps(st, lower_variable(st, e)),
    decreases e, 0nat,
{
    match e.info {
        ASTInfo::Variable(_, Some(ix)) => {
            lemma_expr_keeps(st, *ix);
        },
        _ => {},
    }
}

/// An assignment leaves the names in sight as they were.
pub proof fn lemma_assignment_keeps(st: BuilderState, e: Ast)
    ensures
        value_keeps(st, lower_assignment(st, e)),
    decreases e, 0nat,
{
    match e.info {
        ASTInfo::AssignmentExpr(var, rhs) => {
            lemma_variable_keeps(st, *var);
            if let Ok((s1, _, _)) = lower_variable(st, *var) {
                lemma_expr_keeps(s1, *rhs);
            }
        },
        _ => {},
    }
}

/// A binary expression leaves the names in sight as they were.
pub proof fn lemma_binary_keeps(st: BuilderState, e: Ast)
    ensures
        value_keeps(st, lower_binary(st, e)),
    decreases e, 0nat,
{
    match e.info {
        ASTInfo::BinaryExpr(op, l, r) => {
            lemma_expr_keeps(st, *l);
            if let Ok((s1, lt, lv)) = lower_expr(st, *l) {
                lemma_expr_keeps(s1, *r);
                if let Ok((s2, rt, rv)) = lower_expr(s1, *r) {
                    let (s3, a) = as_integer(s2, lt, lv);
                    let (s4, b) = as_integer(s3, rt, rv);
                    let (s5, v) = apply_operator(s4, op, a, b);
                    assert(s5.symbols == s2.symbols);
                }
            }
        },
        _ => {},
    }
}

/// The arguments of a call leave the names in sight as they were.
pub proof fn lemma_args_keep(st: BuilderState, args: Seq<Ast>, from: int, done: Seq<Value>)
    ensures
        ({
            let after = match lower_args(st, args, from, done) {
                Ok((s, _)) => s,
                Err((s, _)) => s,
            };
            after.symbols == st.symbols && after.current_function == st.current_function
        }),
    decreases args, args.len() - from,
{
    if from < 0 || from >= args.len() {
    } else {
        lemma_expr_keeps(st, args[from]);
        if let Ok((s1, _, v)) = lower_expr(st, args[from]) {
            lemma_args_keep(s1, args, from + 1, done.push(v));
        }
    }
}

/// A call leaves the names in sight as they were.
pub proof fn lemma_call_keeps(st: BuilderState, e: Ast)
    ensures
        value_keeps(st, lower_call(st, e)),
    decreases e, 0nat,
{
    match e.info {
        ASTInfo::CallExpr(name, args) => {
            if st.symbols.lookup_function(name@) is Some {
                lemma_args_keep(st, args@, 0, Seq::empty());
                if let Ok((s1, values)) = lower_args(st, args@, 0, Seq::empty()) {
                    lemma_pass_args_keeps(s1, values, 0);
                }
            }
        },
        _ => {},
    }
}

/// An expression leaves the names in sight as they were.
pub proof fn lemma_expr_keeps(st: BuilderState, e: Ast)
    ensures
        value_keeps(st, lower_expr(st, e)),
    decreases e, 1nat,
{
    match e.info {
        ASTInfo::AssignmentExpr(_, _) => {
            lemma_assignment_keeps(st, e);
        },
        ASTInfo::BinaryExpr(_, _, _) => {
            lemma_binary_keeps(st, e);
        },
        ASTInfo::CallExpr(_, _) => {
            lemma_call_keeps(st, e);
        },
        ASTInfo::Variable(_, _) => {
            lemma_variable_keeps(st, e);
        },
        _ => {},
    }
}

/// A condition leaves the names in sight as they were.
pub proof fn lemma_condition_keeps(st: BuilderState, c: Ast)
    ensures
        ({
            let after = match lower_condition(st, c) {
                Ok((s, _)) => s,
                Err((s, _)) => s,
            };
            after.symbols == st.symbols && after.current_function == st.current_function
        }),
{
    lemma_expr_keeps(st, c);
}

/// A declaration only adds its variable to the innermost scope.
pub proof fn lemma_declaration_extends(st: BuilderState, d: Ast)
    ensures
        end_extends(st, lower_declaration(st, d)),
{
    assert(st.symbols.locals.take(st.symbols.locals.len() as int) =~= st.symbols.locals);
    if let Ok(s1) = lower_declaration(st, d) {
        assert(s1.symbols.locals.take(st.symbols.locals.len() as int) =~= st.symbols.locals);
    }
}

/// Declarations only add their variables to the innermost scope.
pub proof fn lemma_declarations_extend(st: BuilderState, decls: Seq<Ast>, from: int)
    ensures
        end_extends(st, lower_declarations(st, decls, from)),
    decreases decls.len() - from,
{
    assert(st.symbols.locals.take(st.symbols.locals.len() as int) =~= st.symbols.locals);
    if from < 0 || from >= decls.len() {
    } else {
        lemma_declaration_extends(st, decls[from]);
        if let Ok(s1) = lower_declaration(st, decls[from]) {
            lemma_declarations_extend(s1, decls, from + 1);
            let after = match lower_declarations(s1, decls, from + 1) {
                Ok(s) => s,
                Err((s, _)) => s,
            };
            assert(after.symbols.locals.take(st.symbols.locals.len() as int)
                =~= after.symbols.locals.take(s1.symbols.locals.len() as int).take(
                st.symbols.locals.len() as int,
            ));
        }
    }
}

/// The statements of a block leave the names in sight as they were.
pub proof fn lemma_statements_keep(st: BuilderState, stmts: Seq<Ast>, from: int)
    ensures
        end_keeps(st, lower_statements(st, stmts, from)),
    decreases stmts, stmts.len() - from,
{
    if from < 0 || from >= stmts.len() {
    } else {
        lemma_statement_keeps(st, stmts[from]);
        if let Ok(s1) = lower_stmt(st, stmts[from]) {
            lemma_statements_keep(s1, stmts, from + 1);
        }
    }
}

/// After a block, the names that it declared are in sight no more: what is
/// in sight is what was in sight before the block, whether the block was
/// lowered or failed.
pub proof fn lemma_block_keeps(st: BuilderState, s: Ast)
    ensures
        end_keeps(st, lower_block(st, s)),
    decreases s, 0nat,
{
    match s.info {
        ASTInfo::BlockStmt(decls, stmts) => {
            let opened = st.with_symbols(st.symbols.push_scope());
            lemma_declarations_extend(opened, decls@, 0);
            match lower_declarations(opened, decls@, 0) {
                Ok(s1) => {
                    lemma_statements_keep(s1, stmts@, 0);
                    let s2 = match lower_statements(s1, stmts@, 0) {
                        Ok(x) => x,
                        Err((x, _)) => x,
                    };
                    lemma_scope_exit_restores(st.symbols, s2.symbols, Seq::empty());
                },
                Err((s1, _)) => {
                    lemma_scope_exit_restores(st.symbols, s1.symbols, Seq::empty());
                },
            }
        },
        _ => {},
    }
}

/// A statement leaves the names in sight as they were, whether it was
/// lowered or failed.
pub proof fn lemma_statement_keeps(st: BuilderState, s: Ast)
    ensures
        end_keeps(st, lower_stmt(st, s)),
    decreases s, 1nat,
{
    match s.info {
        ASTInfo::BlockStmt(_, _) => {
            lemma_block_keeps(st, s);
        },
        ASTInfo::SelectionStmt(c, t, e) => {
            lemma_condition_keeps(st, *c);
            if let Ok((s1, cond)) = lower_condition(st, *c) {
                let then_block = s1.next_block();
                let s2 = s1.block(crate::ir::BlockKind::Then, s1.current_block as usize);
                let dest_block = s2.next_block();
                let s3 = s2.block(crate::ir::BlockKind::IfDest, then_block);
                match e {
                    Some(es) => {
                        let else_block = s3.next_block();
                        let s4 = s3.block(crate::ir::BlockKind::Else, dest_block);
                        let s5 = s4.step(
                            crate::ir::Inst::CondBranch { cond, then_block, else_block },
                        );
                        lemma_statement_keeps(s5.enter(then_block), *t);
                        if let Ok(s6) = lower_stmt(s5.enter(then_block), *t) {
                            lemma_statement_keeps(
                                s6.fall_through(dest_block).enter(else_block),
                                *es,
                            );
                        }
                    },
                    None => {
                        let s5 = s3.step(
                            crate::ir::Inst::CondBranch {
                                cond,
                                then_block,
                                else_block: dest_block,
                            },
                        );
                        lemma_statement_keeps(s5.enter(then_block), *t);
                    },
                }
            }
        },
        ASTInfo::IterationStmt(c, body) => {
            let head = st.next_block();
            let s1 = st.block(crate::ir::BlockKind::LoopHead, st.current_block as usize).step(
                crate::ir::Inst::Branch { target: head },
            );
            let body_block = s1.next_block();
            let s2 = s1.block(crate::ir::BlockKind::LoopBody, head);
            let dest_block = s2.next_block();
            let s3 = s2.block(crate::ir::BlockKind::LoopDest, body_block);
            lemma_condition_keeps(s3.enter(head), *c);
            if let Ok((s4, cond)) = lower_condition(s3.enter(head), *c) {
                let s5 = s4.step(
                    crate::ir::Inst::CondBranch {
                        cond,
                        then_block: body_block,
                        else_block: dest_block,
                    },
                );
                lemma_statement_keeps(s5.enter(body_block), *body);
            }
        },
        ASTInfo::ReturnStmt(Some(e)) => {
            lemma_expr_keeps(st, *e);
        },
        ASTInfo::AssignmentExpr(_, _) => {
            lemma_assignment_keeps(st, s);
        },
        ASTInfo::BinaryExpr(_, _, _) => {
            lemma_binary_keeps(st, s);
        },
        ASTInfo::CallExpr(_, _) => {
            lemma_call_keeps(st, s);
        },
        _ => {},
    }
}

/// The state in which the statement at `at` of a list is lowered, where
/// the statements from `from` on before it are lowered.
pub open spec fn before_statement(st: BuilderState, stmts: Seq<Ast>, from: int, at: int) -> Option<
    BuilderState,
>
    decreases at - from,
{
    if at <= from || from < 0 || from >= stmts.len() {
        Some(st)
    } else {
        match lower_stmt(st, stmts[from]) {
            Ok(s1) => before_statement(s1, stmts, from + 1, at),
            Err(_) => None,
        }
    }
}

/// Every statement of a block is lowered with the same names in sight: with
/// those that the declarations of the block left.
pub proof fn lemma_statements_see_the_same(st: BuilderState, stmts: Seq<Ast>, from: int, at: int)
    ensures
        before_statement(st, stmts, from, at) matches Some(s) ==> s.symbols == st.symbols,
    decreases at - from,
{
    if at <= from || from < 0 || from >= stmts.len() {
    } else {
        lemma_statement_keeps(st, stmts[from]);
        if let Ok(s1) = lower_stmt(st, stmts[from]) {
            lemma_statements_see_the_same(s1, stmts, from + 1, at);
        }
    }
}

/// Whether `name` stands for a pointer that the innermost scope binds.
pub open spec fn pointer_in_top(s: Symbols, name: Seq<char>) -> bool {
    &&& s.bound_in_top(name)
    &&& s.lookup_variable(name) matches Some(b) && b.ty == Type::IntPtr && b.name@ == name
}

/// A later declaration of the block leaves a pointer of the innermost scope
/// what it is: it cannot take its name.
pub proof fn lemma_declarations_keep_pointer(
    st: BuilderState,
    decls: Seq<Ast>,
    from: int,
    name: Seq<char>,
)
    requires
        pointer_in_top(st.symbols, name),
        0 <= st.symbols.top_start(),
    ensures
        lower_declarations(st, decls, from) matches Ok(s) ==> pointer_in_top(s.symbols, name),
    decreases decls.len() - from,
{
    if from < 0 || from >= decls.len() {
    } else {
        if let Ok(s1) = lower_declaration(st, decls[from]) {
            match decls[from].info {
                ASTInfo::VariableDec(_, other) => {
                    assert(other@ != name);
                    let before = st.symbols.locals;
                    let after = s1.symbols.locals;
                    assert(after.drop_last() =~= before);
                    assert(after.last().name@ == other@);
                    lemma_find_last(before, name, 0);
                    lemma_find_last(before, name, st.symbols.top_start());
                    assert(find_last(after, name, 0) == find_last(before, name, 0));
                    assert(find_last(after, name, st.symbols.top_start()) == find_last(
                        before,
                        name,
                        st.symbols.top_start(),
                    ));
                    assert(s1.symbols.top_start() == st.symbols.top_start());
                    let i = find_last(before, name, 0)->Some_0;
                    assert(after[i] == before[i]);
                },
                _ => {},
            }
            lemma_declarations_keep_pointer(s1, decls, from + 1, name);
        }
    }
}

/// Array decay: after the declaration of an array in a block, its name
/// stands for a pointer in every statement of the block, whatever the
/// block declares after it.
pub proof fn lemma_array_is_a_pointer_in_its_block(
    st: BuilderState,
    d: Ast,
    decls: Seq<Ast>,
    from: int,
    stmts: Seq<Ast>,
    at: int,
)
    requires
        d.info matches ASTInfo::VariableDec(Type::IntArray(_), _),
        0 <= st.symbols.top_start() <= st.symbols.locals.len(),
        lower_declaration(st, d) matches Ok(s1) && (lower_declarations(s1, decls, from) matches Ok(
            s2,
        ) && before_statement(s2, stmts, 0, at) is Some),
    ensures
        ({
            let name = d.info->VariableDec_1;
            let s1 = lower_declaration(st, d)->Ok_0;
            let s2 = lower_declarations(s1, decls, from)->Ok_0;
            let s3 = before_statement(s2, stmts, 0, at)->Some_0;
            &&& s3.symbols.lookup_variable(name@) matches Some(b)
            &&& b.ty == Type::IntPtr
            &&& b.name@ == name@
        }),
{
    let name = d.info->VariableDec_1;
    let s1 = lower_declaration(st, d)->Ok_0;
    assert(s1.symbols.locals.last().name@ == name@);
    assert(find_last(s1.symbols.locals, name@, 0) == Some(s1.symbols.locals.len() - 1));
    assert(find_last(s1.symbols.locals, name@, s1.symbols.top_start()) == Some(
        s1.symbols.locals.len() - 1,
    ));
    lemma_declarations_keep_pointer(s1, decls, from, name@);
    let s2 = lower_declarations(s1, decls, from)->Ok_0;
    lemma_statements_see_the_same(s2, stmts, 0, at);
}

} // verus!
