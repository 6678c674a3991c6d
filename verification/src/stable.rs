//! The listing of a program depends on the text of the program alone: two
//! lists of nodes that stand for the same syntax trees are lowered to the
//! same listing, or fail with the same error.
//!
//! Two nodes can stand for one tree and yet hold their names in different
//! strings; so "the same" means here: equal but for which strings hold the
//! names.
use vstd::prelude::*;
use crate::ast::{ASTInfo, Ast, Oprand, Type};
use crate::error::Error;
use crate::ir::{
    const_value, reg_value, slot_type, value_type, BlockKind, Inst, IrType, Pred, Value,
    ValueKind,
};
use crate::lower::{
    announce_params, apply_operator, as_integer, classify, implicit_return, lower_args,
    lower_assignment, lower_binary, lower_block, lower_call, lower_condition, lower_declaration,
    lower_declarations, lower_expr, lower_function, lower_global, lower_items, lower_program,
    lower_statements, lower_stmt, lower_variable, pass_args, prelude, spill_params, BuilderState,
    OpClass,
};
use crate::scope::{
    find_function, find_last, lemma_find_function, lemma_find_last, Binding, FunctionBinding,
    Symbols,
};
use crate::syntax::{params_of, tree_of, trees_of};

verus! {

/// Whether two steps are the same but for which strings hold their names.
pub open spec fn same_inst(a: Inst, b: Inst) -> bool {
    match (a, b) {
        (Inst::Extern { routine: r1 }, Inst::Extern { routine: r2 }) => r1 == r2,
        (Inst::Global { name: n1, ty: t1 }, Inst::Global { name: n2, ty: t2 }) => n1@ == n2@ && t1
            == t2,
        (Inst::Param { ty: t1, name: n1 }, Inst::Param { ty: t2, name: n2 }) => n1@ == n2@ && t1
            == t2,
        (
            Inst::Function { name: n1, ret: r1, params: pa },
            Inst::Function { name: n2, ret: r2, params: pb },
        ) => n1@ == n2@ && r1 == r2 && pa == pb,
        (Inst::Block { kind: k1, anchor: a1 }, Inst::Block { kind: k2, anchor: a2 }) => k1 == k2
            && a1 == a2,
        (Inst::Enter { block: b1 }, Inst::Enter { block: b2 }) => b1 == b2,
        (
            Inst::Alloca { dst: d1, ty: t1, name: n1 },
            Inst::Alloca { dst: d2, ty: t2, name: n2 },
        ) => d1 == d2 && t1 == t2 && match (n1, n2) {
            (Some(x), Some(y)) => x@ == y@,
            (None, None) => true,
            _ => false,
        },
        (Inst::Store { ptr: pa, value: v1 }, Inst::Store { ptr: pb, value: v2 }) => pa == pb && v1
            == v2,
        (Inst::Load { dst: d1, ptr: pa }, Inst::Load { dst: d2, ptr: pb }) => d1 == d2 && pa == pb,
        (
            Inst::ArrayStart { dst: d1, array: a1, name: n1 },
            Inst::ArrayStart { dst: d2, array: a2, name: n2 },
        ) => d1 == d2 && a1 == a2 && n1@ == n2@,
        (
            Inst::ElementPtr { dst: d1, base: b1, index: i1 },
            Inst::ElementPtr { dst: d2, base: b2, index: i2 },
        ) => d1 == d2 && b1 == b2 && i1 == i2,
        (Inst::PtrToInt { dst: d1, value: v1 }, Inst::PtrToInt { dst: d2, value: v2 }) => d1 == d2
            && v1 == v2,
        (
            Inst::Binary { dst: d1, op: o1, lhs: l1, rhs: r1 },
            Inst::Binary { dst: d2, op: o2, lhs: l2, rhs: r2 },
        ) => d1 == d2 && o1 == o2 && l1 == l2 && r1 == r2,
        (
            Inst::Compare { dst: d1, pred: o1, lhs: l1, rhs: r1 },
            Inst::Compare { dst: d2, pred: o2, lhs: l2, rhs: r2 },
        ) => d1 == d2 && o1 == o2 && l1 == l2 && r1 == r2,
        (Inst::Widen { dst: d1, value: v1 }, Inst::Widen { dst: d2, value: v2 }) => d1 == d2 && v1
            == v2,
        (Inst::Truncate { dst: d1, value: v1 }, Inst::Truncate { dst: d2, value: v2 }) => d1 == d2
            && v1 == v2,
        (Inst::Arg { value: v1 }, Inst::Arg { value: v2 }) => v1 == v2,
        (
            Inst::Call { dst: d1, callee: c1, args: a1, name: n1 },
            Inst::Call { dst: d2, callee: c2, args: a2, name: n2 },
        ) => d1 == d2 && c1 == c2 && a1 == a2 && n1@ == n2@,
        (Inst::Return { value: v1 }, Inst::Return { value: v2 }) => v1 == v2,
        (Inst::Branch { target: t1 }, Inst::Branch { target: t2 }) => t1 == t2,
        (
            Inst::CondBranch { cond: c1, then_block: t1, else_block: e1 },
            Inst::CondBranch { cond: c2, then_block: t2, else_block: e2 },
        ) => c1 == c2 && t1 == t2 && e1 == e2,
        _ => false,
    }
}

/// Whether two listings are the same but for which strings hold the names.
pub open spec fn same_code(a: Seq<Inst>, b: Seq<Inst>) -> bool {
    a.len() == b.len() && forall|i: int| 0 <= i < a.len() ==> same_inst(#[trigger] a[i], b[i])
}

/// Whether two variables are the same but for which string holds the name.
pub open spec fn same_binding(a: Binding, b: Binding) -> bool {
    a.name@ == b.name@ && a.ty == b.ty && a.slot == b.slot
}

/// Whether two lists of variables are the same in this sense.
pub open spec fn same_bindings(a: Seq<Binding>, b: Seq<Binding>) -> bool {
    a.len() == b.len() && forall|i: int| 0 <= i < a.len() ==> same_binding(#[trigger] a[i], b[i])
}

/// Whether two functions are the same but for which string holds the name.
pub open spec fn same_function(a: FunctionBinding, b: FunctionBinding) -> bool {
    a.name@ == b.name@ && a.ret == b.ret && a.index == b.index
}

/// Whether two lists of functions are the same in this sense.
pub open spec fn same_functions(a: Seq<FunctionBinding>, b: Seq<FunctionBinding>) -> bool {
    a.len() == b.len() && forall|i: int| 0 <= i < a.len() ==> same_function(#[trigger] a[i], b[i])
}

/// Whether two environments are the same in this sense.
pub open spec fn same_symbols(a: Symbols, b: Symbols) -> bool {
    &&& same_bindings(a.globals, b.globals)
    &&& same_functions(a.functions, b.functions)
    &&& same_bindings(a.locals, b.locals)
    &&& a.frames == b.frames
}

/// Whether two states of a lowering are the same in this sense.
pub open spec fn same_state(a: BuilderState, b: BuilderState) -> bool {
    &&& same_code(a.code, b.code)
    &&& a.regs == b.regs
    &&& a.blocks == b.blocks
    &&& same_symbols(a.symbols, b.symbols)
    &&& a.current_function == b.current_function
    &&& a.current_block == b.current_block
    &&& a.terminated == b.terminated
}

/// Whether two lowerings of an expression ended the same.
pub open spec fn same_value(
    a: Result<(BuilderState, Type, Value), (BuilderState, Error)>,
    b: Result<(BuilderState, Type, Value), (BuilderState, Error)>,
) -> bool {
    match (a, b) {
        (Ok((s1, t1, v1)), Ok((s2, t2, v2))) => same_state(s1, s2) && t1 == t2 && v1 == v2,
        (Err((s1, e1)), Err((s2, e2))) => same_state(s1, s2) && e1 == e2,
        _ => false,
    }
}

/// Whether two lowerings of a statement ended the same.
pub open spec fn same_end(a: Result<BuilderState, (BuilderState, Error)>, b: Result<BuilderState, (BuilderState, Error)>) -> bool {
    match (a, b) {
        (Ok(s1), Ok(s2)) => same_state(s1, s2),
        (Err((s1, e1)), Err((s2, e2))) => same_state(s1, s2) && e1 == e2,
        _ => false,
    }
}

/// The trees of a list are the trees of its nodes, one for one.
pub proof fn lemma_trees_index(items: Seq<Ast>, upto: int)
    requires
        0 <= upto <= items.len(),
    ensures
        trees_of(items, upto).len() == upto,
        forall|i: int| 0 <= i < upto ==> (#[trigger] trees_of(items, upto)[i]) == tree_of(items[i]),
    decreases upto,
{
    if upto > 0 {
        lemma_trees_index(items, upto - 1);
    }
}

/// The parameters of a list as values are its parameters, one for one.
pub proof fn lemma_params_index(params: Seq<(Type, String)>, upto: int)
    requires
        0 <= upto <= params.len(),
    ensures
        params_of(params, upto).len() == upto,
        forall|i: int|
            0 <= i < upto ==> (#[trigger] params_of(params, upto)[i]) == (
                params[i].0,
                params[i].1@,
            ),
    decreases upto,
{
    if upto > 0 {
        lemma_params_index(params, upto - 1);
    }
}

/// In lists of variables that are the same, a name is found at the same
/// place.
pub proof fn lemma_same_find_last(
    a: Seq<Binding>,
    b: Seq<Binding>,
    n1: Seq<char>,
    n2: Seq<char>,
    from: int,
)
    requires
        same_bindings(a, b),
        n1 == n2,
    ensures
        find_last(a, n1, from) == find_last(b, n2, from),
    decreases a.len(),
{
    if a.len() == 0 || a.len() <= from {
    } else {
        assert(same_binding(a[a.len() - 1], b[b.len() - 1]));
        if a.last().name@ != n1 {
            assert(same_bindings(a.drop_last(), b.drop_last())) by {
                assert forall|i: int| 0 <= i < a.drop_last().len() implies same_binding(
                    #[trigger] a.drop_last()[i],
                    b.drop_last()[i],
                ) by {
                    assert(same_binding(a[i], b[i]));
                }
            }
            lemma_same_find_last(a.drop_last(), b.drop_last(), n1, n2, from);
        }
    }
}

/// In lists of functions that are the same, a name is found at the same
/// place.
pub proof fn lemma_same_find_function(
    a: Seq<FunctionBinding>,
    b: Seq<FunctionBinding>,
    name: Seq<char>,
)
    requires
        same_functions(a, b),
    ensures
        find_function(a, name) == find_function(b, name),
    decreases a.len(),
{
    if a.len() == 0 {
    } else {
        assert(same_function(a[a.len() - 1], b[b.len() - 1]));
        if a.last().name@ != name {
            assert(same_functions(a.drop_last(), b.drop_last())) by {
                assert forall|i: int| 0 <= i < a.drop_last().len() implies same_function(
                    #[trigger] a.drop_last()[i],
                    b.drop_last()[i],
                ) by {
                    assert(same_function(a[i], b[i]));
                }
            }
            lemma_same_find_function(a.drop_last(), b.drop_last(), name);
        }
    }
}

/// In environments that are the same, a name stands for the same variable
/// and for the same function, and is taken or free alike.
pub proof fn lemma_same_lookup(a: Symbols, b: Symbols, name: Seq<char>)
    requires
        same_symbols(a, b),
    ensures
        match (a.lookup_variable(name), b.lookup_variable(name)) {
            (Some(x), Some(y)) => same_binding(x, y),
            (None, None) => true,
            _ => false,
        },
        a.lookup_function(name) == b.lookup_function(name),
        a.taken_globally(name) == b.taken_globally(name),
        a.bound_in_top(name) == b.bound_in_top(name),
        find_last(a.locals, name, a.top_start()) == find_last(b.locals, name, b.top_start()),
{
    lemma_same_find_last(a.locals, b.locals, name, name, 0);
    lemma_same_find_last(a.locals, b.locals, name, name, a.top_start());
    lemma_same_find_last(a.globals, b.globals, name, name, 0);
    lemma_same_find_function(a.functions, b.functions, name);
    lemma_find_last(a.locals, name, 0);
    lemma_find_last(a.globals, name, 0);
    lemma_find_function(a.functions, name);
    match find_last(a.locals, name, 0) {
        Some(i) => {
            assert(same_binding(a.locals[i], b.locals[i]));
        },
        None => match find_last(a.globals, name, 0) {
            Some(i) => {
                assert(same_binding(a.globals[i], b.globals[i]));
            },
            None => {},
        },
    }
    match find_function(a.functions, name) {
        Some(i) => {
            assert(same_function(a.functions[i], b.functions[i]));
        },
        None => {},
    }
}

/// States that are the same stay so when each takes one of two steps that
/// are the same.
pub proof fn lemma_same_push(a: BuilderState, b: BuilderState, x: Inst, y: Inst)
    requires
        same_state(a, b),
        same_inst(x, y),
    ensures
        same_code(a.code.push(x), b.code.push(y)),
        same_state(a.note(x), b.note(y)),
        same_state(a.step(x), b.step(y)),
        same_state(a.define(x), b.define(y)),
{
    assert forall|i: int| 0 <= i < a.code.push(x).len() implies same_inst(
        #[trigger] a.code.push(x)[i],
        b.code.push(y)[i],
    ) by {
        if i < a.code.len() {
            assert(same_inst(a.code[i], b.code[i]));
        }
    }
}

/// A cast to an integer keeps states the same.
pub proof fn lemma_same_as_integer(a: BuilderState, b: BuilderState, ty: Type, v: Value)
    requires
        same_state(a, b),
    ensures
        same_state(as_integer(a, ty, v).0, as_integer(b, ty, v).0),
        as_integer(a, ty, v).1 == as_integer(b, ty, v).1,
{
    if ty == Type::IntPtr {
        lemma_same_push(
            a,
            b,
            Inst::PtrToInt { dst: a.next_reg(), value: v },
            Inst::PtrToInt { dst: b.next_reg(), value: v },
        );
    }
}

/// An operator keeps states the same.
pub proof fn lemma_same_operator(a: BuilderState, b: BuilderState, op: Oprand, x: Value, y: Value)
    requires
        same_state(a, b),
    ensures
        same_state(apply_operator(a, op, x, y).0, apply_operator(b, op, x, y).0),
        apply_operator(a, op, x, y).1 == apply_operator(b, op, x, y).1,
{
    match classify(op) {
        OpClass::Arith(ar) => {
            lemma_same_push(
                a,
                b,
                Inst::Binary { dst: a.next_reg(), op: ar, lhs: x, rhs: y },
                Inst::Binary { dst: b.next_reg(), op: ar, lhs: x, rhs: y },
            );
        },
        OpClass::Compare(pred) => {
            let i1 = Inst::Compare { dst: a.next_reg(), pred, lhs: x, rhs: y };
            let j1 = Inst::Compare { dst: b.next_reg(), pred, lhs: x, rhs: y };
            lemma_same_push(a, b, i1, j1);
            let a1 = a.define(i1);
            let b1 = b.define(j1);
            lemma_same_push(
                a1,
                b1,
                Inst::Widen { dst: a1.next_reg(), value: reg_value(a.regs, IrType::I1) },
                Inst::Widen { dst: b1.next_reg(), value: reg_value(b.regs, IrType::I1) },
            );
        },
        OpClass::Logical(ar) => {
            let i1 = Inst::Binary { dst: a.next_reg(), op: ar, lhs: x, rhs: y };
            let j1 = Inst::Binary { dst: b.next_reg(), op: ar, lhs: x, rhs: y };
            lemma_same_push(a, b, i1, j1);
            let a1 = a.define(i1);
            let b1 = b.define(j1);
            let i2 = Inst::Compare {
                dst: a1.next_reg(),
                pred: Pred::Ne,
                lhs: reg_value(a.regs, IrType::I32),
                rhs: const_value(0),
            };
            let j2 = Inst::Compare {
                dst: b1.next_reg(),
                pred: Pred::Ne,
                lhs: reg_value(b.regs, IrType::I32),
                rhs: const_value(0),
            };
            lemma_same_push(a1, b1, i2, j2);
            let a2 = a1.define(i2);
            let b2 = b1.define(j2);
            lemma_same_push(
                a2,
                b2,
                Inst::Widen { dst: a2.next_reg(), value: reg_value(a1.regs, IrType::I1) },
                Inst::Widen { dst: b2.next_reg(), value: reg_value(b1.regs, IrType::I1) },
            );
        },
    }
}

/// Passing the same values as arguments keeps states the same.
pub proof fn lemma_same_pass_args(a: BuilderState, b: BuilderState, values: Seq<Value>, from: int)
    requires
        same_state(a, b),
    ensures
        same_state(pass_args(a, values, from), pass_args(b, values, from)),
    decreases values.len() - from,
{
    if from < 0 || from >= values.len() {
    } else {
        let x = Inst::Arg { value: values[from] };
        lemma_same_push(a, b, x, x);
        lemma_same_pass_args(a.note(x), b.note(x), values, from + 1);
    }
}

/// Whether two lowerings of a list of arguments ended the same.
pub open spec fn same_values(
    a: Result<(BuilderState, Seq<Value>), (BuilderState, Error)>,
    b: Result<(BuilderState, Seq<Value>), (BuilderState, Error)>,
) -> bool {
    match (a, b) {
        (Ok((s1, v1)), Ok((s2, v2))) => same_state(s1, s2) && v1 == v2,
        (Err((s1, e1)), Err((s2, e2))) => same_state(s1, s2) && e1 == e2,
        _ => false,
    }
}

/// Variables that stand for the same tree denote the same address.
pub proof fn lemma_same_variable(a: BuilderState, b: BuilderState, e1: Ast, e2: Ast)
    requires
        same_state(a, b),
        tree_of(e1) == tree_of(e2),
    ensures
        same_value(lower_variable(a, e1), lower_variable(b, e2)),
    decreases e1, 0nat,
{
    match (e1.info, e2.info) {
        (ASTInfo::Variable(n1, x1), ASTInfo::Variable(n2, x2)) => {
            lemma_same_lookup(a.symbols, b.symbols, n1@);
            match (a.symbols.lookup_variable(n1@), b.symbols.lookup_variable(n2@)) {
                (Some(v1), Some(v2)) => {
                    if v1.ty == Type::IntPtr {
                        match (x1, x2) {
                            (Some(i1), Some(i2)) => {
                                lemma_same_expr(a, b, *i1, *i2);
                                match (lower_expr(a, *i1), lower_expr(b, *i2)) {
                                    (Ok((s1, t1, iv1)), Ok((s2, t2, iv2))) => {
                                        if t1 == Type::Int {
                                            let l1 = Inst::Load { dst: s1.next_reg(), ptr: v1.slot };
                                            let l2 = Inst::Load { dst: s2.next_reg(), ptr: v2.slot };
                                            lemma_same_push(s1, s2, l1, l2);
                                            let pa = s1.define(l1);
                                            let pb = s2.define(l2);
                                            lemma_same_push(
                                                pa,
                                                pb,
                                                Inst::ElementPtr {
                                                    dst: pa.next_reg(),
                                                    base: reg_value(s1.regs, IrType::Ptr),
                                                    index: iv1,
                                                },
                                                Inst::ElementPtr {
                                                    dst: pb.next_reg(),
                                                    base: reg_value(s2.regs, IrType::Ptr),
                                                    index: iv2,
                                                },
                                            );
                                        }
                                    },
                                    _ => {},
                                }
                            },
                            _ => {},
                        }
                    }
                },
                _ => {},
            }
        },
        _ => {},
    }
}

/// Assignments that stand for the same tree are lowered the same.
pub proof fn lemma_same_assignment(a: BuilderState, b: BuilderState, e1: Ast, e2: Ast)
    requires
        same_state(a, b),
        tree_of(e1) == tree_of(e2),
    ensures
        same_value(lower_assignment(a, e1), lower_assignment(b, e2)),
    decreases e1, 0nat,
{
    match (e1.info, e2.info) {
        (ASTInfo::AssignmentExpr(x1, r1), ASTInfo::AssignmentExpr(x2, r2)) => {
            lemma_same_variable(a, b, *x1, *x2);
            match (lower_variable(a, *x1), lower_variable(b, *x2)) {
                (Ok((s1, lt1, pa)), Ok((s2, lt2, pb))) => {
                    lemma_same_expr(s1, s2, *r1, *r2);
                    match (lower_expr(s1, *r1), lower_expr(s2, *r2)) {
                        (Ok((u1, rt1, v1)), Ok((u2, rt2, v2))) => {
                            lemma_same_push(
                                u1,
                                u2,
                                Inst::Store { ptr: pa, value: v1 },
                                Inst::Store { ptr: pb, value: v2 },
                            );
                        },
                        _ => {},
                    }
                },
                _ => {},
            }
        },
        _ => {},
    }
}

/// Binary expressions that stand for the same tree are lowered the same.
pub proof fn lemma_same_binary(a: BuilderState, b: BuilderState, e1: Ast, e2: Ast)
    requires
        same_state(a, b),
        tree_of(e1) == tree_of(e2),
    ensures
        same_value(lower_binary(a, e1), lower_binary(b, e2)),
    decreases e1, 0nat,
{
    match (e1.info, e2.info) {
        (ASTInfo::BinaryExpr(op1, l1, r1), ASTInfo::BinaryExpr(op2, l2, r2)) => {
            lemma_same_expr(a, b, *l1, *l2);
            match (lower_expr(a, *l1), lower_expr(b, *l2)) {
                (Ok((s1, lt1, lv1)), Ok((s2, lt2, lv2))) => {
                    lemma_same_expr(s1, s2, *r1, *r2);
                    match (lower_expr(s1, *r1), lower_expr(s2, *r2)) {
                        (Ok((u1, rt1, rv1)), Ok((u2, rt2, rv2))) => {
                            lemma_same_as_integer(u1, u2, lt1, lv1);
                            let (w1, x1) = as_integer(u1, lt1, lv1);
                            let (w2, x2) = as_integer(u2, lt2, lv2);
                            lemma_same_as_integer(w1, w2, rt1, rv1);
                            let (z1, y1) = as_integer(w1, rt1, rv1);
                            let (z2, y2) = as_integer(w2, rt2, rv2);
                            lemma_same_operator(z1, z2, op1, x1, y1);
                        },
                        _ => {},
                    }
                },
                _ => {},
            }
        },
        _ => {},
    }
}

/// Lists of arguments that stand for the same trees are lowered the same.
pub proof fn lemma_same_args(
    a: BuilderState,
    b: BuilderState,
    args1: Seq<Ast>,
    args2: Seq<Ast>,
    from: int,
    done: Seq<Value>,
)
    requires
        same_state(a, b),
        trees_of(args1, args1.len() as int) == trees_of(args2, args2.len() as int),
    ensures
        same_values(lower_args(a, args1, from, done), lower_args(b, args2, from, done)),
    decreases args1, args1.len() - from,
{
    lemma_trees_index(args1, args1.len() as int);
    lemma_trees_index(args2, args2.len() as int);
    if from < 0 || from >= args1.len() {
    } else {
        assert(trees_of(args1, args1.len() as int)[from] == tree_of(args1[from]));
        assert(trees_of(args2, args2.len() as int)[from] == tree_of(args2[from]));
        lemma_same_expr(a, b, args1[from], args2[from]);
        match (lower_expr(a, args1[from]), lower_expr(b, args2[from])) {
            (Ok((s1, _, v1)), Ok((s2, _, v2))) => {
                lemma_same_args(s1, s2, args1, args2, from + 1, done.push(v1));
            },
            _ => {},
        }
    }
}

/// Calls that stand for the same tree are lowered the same.
pub proof fn lemma_same_call(a: BuilderState, b: BuilderState, e1: Ast, e2: Ast)
    requires
        same_state(a, b),
        tree_of(e1) == tree_of(e2),
    ensures
        same_value(lower_call(a, e1), lower_call(b, e2)),
    decreases e1, 0nat,
{
    match (e1.info, e2.info) {
        (ASTInfo::CallExpr(n1, args1), ASTInfo::CallExpr(n2, args2)) => {
            lemma_same_lookup(a.symbols, b.symbols, n1@);
            match a.symbols.lookup_function(n1@) {
                Some((ret, callee)) => {
                    lemma_same_args(a, b, args1@, args2@, 0, Seq::empty());
                    match (
                        lower_args(a, args1@, 0, Seq::empty()),
                        lower_args(b, args2@, 0, Seq::empty()),
                    ) {
                        (Ok((s1, values1)), Ok((s2, values2))) => {
                            lemma_same_pass_args(s1, s2, values1, 0);
                            let pa = pass_args(s1, values1, 0);
                            let pb = pass_args(s2, values2, 0);
                            if ret == Type::Void {
                                lemma_same_push(
                                    pa,
                                    pb,
                                    Inst::Call {
                                        dst: None,
                                        callee,
                                        args: values1.len() as usize,
                                        name: n1,
                                    },
                                    Inst::Call {
                                        dst: None,
                                        callee,
                                        args: values2.len() as usize,
                                        name: n2,
                                    },
                                );
                            } else {
                                lemma_same_push(
                                    pa,
                                    pb,
                                    Inst::Call {
                                        dst: Some(pa.next_reg()),
                                        callee,
                                        args: values1.len() as usize,
                                        name: n1,
                                    },
                                    Inst::Call {
                                        dst: Some(pb.next_reg()),
                                        callee,
                                        args: values2.len() as usize,
                                        name: n2,
                                    },
                                );
                            }
                        },
                        _ => {},
                    }
                },
                None => {},
            }
        },
        _ => {},
    }
}

/// Expressions that stand for the same tree are lowered the same.
pub proof fn lemma_same_expr(a: BuilderState, b: BuilderState, e1: Ast, e2: Ast)
    requires
        same_state(a, b),
        tree_of(e1) == tree_of(e2),
    ensures
        same_value(lower_expr(a, e1), lower_expr(b, e2)),
    decreases e1, 1nat,
{
    match e1.info {
        ASTInfo::AssignmentExpr(_, _) => {
            lemma_same_assignment(a, b, e1, e2);
        },
        ASTInfo::BinaryExpr(_, _, _) => {
            lemma_same_binary(a, b, e1, e2);
        },
        ASTInfo::CallExpr(_, _) => {
            lemma_same_call(a, b, e1, e2);
        },
        ASTInfo::Variable(_, _) => {
            lemma_same_variable(a, b, e1, e2);
            match (lower_variable(a, e1), lower_variable(b, e2)) {
                (Ok((s1, t1, pa)), Ok((s2, t2, pb))) => {
                    lemma_same_push(
                        s1,
                        s2,
                        Inst::Load { dst: s1.next_reg(), ptr: pa },
                        Inst::Load { dst: s2.next_reg(), ptr: pb },
                    );
                },
                _ => {},
            }
        },
        _ => {},
    }
}

/// Opening and leaving a scope keeps environments the same.
pub proof fn lemma_same_scopes(a: Symbols, b: Symbols)
    requires
        same_symbols(a, b),
    ensures
        same_symbols(a.push_scope(), b.push_scope()),
        same_symbols(a.pop_scope(), b.pop_scope()),
{
    let x = a.pop_scope();
    let y = b.pop_scope();
    assert forall|i: int| 0 <= i < x.locals.len() implies same_binding(
        #[trigger] x.locals[i],
        y.locals[i],
    ) by {
        assert(same_binding(a.locals[i], b.locals[i]));
    }
}

/// Binding variables that are the same keeps environments the same.
pub proof fn lemma_same_declare(a: Symbols, b: Symbols, x: Binding, y: Binding)
    requires
        same_symbols(a, b),
        same_binding(x, y),
    ensures
        same_symbols(a.declare_local(x), b.declare_local(y)),
        same_symbols(a.declare_global_var(x), b.declare_global_var(y)),
{
    let p = a.declare_local(x);
    let q = b.declare_local(y);
    assert forall|i: int| 0 <= i < p.locals.len() implies same_binding(
        #[trigger] p.locals[i],
        q.locals[i],
    ) by {
        if i < a.locals.len() {
            assert(same_binding(a.locals[i], b.locals[i]));
        }
    }
    let p = a.declare_global_var(x);
    let q = b.declare_global_var(y);
    assert forall|i: int| 0 <= i < p.globals.len() implies same_binding(
        #[trigger] p.globals[i],
        q.globals[i],
    ) by {
        if i < a.globals.len() {
            assert(same_binding(a.globals[i], b.globals[i]));
        }
    }
}

/// Adding functions that are the same keeps environments the same.
pub proof fn lemma_same_declare_function(
    a: Symbols,
    b: Symbols,
    x: FunctionBinding,
    y: FunctionBinding,
)
    requires
        same_symbols(a, b),
        same_function(x, y),
    ensures
        same_symbols(a.declare_function(x), b.declare_function(y)),
{
    let p = a.declare_function(x);
    let q = b.declare_function(y);
    assert forall|i: int| 0 <= i < p.functions.len() implies same_function(
        #[trigger] p.functions[i],
        q.functions[i],
    ) by {
        if i < a.functions.len() {
            assert(same_function(a.functions[i], b.functions[i]));
        }
    }
}

/// Making and entering blocks keeps states the same.
pub proof fn lemma_same_blocks(a: BuilderState, b: BuilderState, kind: BlockKind, n: usize)
    requires
        same_state(a, b),
    ensures
        same_state(a.block(kind, n), b.block(kind, n)),
        same_state(a.enter(n), b.enter(n)),
        same_state(a.fall_through(n), b.fall_through(n)),
{
    lemma_same_push(a, b, Inst::Block { kind, anchor: n }, Inst::Block { kind, anchor: n });
    lemma_same_push(a, b, Inst::Enter { block: n }, Inst::Enter { block: n });
    lemma_same_push(a, b, Inst::Branch { target: n }, Inst::Branch { target: n });
}

/// Whether two lowerings of a condition ended the same.
pub open spec fn same_condition(
    a: Result<(BuilderState, Value), (BuilderState, Error)>,
    b: Result<(BuilderState, Value), (BuilderState, Error)>,
) -> bool {
    match (a, b) {
        (Ok((s1, v1)), Ok((s2, v2))) => same_state(s1, s2) && v1 == v2,
        (Err((s1, e1)), Err((s2, e2))) => same_state(s1, s2) && e1 == e2,
        _ => false,
    }
}

/// Conditions that stand for the same tree are lowered the same.
pub proof fn lemma_same_condition(a: BuilderState, b: BuilderState, c1: Ast, c2: Ast)
    requires
        same_state(a, b),
        tree_of(c1) == tree_of(c2),
    ensures
        same_condition(lower_condition(a, c1), lower_condition(b, c2)),
{
    lemma_same_expr(a, b, c1, c2);
    match (lower_expr(a, c1), lower_expr(b, c2)) {
        (Ok((s1, t1, v1)), Ok((s2, t2, v2))) => {
            lemma_same_push(
                s1,
                s2,
                Inst::Truncate { dst: s1.next_reg(), value: v1 },
                Inst::Truncate { dst: s2.next_reg(), value: v2 },
            );
        },
        _ => {},
    }
}

/// Declarations that stand for the same tree are lowered the same.
pub proof fn lemma_same_declaration(a: BuilderState, b: BuilderState, d1: Ast, d2: Ast)
    requires
        same_state(a, b),
        tree_of(d1) == tree_of(d2),
    ensures
        same_end(lower_declaration(a, d1), lower_declaration(b, d2)),
{
    match (d1.info, d2.info) {
        (ASTInfo::VariableDec(ty, n1), ASTInfo::VariableDec(_, n2)) => {
            lemma_same_lookup(a.symbols, b.symbols, n1@);
            if !a.symbols.bound_in_top(n1@) {
                let i1 = Inst::Alloca { dst: a.next_reg(), ty: value_type(ty), name: Some(n1) };
                let j1 = Inst::Alloca { dst: b.next_reg(), ty: value_type(ty), name: Some(n2) };
                lemma_same_push(a, b, i1, j1);
                let a1 = a.define(i1);
                let b1 = b.define(j1);
                let slot = reg_value(a.regs, slot_type(ty));
                if ty is IntArray {
                    let i2 = Inst::Alloca { dst: a1.next_reg(), ty: IrType::Ptr, name: Some(n1) };
                    let j2 = Inst::Alloca { dst: b1.next_reg(), ty: IrType::Ptr, name: Some(n2) };
                    lemma_same_push(a1, b1, i2, j2);
                    let a2 = a1.define(i2);
                    let b2 = b1.define(j2);
                    let decayed = reg_value(a1.regs, IrType::PtrPtr);
                    let i3 = Inst::ArrayStart { dst: a2.next_reg(), array: slot, name: n1 };
                    let j3 = Inst::ArrayStart { dst: b2.next_reg(), array: slot, name: n2 };
                    lemma_same_push(a2, b2, i3, j3);
                    let a3 = a2.define(i3);
                    let b3 = b2.define(j3);
                    let i4 = Inst::Store { ptr: decayed, value: reg_value(a2.regs, IrType::Ptr) };
                    lemma_same_push(a3, b3, i4, i4);
                    let a4 = a3.step(i4);
                    let b4 = b3.step(i4);
                    lemma_same_declare(
                        a4.symbols,
                        b4.symbols,
                        Binding { name: n1, ty: Type::IntPtr, slot: decayed },
                        Binding { name: n2, ty: Type::IntPtr, slot: decayed },
                    );
                } else {
                    lemma_same_declare(
                        a1.symbols,
                        b1.symbols,
                        Binding { name: n1, ty, slot },
                        Binding { name: n2, ty, slot },
                    );
                }
            }
        },
        _ => {},
    }
}

/// Lists of declarations that stand for the same trees are lowered the
/// same.
pub proof fn lemma_same_declarations(
    a: BuilderState,
    b: BuilderState,
    d1: Seq<Ast>,
    d2: Seq<Ast>,
    from: int,
)
    requires
        same_state(a, b),
        trees_of(d1, d1.len() as int) == trees_of(d2, d2.len() as int),
    ensures
        same_end(lower_declarations(a, d1, from), lower_declarations(b, d2, from)),
    decreases d1.len() - from,
{
    lemma_trees_index(d1, d1.len() as int);
    lemma_trees_index(d2, d2.len() as int);
    if from < 0 || from >= d1.len() {
    } else {
        assert(trees_of(d1, d1.len() as int)[from] == tree_of(d1[from]));
        assert(trees_of(d2, d2.len() as int)[from] == tree_of(d2[from]));
        lemma_same_declaration(a, b, d1[from], d2[from]);
        match (lower_declaration(a, d1[from]), lower_declaration(b, d2[from])) {
            (Ok(s1), Ok(s2)) => {
                lemma_same_declarations(s1, s2, d1, d2, from + 1);
            },
            _ => {},
        }
    }
}

/// Lists of statements that stand for the same trees are lowered the same.
pub proof fn lemma_same_statements(
    a: BuilderState,
    b: BuilderState,
    t1: Seq<Ast>,
    t2: Seq<Ast>,
    from: int,
)
    requires
        same_state(a, b),
        trees_of(t1, t1.len() as int) == trees_of(t2, t2.len() as int),
    ensures
        same_end(lower_statements(a, t1, from), lower_statements(b, t2, from)),
    decreases t1, t1.len() - from,
{
    lemma_trees_index(t1, t1.len() as int);
    lemma_trees_index(t2, t2.len() as int);
    if from < 0 || from >= t1.len() {
    } else {
        assert(trees_of(t1, t1.len() as int)[from] == tree_of(t1[from]));
        assert(trees_of(t2, t2.len() as int)[from] == tree_of(t2[from]));
        lemma_same_stmt(a, b, t1[from], t2[from]);
        match (lower_stmt(a, t1[from]), lower_stmt(b, t2[from])) {
            (Ok(s1), Ok(s2)) => {
                lemma_same_statements(s1, s2, t1, t2, from + 1);
            },
            _ => {},
        }
    }
}

/// Blocks that stand for the same tree are lowered the same.
pub proof fn lemma_same_block(a: BuilderState, b: BuilderState, s1: Ast, s2: Ast)
    requires
        same_state(a, b),
        tree_of(s1) == tree_of(s2),
    ensures
        same_end(lower_block(a, s1), lower_block(b, s2)),
    decreases s1, 0nat,
{
    match (s1.info, s2.info) {
        (ASTInfo::BlockStmt(d1, t1), ASTInfo::BlockStmt(d2, t2)) => {
            lemma_same_scopes(a.symbols, b.symbols);
            let a1 = a.with_symbols(a.symbols.push_scope());
            let b1 = b.with_symbols(b.symbols.push_scope());
            lemma_same_declarations(a1, b1, d1@, d2@, 0);
            match (lower_declarations(a1, d1@, 0), lower_declarations(b1, d2@, 0)) {
                (Ok(a2), Ok(b2)) => {
                    lemma_same_statements(a2, b2, t1@, t2@, 0);
                    match (lower_statements(a2, t1@, 0), lower_statements(b2, t2@, 0)) {
                        (Ok(a3), Ok(b3)) => {
                            lemma_same_scopes(a3.symbols, b3.symbols);
                        },
                        (Err((a3, _)), Err((b3, _))) => {
                            lemma_same_scopes(a3.symbols, b3.symbols);
                        },
                        _ => {},
                    }
                },
                (Err((a2, _)), Err((b2, _))) => {
                    lemma_same_scopes(a2.symbols, b2.symbols);
                },
                _ => {},
            }
        },
        _ => {},
    }
}

/// Selections that stand for the same tree are lowered the same.
#[verifier::rlimit(60)]
pub proof fn lemma_same_selection(a: BuilderState, b: BuilderState, s1: Ast, s2: Ast)
    requires
        same_state(a, b),
        tree_of(s1) == tree_of(s2),
        s1.info is SelectionStmt,
    ensures
        same_end(lower_stmt(a, s1), lower_stmt(b, s2)),
    decreases s1, 0nat,
{
    match (s1.info, s2.info) {
        (ASTInfo::SelectionStmt(c1, t1, e1), ASTInfo::SelectionStmt(c2, t2, e2)) => {
            lemma_same_condition(a, b, *c1, *c2);
            match (lower_condition(a, *c1), lower_condition(b, *c2)) {
                (Ok((a1, cond)), Ok((b1, _))) => {
                    let then_block = a1.next_block();
                    lemma_same_blocks(a1, b1, BlockKind::Then, a1.current_block as usize);
                    let a2 = a1.block(BlockKind::Then, a1.current_block as usize);
                    let b2 = b1.block(BlockKind::Then, b1.current_block as usize);
                    let dest_block = a2.next_block();
                    lemma_same_blocks(a2, b2, BlockKind::IfDest, then_block);
                    let a3 = a2.block(BlockKind::IfDest, then_block);
                    let b3 = b2.block(BlockKind::IfDest, then_block);
                    match (e1, e2) {
                        (Some(x1), Some(x2)) => {
                            let else_block = a3.next_block();
                            lemma_same_blocks(a3, b3, BlockKind::Else, dest_block);
                            let a4 = a3.block(BlockKind::Else, dest_block);
                            let b4 = b3.block(BlockKind::Else, dest_block);
                            let br = Inst::CondBranch { cond, then_block, else_block };
                            lemma_same_push(a4, b4, br, br);
                            let a5 = a4.step(br);
                            let b5 = b4.step(br);
                            lemma_same_blocks(a5, b5, BlockKind::Then, then_block);
                            lemma_same_stmt(a5.enter(then_block), b5.enter(then_block), *t1, *t2);
                            match (
                                lower_stmt(a5.enter(then_block), *t1),
                                lower_stmt(b5.enter(then_block), *t2),
                            ) {
                                (Ok(a6), Ok(b6)) => {
                                    lemma_same_blocks(a6, b6, BlockKind::Then, dest_block);
                                    let a7 = a6.fall_through(dest_block);
                                    let b7 = b6.fall_through(dest_block);
                                    lemma_same_blocks(a7, b7, BlockKind::Then, else_block);
                                    lemma_same_stmt(
                                        a7.enter(else_block),
                                        b7.enter(else_block),
                                        *x1,
                                        *x2,
                                    );
                                    match (
                                        lower_stmt(a7.enter(else_block), *x1),
                                        lower_stmt(b7.enter(else_block), *x2),
                                    ) {
                                        (Ok(a8), Ok(b8)) => {
                                            lemma_same_blocks(a8, b8, BlockKind::Then, dest_block);
                                            lemma_same_blocks(
                                                a8.fall_through(dest_block),
                                                b8.fall_through(dest_block),
                                                BlockKind::Then,
                                                dest_block,
                                            );
                                        },
                                        _ => {},
                                    }
                                },
                                _ => {},
                            }
                        },
                        (None, None) => {
                            let br = Inst::CondBranch { cond, then_block, else_block: dest_block };
                            lemma_same_push(a3, b3, br, br);
                            let a5 = a3.step(br);
                            let b5 = b3.step(br);
                            lemma_same_blocks(a5, b5, BlockKind::Then, then_block);
                            lemma_same_stmt(a5.enter(then_block), b5.enter(then_block), *t1, *t2);
                            match (
                                lower_stmt(a5.enter(then_block), *t1),
                                lower_stmt(b5.enter(then_block), *t2),
                            ) {
                                (Ok(a6), Ok(b6)) => {
                                    lemma_same_blocks(a6, b6, BlockKind::Then, dest_block);
                                    lemma_same_blocks(
                                        a6.fall_through(dest_block),
                                        b6.fall_through(dest_block),
                                        BlockKind::Then,
                                        dest_block,
                                    );
                                },
                                _ => {},
                            }
                        },
                        _ => {},
                    }
                },
                _ => {},
            }
        },
        _ => {},
    }
}

/// Loops that stand for the same tree are lowered the same.
#[verifier::rlimit(60)]
pub proof fn lemma_same_iteration(a: BuilderState, b: BuilderState, s1: Ast, s2: Ast)
    requires
        same_state(a, b),
        tree_of(s1) == tree_of(s2),
        s1.info is IterationStmt,
    ensures
        same_end(lower_stmt(a, s1), lower_stmt(b, s2)),
    decreases s1, 0nat,
{
    match (s1.info, s2.info) {
        (ASTInfo::IterationStmt(c1, body1), ASTInfo::IterationStmt(c2, body2)) => {
            let head = a.next_block();
            lemma_same_blocks(a, b, BlockKind::LoopHead, a.current_block as usize);
            let a0 = a.block(BlockKind::LoopHead, a.current_block as usize);
            let b0 = b.block(BlockKind::LoopHead, b.current_block as usize);
            let jump = Inst::Branch { target: head };
            lemma_same_push(a0, b0, jump, jump);
            let a1 = a0.step(jump);
            let b1 = b0.step(jump);
            let body_block = a1.next_block();
            lemma_same_blocks(a1, b1, BlockKind::LoopBody, head);
            let a2 = a1.block(BlockKind::LoopBody, head);
            let b2 = b1.block(BlockKind::LoopBody, head);
            let dest_block = a2.next_block();
            lemma_same_blocks(a2, b2, BlockKind::LoopDest, body_block);
            let a3 = a2.block(BlockKind::LoopDest, body_block);
            let b3 = b2.block(BlockKind::LoopDest, body_block);
            lemma_same_blocks(a3, b3, BlockKind::LoopHead, head);
            lemma_same_condition(a3.enter(head), b3.enter(head), *c1, *c2);
            match (lower_condition(a3.enter(head), *c1), lower_condition(b3.enter(head), *c2)) {
                (Ok((a4, cond)), Ok((b4, _))) => {
                    let br = Inst::CondBranch {
                        cond,
                        then_block: body_block,
                        else_block: dest_block,
                    };
                    lemma_same_push(a4, b4, br, br);
                    let a5 = a4.step(br);
                    let b5 = b4.step(br);
                    lemma_same_blocks(a5, b5, BlockKind::LoopBody, body_block);
                    lemma_same_stmt(a5.enter(body_block), b5.enter(body_block), *body1, *body2);
                    match (
                        lower_stmt(a5.enter(body_block), *body1),
                        lower_stmt(b5.enter(body_block), *body2),
                    ) {
                        (Ok(a6), Ok(b6)) => {
                            lemma_same_blocks(a6, b6, BlockKind::LoopBody, head);
                            lemma_same_blocks(
                                a6.fall_through(head),
                                b6.fall_through(head),
                                BlockKind::LoopDest,
                                dest_block,
                            );
                        },
                        _ => {},
                    }
                },
                _ => {},
            }
        },
        _ => {},
    }
}

/// Statements that stand for the same tree are lowered the same.
pub proof fn lemma_same_stmt(a: BuilderState, b: BuilderState, s1: Ast, s2: Ast)
    requires
        same_state(a, b),
        tree_of(s1) == tree_of(s2),
    ensures
        same_end(lower_stmt(a, s1), lower_stmt(b, s2)),
    decreases s1, 1nat,
{
    match (s1.info, s2.info) {
        (ASTInfo::BlockStmt(_, _), ASTInfo::BlockStmt(_, _)) => {
            lemma_same_block(a, b, s1, s2);
        },
        (ASTInfo::SelectionStmt(_, _, _), ASTInfo::SelectionStmt(_, _, _)) => {
            lemma_same_selection(a, b, s1, s2);
        },
        (ASTInfo::IterationStmt(_, _), ASTInfo::IterationStmt(_, _)) => {
            lemma_same_iteration(a, b, s1, s2);
        },
        (ASTInfo::ReturnStmt(v1), ASTInfo::ReturnStmt(v2)) => {
            match (v1, v2) {
                (Some(e1), Some(e2)) => {
                    lemma_same_expr(a, b, *e1, *e2);
                    match (lower_expr(a, *e1), lower_expr(b, *e2)) {
                        (Ok((a1, t1, x1)), Ok((b1, t2, x2))) => {
                            let r = Inst::Return { value: Some(x1) };
                            lemma_same_push(a1, b1, r, r);
                        },
                        _ => {},
                    }
                },
                (None, None) => {
                    let r = Inst::Return { value: None };
                    lemma_same_push(a, b, r, r);
                },
                _ => {},
            }
        },
        (ASTInfo::AssignmentExpr(_, _), ASTInfo::AssignmentExpr(_, _)) => {
            lemma_same_assignment(a, b, s1, s2);
        },
        (ASTInfo::BinaryExpr(_, _, _), ASTInfo::BinaryExpr(_, _, _)) => {
            lemma_same_binary(a, b, s1, s2);
        },
        (ASTInfo::CallExpr(_, _), ASTInfo::CallExpr(_, _)) => {
            lemma_same_call(a, b, s1, s2);
        },
        _ => {},
    }
}

/// Announcing parameters that are the same keeps states the same.
pub proof fn lemma_same_announce(
    a: BuilderState,
    b: BuilderState,
    pa: Seq<(Type, String)>,
    pb: Seq<(Type, String)>,
    from: int,
)
    requires
        same_state(a, b),
        params_of(pa, pa.len() as int) == params_of(pb, pb.len() as int),
    ensures
        same_state(announce_params(a, pa, from), announce_params(b, pb, from)),
    decreases pa.len() - from,
{
    lemma_params_index(pa, pa.len() as int);
    lemma_params_index(pb, pb.len() as int);
    if from < 0 || from >= pa.len() {
    } else {
        assert(params_of(pa, pa.len() as int)[from] == (pa[from].0, pa[from].1@));
        assert(params_of(pb, pb.len() as int)[from] == (pb[from].0, pb[from].1@));
        let x = Inst::Param { ty: pa[from].0, name: pa[from].1 };
        let y = Inst::Param { ty: pb[from].0, name: pb[from].1 };
        lemma_same_push(a, b, x, y);
        lemma_same_announce(a.note(x), b.note(y), pa, pb, from + 1);
    }
}

/// Parameters that are the same get their slots the same.
pub proof fn lemma_same_spill(
    a: BuilderState,
    b: BuilderState,
    pa: Seq<(Type, String)>,
    pb: Seq<(Type, String)>,
    from: int,
    position: (usize, usize),
)
    requires
        same_state(a, b),
        params_of(pa, pa.len() as int) == params_of(pb, pb.len() as int),
    ensures
        same_end(spill_params(a, pa, from, position), spill_params(b, pb, from, position)),
    decreases pa.len() - from,
{
    lemma_params_index(pa, pa.len() as int);
    lemma_params_index(pb, pb.len() as int);
    if from < 0 || from >= pa.len() {
    } else {
        assert(params_of(pa, pa.len() as int)[from] == (pa[from].0, pa[from].1@));
        assert(params_of(pb, pb.len() as int)[from] == (pb[from].0, pb[from].1@));
        let (ty, n1) = pa[from];
        let (_, n2) = pb[from];
        lemma_same_lookup(a.symbols, b.symbols, n1@);
        if !a.symbols.bound_in_top(n1@) {
            let slot = reg_value(a.regs, slot_type(ty));
            let alloca = Inst::Alloca { dst: a.next_reg(), ty: value_type(ty), name: None };
            lemma_same_push(a, b, alloca, alloca);
            let a1 = a.define(alloca);
            let b1 = b.define(alloca);
            let store = Inst::Store {
                ptr: slot,
                value: Value { kind: ValueKind::Param(from as usize), ty: value_type(ty) },
            };
            lemma_same_push(a1, b1, store, store);
            let a2 = a1.step(store);
            let b2 = b1.step(store);
            lemma_same_declare(
                a2.symbols,
                b2.symbols,
                Binding { name: n1, ty, slot },
                Binding { name: n2, ty, slot },
            );
            lemma_same_spill(
                a2.with_symbols(a2.symbols.declare_local(Binding { name: n1, ty, slot })),
                b2.with_symbols(b2.symbols.declare_local(Binding { name: n2, ty, slot })),
                pa,
                pb,
                from + 1,
                position,
            );
        }
    }
}

/// The return at the end of a function keeps states the same.
pub proof fn lemma_same_implicit_return(a: BuilderState, b: BuilderState, ret: Type)
    requires
        same_state(a, b),
    ensures
        same_state(implicit_return(a, ret), implicit_return(b, ret)),
{
    let none = Inst::Return { value: None };
    let zero = Inst::Return { value: Some(Value { kind: ValueKind::Zero, ty: value_type(ret) }) };
    lemma_same_push(a, b, none, none);
    lemma_same_push(a, b, zero, zero);
}

/// Functions that stand for the same tree are lowered the same.
#[verifier::rlimit(60)]
pub proof fn lemma_same_function(a: BuilderState, b: BuilderState, f1: Ast, f2: Ast)
    requires
        same_state(a, b),
        tree_of(f1) == tree_of(f2),
    ensures
        same_end(lower_function(a, f1), lower_function(b, f2)),
{
    match (f1.info, f2.info) {
        (ASTInfo::FunctionDec(ret, n1, pa, body1), ASTInfo::FunctionDec(_, n2, pb, body2)) => {
            lemma_same_lookup(a.symbols, b.symbols, n1@);
            lemma_params_index(pa@, pa@.len() as int);
            lemma_params_index(pb@, pb@.len() as int);
            if !a.symbols.taken_globally(n1@) {
                let index = a.symbols.functions.len() as usize;
                lemma_same_announce(a, b, pa@, pb@, 0);
                let a0 = announce_params(a, pa@, 0);
                let b0 = announce_params(b, pb@, 0);
                let x = Inst::Function { name: n1, ret, params: pa@.len() as usize };
                let y = Inst::Function { name: n2, ret, params: pb@.len() as usize };
                lemma_same_push(a0, b0, x, y);
                let a1 = a0.note(x);
                let b1 = b0.note(y);
                lemma_same_declare_function(
                    a1.symbols,
                    b1.symbols,
                    FunctionBinding { name: n1, ret, index },
                    FunctionBinding { name: n2, ret, index },
                );
                lemma_same_scopes(
                    a1.symbols.declare_function(FunctionBinding { name: n1, ret, index }),
                    b1.symbols.declare_function(FunctionBinding { name: n2, ret, index }),
                );
                let a2 = BuilderState {
                    symbols: a1.symbols.declare_function(
                        FunctionBinding { name: n1, ret, index },
                    ).push_scope(),
                    current_function: Some((ret, index)),
                    terminated: true,
                    ..a1
                };
                let b2 = BuilderState {
                    symbols: b1.symbols.declare_function(
                        FunctionBinding { name: n2, ret, index },
                    ).push_scope(),
                    current_function: Some((ret, index)),
                    terminated: true,
                    ..b1
                };
                let entry = a2.next_block();
                lemma_same_blocks(a2, b2, BlockKind::Entry, 0);
                lemma_same_blocks(
                    a2.block(BlockKind::Entry, 0),
                    b2.block(BlockKind::Entry, 0),
                    BlockKind::Entry,
                    entry,
                );
                lemma_same_spill(
                    a2.block(BlockKind::Entry, 0).enter(entry),
                    b2.block(BlockKind::Entry, 0).enter(entry),
                    pa@,
                    pb@,
                    0,
                    f1.position,
                );
                match (
                    spill_params(
                        a2.block(BlockKind::Entry, 0).enter(entry),
                        pa@,
                        0,
                        f1.position,
                    ),
                    spill_params(
                        b2.block(BlockKind::Entry, 0).enter(entry),
                        pb@,
                        0,
                        f2.position,
                    ),
                ) {
                    (Ok(a3), Ok(b3)) => {
                        lemma_same_block(a3, b3, *body1, *body2);
                        match (lower_block(a3, *body1), lower_block(b3, *body2)) {
                            (Ok(a4), Ok(b4)) => {
                                lemma_same_implicit_return(a4, b4, ret);
                                lemma_same_scopes(
                                    implicit_return(a4, ret).symbols,
                                    implicit_return(b4, ret).symbols,
                                );
                            },
                            (Err((a4, _)), Err((b4, _))) => {
                                lemma_same_scopes(a4.symbols, b4.symbols);
                            },
                            _ => {},
                        }
                    },
                    (Err((a3, _)), Err((b3, _))) => {
                        lemma_same_scopes(a3.symbols, b3.symbols);
                    },
                    _ => {},
                }
            }
        },
        _ => {},
    }
}

/// Global variables that stand for the same tree are lowered the same.
pub proof fn lemma_same_global(a: BuilderState, b: BuilderState, d1: Ast, d2: Ast)
    requires
        same_state(a, b),
        tree_of(d1) == tree_of(d2),
    ensures
        same_end(lower_global(a, d1), lower_global(b, d2)),
{
    match (d1.info, d2.info) {
        (ASTInfo::VariableDec(ty, n1), ASTInfo::VariableDec(_, n2)) => {
            lemma_same_lookup(a.symbols, b.symbols, n1@);
            if !a.symbols.taken_globally(n1@) {
                let slot = Value {
                    kind: ValueKind::Global(a.symbols.globals.len() as usize),
                    ty: slot_type(ty),
                };
                let x = Inst::Global { name: n1, ty };
                let y = Inst::Global { name: n2, ty };
                lemma_same_push(a, b, x, y);
                lemma_same_declare(
                    a.note(x).symbols,
                    b.note(y).symbols,
                    Binding { name: n1, ty, slot },
                    Binding { name: n2, ty, slot },
                );
            }
        },
        _ => {},
    }
}

/// Lists of top-level declarations that stand for the same trees are
/// lowered the same.
pub proof fn lemma_same_items(
    a: BuilderState,
    b: BuilderState,
    i1: Seq<Ast>,
    i2: Seq<Ast>,
    from: int,
)
    requires
        same_state(a, b),
        trees_of(i1, i1.len() as int) == trees_of(i2, i2.len() as int),
    ensures
        same_end(lower_items(a, i1, from), lower_items(b, i2, from)),
    decreases i1.len() - from,
{
    lemma_trees_index(i1, i1.len() as int);
    lemma_trees_index(i2, i2.len() as int);
    if from < 0 || from >= i1.len() {
    } else {
        assert(trees_of(i1, i1.len() as int)[from] == tree_of(i1[from]));
        assert(trees_of(i2, i2.len() as int)[from] == tree_of(i2[from]));
        let next1 = if i1[from].info is FunctionDec {
            lemma_same_function(a, b, i1[from], i2[from]);
            lower_function(a, i1[from])
        } else {
            lemma_same_global(a, b, i1[from], i2[from]);
            lower_global(a, i1[from])
        };
        let next2 = if i2[from].info is FunctionDec {
            lower_function(b, i2[from])
        } else {
            lower_global(b, i2[from])
        };
        match (next1, next2) {
            (Ok(s1), Ok(s2)) => {
                lemma_same_items(s1, s2, i1, i2, from + 1);
            },
            _ => {},
        }
    }
}

/// Lowering is stable: two lists of nodes that stand for the same syntax
/// trees, as two parses of one text give them, are lowered to the same
/// listing, or fail with the same error.
pub proof fn lemma_same_trees_same_listing(first: Seq<Ast>, second: Seq<Ast>)
    requires
        trees_of(first, first.len() as int) == trees_of(second, second.len() as int),
    ensures
        match (lower_program(first), lower_program(second)) {
            (Ok(a), Ok(b)) => same_code(a.code, b.code),
            (Err((_, e1)), Err((_, e2))) => e1 == e2,
            _ => false,
        },
{
    assert(same_state(prelude(), prelude())) by {
        let p = prelude();
        assert forall|i: int| 0 <= i < p.code.len() implies same_inst(#[trigger] p.code[i], p.code[i]) by {
            assert(p.code.len() == 2);
        }
        assert(same_bindings(p.symbols.globals, p.symbols.globals));
        assert(same_bindings(p.symbols.locals, p.symbols.locals));
        assert(same_functions(p.symbols.functions, p.symbols.functions));
    }
    lemma_same_items(prelude(), prelude(), first, second, 0);
}

} // verus!
