//! The grammar of C--: which texts are programs, and which syntax tree each
//! of them has, as mathematical functions on the bytes of the text.
//!
//! ```text
//! program   := item* end
//! item      := type name '(' params ')' block
//!            | type name ('[' number ']')? ';'
//! type      := 'int' | 'void'
//! params    := 'void'? | param (',' param)*
//! param     := type '*'? name ('[' ']')?
//! block     := '{' declaration* statement* '}'
//! statement := block | ';' | expr ';' | 'return' expr? ';'
//!            | 'if' '(' expr ')' statement ('else' statement)?
//!            | 'while' '(' expr ')' statement
//! expr      := name ('[' expr ']')? '=' expr | binary
//! binary    := operand (operator operand)*
//! operand   := number | name '(' (expr (',' expr)*)? ')'
//!            | name ('[' expr ']')? | '(' expr ')'
//! ```
//!
//! The operators bind as in C, each level to the left. Blanks, tabs and line
//! breaks separate tokens and mean nothing else.
use vstd::prelude::*;
use crate::ast::{ASTInfo, Ast, Oprand, Type};

verus! {

/// The sort of a token.
#[derive(Debug, PartialEq, Eq, Clone, Copy, Structural)]
pub enum Tok {
    /// The end of the text.
    Eof,
    /// A name.
    Ident,
    Int,
    Void,
    If,
    Else,
    While,
    Return,
    /// A number that fits 32 bits with a sign.
    Number(i32),
    /// A number that does not.
    BadNumber,
    LParen,
    RParen,
    LBrace,
    RBrace,
    LBracket,
    RBracket,
    Semicolon,
    Comma,
    Assign,
    /// A binary operator.
    Op(Oprand),
    /// A byte that starts no token.
    Unknown,
}

/// A token: its sort, and where it starts and ends in the text.
pub struct Token {
    pub kind: Tok,
    pub start: int,
    pub end: int,
}

/// A syntax tree as a mathematical value: what an `Ast` stands for.
pub struct Tree {
    pub position: (usize, usize),
    pub info: TreeInfo,
}

/// What a node of a syntax tree is.
pub enum TreeInfo {
    FunctionDec(Type, Seq<char>, Seq<(Type, Seq<char>)>, Box<Tree>),
    VariableDec(Type, Seq<char>),
    BlockStmt(Seq<Tree>, Seq<Tree>),
    SelectionStmt(Box<Tree>, Box<Tree>, Option<Box<Tree>>),
    IterationStmt(Box<Tree>, Box<Tree>),
    ReturnStmt(Option<Box<Tree>>),
    AssignmentExpr(Box<Tree>, Box<Tree>),
    BinaryExpr(Oprand, Box<Tree>, Box<Tree>),
    CallExpr(Seq<char>, Seq<Tree>),
    Variable(Seq<char>, Option<Box<Tree>>),
    IntLiteral(i32),
}

/// The parameters of a function as mathematical values: the first `upto`.
pub open spec fn params_of(params: Seq<(Type, String)>, upto: int) -> Seq<(Type, Seq<char>)>
    decreases upto,
{
    if upto <= 0 || upto > params.len() {
        Seq::empty()
    } else {
        params_of(params, upto - 1).push((params[upto - 1].0, params[upto - 1].1@))
    }
}

/// The trees that the first `upto` nodes of a list stand for.
pub open spec fn trees_of(items: Seq<Ast>, upto: int) -> Seq<Tree>
    decreases items, upto,
{
    if upto <= 0 || upto > items.len() {
        Seq::empty()
    } else {
        trees_of(items, upto - 1).push(tree_of(items[upto - 1]))
    }
}

/// The tree that a node stands for.
pub open spec fn tree_of(ast: Ast) -> Tree
    decreases ast, 0nat,
{
    Tree {
        position: ast.position,
        info: match ast.info {
            ASTInfo::FunctionDec(ty, name, params, body) => TreeInfo::FunctionDec(
                ty,
                name@,
                params_of(params@, params@.len() as int),
                Box::new(tree_of(*body)),
            ),
            ASTInfo::VariableDec(ty, name) => TreeInfo::VariableDec(ty, name@),
            ASTInfo::BlockStmt(decls, stmts) => TreeInfo::BlockStmt(
                trees_of(decls@, decls@.len() as int),
                trees_of(stmts@, stmts@.len() as int),
            ),
            ASTInfo::SelectionStmt(c, t, e) => TreeInfo::SelectionStmt(
                Box::new(tree_of(*c)),
                Box::new(tree_of(*t)),
                match e {
                    Some(es) => Some(Box::new(tree_of(*es))),
                    None => None,
                },
            ),
            ASTInfo::IterationStmt(c, body) => TreeInfo::IterationStmt(
                Box::new(tree_of(*c)),
                Box::new(tree_of(*body)),
            ),
            ASTInfo::ReturnStmt(value) => TreeInfo::ReturnStmt(
                match value {
                    Some(e) => Some(Box::new(tree_of(*e))),
                    None => None,
                },
            ),
            ASTInfo::AssignmentExpr(var, rhs) => TreeInfo::AssignmentExpr(
                Box::new(tree_of(*var)),
                Box::new(tree_of(*rhs)),
            ),
            ASTInfo::BinaryExpr(op, l, r) => TreeInfo::BinaryExpr(
                op,
                Box::new(tree_of(*l)),
                Box::new(tree_of(*r)),
            ),
            ASTInfo::CallExpr(name, args) => TreeInfo::CallExpr(
                name@,
                trees_of(args@, args@.len() as int),
            ),
            ASTInfo::Variable(name, index) => TreeInfo::Variable(
                name@,
                match index {
                    Some(ix) => Some(Box::new(tree_of(*ix))),
                    None => None,
                },
            ),
            ASTInfo::IntLiteral(v) => TreeInfo::IntLiteral(v),
        },
    }
}

impl View for Ast {
    type V = Tree;

    open spec fn view(&self) -> Tree {
        tree_of(*self)
    }
}

/// The trees of a list with one more node are the trees of the list with
/// one more tree.
pub proof fn lemma_trees_push(items: Seq<Ast>, item: Ast)
    ensures
        trees_of(items.push(item), items.len() as int + 1) == trees_of(items, items.len() as int).push(
            tree_of(item),
        ),
{
    lemma_trees_prefix(items, item, items.len() as int);
}

/// The trees of the first nodes of a list do not depend on what follows.
pub proof fn lemma_trees_prefix(items: Seq<Ast>, item: Ast, upto: int)
    requires
        upto <= items.len(),
    ensures
        trees_of(items.push(item), upto) == trees_of(items, upto),
    decreases upto,
{
    if upto > 0 {
        lemma_trees_prefix(items, item, upto - 1);
        assert(items.push(item)[upto - 1] == items[upto - 1]);
    }
}

/// The parameters of a list with one more are those of the list with one
/// more.
pub proof fn lemma_params_push(params: Seq<(Type, String)>, param: (Type, String))
    ensures
        params_of(params.push(param), params.len() as int + 1) == params_of(
            params,
            params.len() as int,
        ).push((param.0, param.1@)),
{
    lemma_params_prefix(params, param, params.len() as int);
}

/// The first parameters of a list do not depend on what follows.
pub proof fn lemma_params_prefix(params: Seq<(Type, String)>, param: (Type, String), upto: int)
    requires
        upto <= params.len(),
    ensures
        params_of(params.push(param), upto) == params_of(params, upto),
    decreases upto,
{
    if upto > 0 {
        lemma_params_prefix(params, param, upto - 1);
        assert(params.push(param)[upto - 1] == params[upto - 1]);
    }
}

/// Whether a byte separates tokens: a blank, a tab or a line break.
pub open spec fn is_space(b: u8) -> bool {
    b == 32 || b == 9 || b == 10 || b == 13
}

/// Whether a byte is a decimal digit.
pub open spec fn is_digit(b: u8) -> bool {
    48 <= b <= 57
}

/// Whether a byte can start a name: a letter or an underscore.
pub open spec fn is_alpha(b: u8) -> bool {
    (65 <= b <= 90) || (97 <= b <= 122) || b == 95
}

/// Whether a byte can stand in a name.
pub open spec fn is_word(b: u8) -> bool {
    is_alpha(b) || is_digit(b)
}

/// The value of a byte as a digit in the given base, if it is one.
pub open spec fn digit_value(b: u8, base: int) -> Option<int> {
    let v = if 48 <= b <= 57 {
        b - 48
    } else if 97 <= b <= 102 {
        b - 87
    } else if 65 <= b <= 70 {
        b - 55
    } else {
        16
    };
    if v < base {
        Some(v)
    } else {
        None
    }
}

/// The line and the column of a place in the text, both counted from 1.
pub open spec fn line_col(s: Seq<u8>, pos: int) -> (int, int)
    decreases pos,
{
    if pos <= 0 || pos > s.len() {
        (1, 1)
    } else {
        let (line, col) = line_col(s, pos - 1);
        if s[pos - 1] == 10 {
            (line + 1, 1)
        } else {
            (line, col + 1)
        }
    }
}

/// A count as a machine number: the largest one where it does not fit.
pub open spec fn capped(n: int) -> usize {
    if n > usize::MAX {
        usize::MAX
    } else {
        n as usize
    }
}

/// The line and the column of a place in the text, as a node holds them.
pub open spec fn position_at(s: Seq<u8>, pos: int) -> (usize, usize) {
    (capped(line_col(s, pos).0), capped(line_col(s, pos).1))
}

/// The first place at or after `pos` that holds no separator.
pub open spec fn skip_space(s: Seq<u8>, pos: int) -> int
    decreases s.len() - pos,
{
    if 0 <= pos < s.len() && is_space(s[pos]) {
        skip_space(s, pos + 1)
    } else {
        pos
    }
}

/// The first place at or after `pos` that holds no byte of a name.
pub open spec fn word_end(s: Seq<u8>, pos: int) -> int
    decreases s.len() - pos,
{
    if 0 <= pos < s.len() && is_word(s[pos]) {
        word_end(s, pos + 1)
    } else {
        pos
    }
}

/// The first place at or after `pos` that holds no digit of the base.
pub open spec fn digits_end(s: Seq<u8>, pos: int, base: int) -> int
    decreases s.len() - pos,
{
    if 0 <= pos < s.len() && digit_value(s[pos], base) is Some {
        digits_end(s, pos + 1, base)
    } else {
        pos
    }
}

/// The number that the digits from `start` to `end` write in the base.
pub open spec fn digits_value(s: Seq<u8>, start: int, end: int, base: int) -> int
    decreases end - start,
{
    if end <= start || end > s.len() || start < 0 {
        0
    } else {
        digits_value(s, start, end - 1, base) * base + match digit_value(s[end - 1], base) {
            Some(v) => v,
            None => 0,
        }
    }
}

/// The bytes from `start` to `end` as characters.
pub open spec fn name_at(s: Seq<u8>, start: int, end: int) -> Seq<char> {
    Seq::new((end - start) as nat, |i: int| s[start + i] as char)
}

/// The sort of a word: a keyword, or a name.
pub open spec fn word_kind(word: Seq<u8>) -> Tok {
    if word == seq![105u8, 110u8, 116u8] {
        Tok::Int
    } else if word == seq![118u8, 111u8, 105u8, 100u8] {
        Tok::Void
    } else if word == seq![105u8, 102u8] {
        Tok::If
    } else if word == seq![101u8, 108u8, 115u8, 101u8] {
        Tok::Else
    } else if word == seq![119u8, 104u8, 105u8, 108u8, 101u8] {
        Tok::While
    } else if word == seq![114u8, 101u8, 116u8, 117u8, 114u8, 110u8] {
        Tok::Return
    } else {
        Tok::Ident
    }
}

/// The base that a prefix letter behind a zero announces: `b`, `o` or `x`.
pub open spec fn prefix_base(b: u8) -> Option<int> {
    if b == 98 {
        Some(2)
    } else if b == 111 {
        Some(8)
    } else if b == 120 {
        Some(16)
    } else {
        None
    }
}

/// The number that starts at `p`: with a prefix `0b`, `0o` or `0x` and at
/// least one digit of that base behind it, the digits of that base;
/// otherwise decimal digits. It must fit 32 bits with a sign.
pub open spec fn number_token(s: Seq<u8>, p: int) -> Token {
    let prefixed = p + 2 < s.len() && s[p] == 48 && (prefix_base(s[p + 1]) matches Some(base)
        && digit_value(s[p + 2], base) is Some);
    let base = if prefixed {
        prefix_base(s[p + 1])->Some_0
    } else {
        10
    };
    let first = if prefixed {
        p + 2
    } else {
        p
    };
    let end = digits_end(s, first, base);
    let value = digits_value(s, first, end, base);
    Token {
        kind: if value <= i32::MAX {
            Tok::Number(value as i32)
        } else {
            Tok::BadNumber
        },
        start: p,
        end,
    }
}

/// The sort of the token that two bytes spell, if they spell one.
pub open spec fn pair_kind(a: u8, b: u8) -> Option<Tok> {
    if a == 60 && b == 61 {
        Some(Tok::Op(Oprand::Le))
    } else if a == 62 && b == 61 {
        Some(Tok::Op(Oprand::Ge))
    } else if a == 61 && b == 61 {
        Some(Tok::Op(Oprand::Eq))
    } else if a == 33 && b == 61 {
        Some(Tok::Op(Oprand::Ne))
    } else if a == 38 && b == 38 {
        Some(Tok::Op(Oprand::Land))
    } else if a == 124 && b == 124 {
        Some(Tok::Op(Oprand::Lor))
    } else if a == 60 && b == 60 {
        Some(Tok::Op(Oprand::LShift))
    } else if a == 62 && b == 62 {
        Some(Tok::Op(Oprand::RShift))
    } else {
        None
    }
}

/// The sort of the token that one byte spells.
pub open spec fn single_kind(a: u8) -> Tok {
    if a == 40 {
        Tok::LParen
    } else if a == 41 {
        Tok::RParen
    } else if a == 123 {
        Tok::LBrace
    } else if a == 125 {
        Tok::RBrace
    } else if a == 91 {
        Tok::LBracket
    } else if a == 93 {
        Tok::RBracket
    } else if a == 59 {
        Tok::Semicolon
    } else if a == 44 {
        Tok::Comma
    } else if a == 61 {
        Tok::Assign
    } else if a == 43 {
        Tok::Op(Oprand::Add)
    } else if a == 45 {
        Tok::Op(Oprand::Sub)
    } else if a == 42 {
        Tok::Op(Oprand::Mul)
    } else if a == 47 {
        Tok::Op(Oprand::Div)
    } else if a == 37 {
        Tok::Op(Oprand::Mod)
    } else if a == 60 {
        Tok::Op(Oprand::Lt)
    } else if a == 62 {
        Tok::Op(Oprand::Gt)
    } else if a == 38 {
        Tok::Op(Oprand::Band)
    } else if a == 124 {
        Tok::Op(Oprand::Bor)
    } else if a == 94 {
        Tok::Op(Oprand::Bxor)
    } else {
        Tok::Unknown
    }
}

/// The token that starts at `p`, which holds no separator: the longest
/// word, number or sign there.
pub open spec fn token_from(s: Seq<u8>, p: int) -> Token {
    if p < 0 || p >= s.len() {
        Token { kind: Tok::Eof, start: p, end: p }
    } else if is_alpha(s[p]) {
        let end = word_end(s, p + 1);
        Token { kind: word_kind(s.subrange(p, end)), start: p, end }
    } else if is_digit(s[p]) {
        number_token(s, p)
    } else if p + 1 < s.len() && pair_kind(s[p], s[p + 1]) is Some {
        Token { kind: pair_kind(s[p], s[p + 1])->Some_0, start: p, end: p + 2 }
    } else {
        Token { kind: single_kind(s[p]), start: p, end: p + 1 }
    }
}

/// The first token at or after `pos`.
pub open spec fn token_at(s: Seq<u8>, pos: int) -> Token {
    token_from(s, skip_space(s, pos))
}

/// How tightly an operator binds: from 0 for `||` to 9 for `*`, `/`, `%`.
pub open spec fn level_of(op: Oprand) -> int {
    match op {
        Oprand::Lor => 0,
        Oprand::Land => 1,
        Oprand::Bor => 2,
        Oprand::Bxor => 3,
        Oprand::Band => 4,
        Oprand::Eq => 5,
        Oprand::Ne => 5,
        Oprand::Lt => 6,
        Oprand::Le => 6,
        Oprand::Gt => 6,
        Oprand::Ge => 6,
        Oprand::LShift => 7,
        Oprand::RShift => 7,
        Oprand::Add => 8,
        Oprand::Sub => 8,
        Oprand::Mul => 9,
        Oprand::Div => 9,
        Oprand::Mod => 9,
    }
}

/// The type that a type word names.
pub open spec fn type_of_word(kind: Tok) -> Option<Type> {
    match kind {
        Tok::Int => Some(Type::Int),
        Tok::Void => Some(Type::Void),
        _ => None,
    }
}

/// A node at the place `pos` of the text.
pub open spec fn node(s: Seq<u8>, pos: int, info: TreeInfo) -> Tree {
    Tree { position: position_at(s, pos), info }
}

/// Whether the place `to` lies behind `from` and within the text.
pub open spec fn forward(s: Seq<u8>, from: int, to: int) -> bool {
    from < to <= s.len()
}

/// The rank of the expressions of a level, for the order in which the
/// functions of the grammar call each other at one place of the text.
pub open spec fn level_rank(level: int) -> nat {
    if 0 <= level <= 9 {
        ((11 - level) * 2) as nat
    } else {
        2
    }
}

/// An operand: a number, a call, a variable with or without a subscript,
/// or an expression in parentheses, which stands for that expression.
pub open spec fn parse_operand(s: Seq<u8>, pos: int) -> Result<(Tree, int), int>
    decreases s.len() - pos, 0nat,
{
    let t = token_at(s, pos);
    if !forward(s, pos, t.end) {
        Err(t.start)
    } else {
        match t.kind {
            Tok::Number(v) => Ok((node(s, t.start, TreeInfo::IntLiteral(v)), t.end)),
            Tok::Ident => {
                let name = name_at(s, t.start, t.end);
                let t2 = token_at(s, t.end);
                if t2.kind == Tok::LParen && forward(s, t.end, t2.end) {
                    match parse_arguments(s, t2.end) {
                        Err(at) => Err(at),
                        Ok((args, end)) => Ok(
                            (node(s, t.start, TreeInfo::CallExpr(name, args)), end),
                        ),
                    }
                } else if t2.kind == Tok::LBracket && forward(s, t.end, t2.end) {
                    match parse_expr(s, t2.end) {
                        Err(at) => Err(at),
                        Ok((index, after)) => {
                            let t3 = token_at(s, after);
                            if t3.kind == Tok::RBracket {
                                Ok(
                                    (
                                        node(
                                            s,
                                            t.start,
                                            TreeInfo::Variable(name, Some(Box::new(index))),
                                        ),
                                        t3.end,
                                    ),
                                )
                            } else {
                                Err(t3.start)
                            }
                        },
                    }
                } else {
                    Ok((node(s, t.start, TreeInfo::Variable(name, None)), t.end))
                }
            },
            Tok::LParen => match parse_expr(s, t.end) {
                Err(at) => Err(at),
                Ok((inner, after)) => {
                    let t2 = token_at(s, after);
                    if t2.kind == Tok::RParen {
                        Ok((inner, t2.end))
                    } else {
                        Err(t2.start)
                    }
                },
            },
            _ => Err(t.start),
        }
    }
}

/// The arguments of a call behind its opening parenthesis, up to and with
/// the closing one.
pub open spec fn parse_arguments(s: Seq<u8>, pos: int) -> Result<(Seq<Tree>, int), int>
    decreases s.len() - pos, 32nat,
{
    let t = token_at(s, pos);
    if t.kind == Tok::RParen {
        Ok((Seq::empty(), t.end))
    } else {
        parse_more_arguments(s, pos, Seq::empty())
    }
}

/// One argument and those behind it, up to and with the closing parenthesis.
pub open spec fn parse_more_arguments(s: Seq<u8>, pos: int, done: Seq<Tree>) -> Result<
    (Seq<Tree>, int),
    int,
>
    decreases s.len() - pos, 31nat,
{
    match parse_expr(s, pos) {
        Err(at) => Err(at),
        Ok((arg, after)) => {
            let t = token_at(s, after);
            if t.kind == Tok::RParen {
                Ok((done.push(arg), t.end))
            } else if t.kind == Tok::Comma && forward(s, pos, t.end) {
                parse_more_arguments(s, t.end, done.push(arg))
            } else {
                Err(t.start)
            }
        },
    }
}

/// The operators of a level and their right operands behind a left operand:
/// each makes a node at the place where the whole expression starts, with
/// the expression so far as its left operand.
pub open spec fn parse_binary_rest(s: Seq<u8>, level: int, first: int, left: Tree, pos: int) -> Result<
    (Tree, int),
    int,
>
    decreases s.len() - pos, (level_rank(level) - 1) as nat,
{
    let t = token_at(s, pos);
    if 0 <= level <= 9 && (t.kind matches Tok::Op(op) && level_of(op) == level) && forward(
        s,
        pos,
        t.end,
    ) {
        match parse_binary(s, level + 1, t.end) {
            Err(at) => Err(at),
            Ok((right, after)) => if forward(s, pos, after) {
                parse_binary_rest(
                    s,
                    level,
                    first,
                    Tree {
                        position: position_at(s, first),
                        info: TreeInfo::BinaryExpr(
                            t.kind->Op_0,
                            Box::new(left),
                            Box::new(right),
                        ),
                    },
                    after,
                )
            } else {
                Err(after)
            },
        }
    } else {
        Ok((left, pos))
    }
}

/// An expression of operators that bind at least as tightly as `level`.
pub open spec fn parse_binary(s: Seq<u8>, level: int, pos: int) -> Result<(Tree, int), int>
    decreases s.len() - pos, level_rank(level),
{
    if level < 0 || level > 9 {
        parse_operand(s, pos)
    } else {
        match parse_binary(s, level + 1, pos) {
            Err(at) => Err(at),
            Ok((left, after)) => if forward(s, pos, after) {
                parse_binary_rest(s, level, token_at(s, pos).start, left, after)
            } else {
                Err(after)
            },
        }
    }
}

/// An expression: an assignment where a variable that stands first is
/// followed by `=`, else a binary expression.
pub open spec fn parse_expr(s: Seq<u8>, pos: int) -> Result<(Tree, int), int>
    decreases s.len() - pos, 30nat,
{
    match parse_binary(s, 0, pos) {
        Err(at) => Err(at),
        Ok((left, after)) => {
            let t = token_at(s, after);
            if t.kind == Tok::Assign && left.info is Variable && token_at(s, pos).kind
                == Tok::Ident && forward(s, pos, t.end) {
                match parse_expr(s, t.end) {
                    Err(at) => Err(at),
                    Ok((right, end)) => Ok(
                        (
                            Tree {
                                position: left.position,
                                info: TreeInfo::AssignmentExpr(Box::new(left), Box::new(right)),
                            },
                            end,
                        ),
                    ),
                }
            } else {
                Ok((left, after))
            }
        },
    }
}

/// A declaration of a variable: a type, a name, the length of an array in
/// brackets where it is one, and a semicolon. The length is at least 1.
pub open spec fn parse_declaration(s: Seq<u8>, pos: int) -> Result<(Tree, int), int> {
    let t = token_at(s, pos);
    match type_of_word(t.kind) {
        None => Err(t.start),
        Some(ty) => {
            let t1 = token_at(s, t.end);
            if t1.kind != Tok::Ident {
                Err(t1.start)
            } else {
                let name = name_at(s, t1.start, t1.end);
                let t2 = token_at(s, t1.end);
                if t2.kind == Tok::Semicolon {
                    Ok((node(s, t.start, TreeInfo::VariableDec(ty, name)), t2.end))
                } else if t2.kind == Tok::LBracket {
                    let t3 = token_at(s, t2.end);
                    match t3.kind {
                        Tok::Number(n) => if n < 1 {
                            Err(t3.start)
                        } else {
                            let t4 = token_at(s, t3.end);
                            let t5 = token_at(s, t4.end);
                            if t4.kind != Tok::RBracket {
                                Err(t4.start)
                            } else if t5.kind != Tok::Semicolon {
                                Err(t5.start)
                            } else {
                                Ok(
                                    (
                                        node(
                                            s,
                                            t.start,
                                            TreeInfo::VariableDec(Type::IntArray(n as usize), name),
                                        ),
                                        t5.end,
                                    ),
                                )
                            }
                        },
                        _ => Err(t3.start),
                    }
                } else {
                    Err(t2.start)
                }
            }
        },
    }
}

/// The declarations at the start of a block: as many as there are.
pub open spec fn parse_declarations(s: Seq<u8>, pos: int, done: Seq<Tree>) -> Result<
    (Seq<Tree>, int),
    int,
>
    decreases s.len() - pos,
{
    let t = token_at(s, pos);
    if type_of_word(t.kind) is Some {
        match parse_declaration(s, pos) {
            Err(at) => Err(at),
            Ok((d, after)) => if forward(s, pos, after) {
                parse_declarations(s, after, done.push(d))
            } else {
                Err(after)
            },
        }
    } else {
        Ok((done, pos))
    }
}

/// A condition in parentheses and the statement that it governs. The
/// statement must not be empty.
pub open spec fn parse_governed(s: Seq<u8>, pos: int) -> Result<(Tree, Tree, int), int>
    decreases s.len() - pos, 38nat,
{
    let t = token_at(s, pos);
    if t.kind != Tok::LParen || !forward(s, pos, t.end) {
        Err(t.start)
    } else {
        match parse_expr(s, t.end) {
            Err(at) => Err(at),
            Ok((cond, after)) => {
                let t2 = token_at(s, after);
                if t2.kind != Tok::RParen || !forward(s, pos, t2.end) {
                    Err(t2.start)
                } else {
                    match parse_statement(s, t2.end) {
                        Err(at) => Err(at),
                        Ok((None, _)) => Err(token_at(s, t2.end).start),
                        Ok((Some(body), end)) => Ok((cond, body, end)),
                    }
                }
            },
        }
    }
}

/// A statement. A semicolon alone is the empty statement, which makes no
/// node.
pub open spec fn parse_statement(s: Seq<u8>, pos: int) -> Result<(Option<Tree>, int), int>
    decreases s.len() - pos, 40nat,
{
    let t = token_at(s, pos);
    match t.kind {
        Tok::LBrace => match parse_block(s, pos) {
            Err(at) => Err(at),
            Ok((b, end)) => Ok((Some(b), end)),
        },
        Tok::Semicolon => Ok((None, t.end)),
        Tok::If => if !forward(s, pos, t.end) {
            Err(t.start)
        } else {
            match parse_governed(s, t.end) {
                Err(at) => Err(at),
                Ok((cond, then, after)) => {
                    let t2 = token_at(s, after);
                    if t2.kind == Tok::Else && forward(s, pos, t2.end) {
                        match parse_statement(s, t2.end) {
                            Err(at) => Err(at),
                            Ok((None, _)) => Err(token_at(s, t2.end).start),
                            Ok((Some(other), end)) => Ok(
                                (
                                    Some(
                                        node(
                                            s,
                                            t.start,
                                            TreeInfo::SelectionStmt(
                                                Box::new(cond),
                                                Box::new(then),
                                                Some(Box::new(other)),
                                            ),
                                        ),
                                    ),
                                    end,
                                ),
                            ),
                        }
                    } else {
                        Ok(
                            (
                                Some(
                                    node(
                                        s,
                                        t.start,
                                        TreeInfo::SelectionStmt(
                                            Box::new(cond),
                                            Box::new(then),
                                            None,
                                        ),
                                    ),
                                ),
                                after,
                            ),
                        )
                    }
                },
            }
        },
        Tok::While => if !forward(s, pos, t.end) {
            Err(t.start)
        } else {
            match parse_governed(s, t.end) {
                Err(at) => Err(at),
                Ok((cond, body, end)) => Ok(
                    (
                        Some(
                            node(
                                s,
                                t.start,
                                TreeInfo::IterationStmt(Box::new(cond), Box::new(body)),
                            ),
                        ),
                        end,
                    ),
                ),
            }
        },
        Tok::Return => {
            let t2 = token_at(s, t.end);
            if t2.kind == Tok::Semicolon {
                Ok((Some(node(s, t.start, TreeInfo::ReturnStmt(None))), t2.end))
            } else {
                match parse_expr(s, t.end) {
                    Err(at) => Err(at),
                    Ok((value, after)) => {
                        let t3 = token_at(s, after);
                        if t3.kind == Tok::Semicolon {
                            Ok(
                                (
                                    Some(
                                        node(
                                            s,
                                            t.start,
                                            TreeInfo::ReturnStmt(Some(Box::new(value))),
                                        ),
                                    ),
                                    t3.end,
                                ),
                            )
                        } else {
                            Err(t3.start)
                        }
                    },
                }
            }
        },
        _ => match parse_expr(s, pos) {
            Err(at) => Err(at),
            Ok((e, after)) => {
                let t2 = token_at(s, after);
                if t2.kind == Tok::Semicolon {
                    Ok((Some(e), t2.end))
                } else {
                    Err(t2.start)
                }
            },
        },
    }
}

/// The statements of a block, up to and with its closing brace.
pub open spec fn parse_statements(s: Seq<u8>, pos: int, done: Seq<Tree>) -> Result<
    (Seq<Tree>, int),
    int,
>
    decreases s.len() - pos, 41nat,
{
    let t = token_at(s, pos);
    if t.kind == Tok::RBrace {
        Ok((done, t.end))
    } else {
        match parse_statement(s, pos) {
            Err(at) => Err(at),
            Ok((st, after)) => if forward(s, pos, after) {
                parse_statements(
                    s,
                    after,
                    match st {
                        Some(tree) => done.push(tree),
                        None => done,
                    },
                )
            } else {
                Err(after)
            },
        }
    }
}

/// A block: declarations, then statements, in braces.
pub open spec fn parse_block(s: Seq<u8>, pos: int) -> Result<(Tree, int), int>
    decreases s.len() - pos, 39nat,
{
    let t = token_at(s, pos);
    if t.kind != Tok::LBrace || !forward(s, pos, t.end) {
        Err(t.start)
    } else {
        match parse_declarations(s, t.end, Seq::empty()) {
            Err(at) => Err(at),
            Ok((decls, after)) => if !forward(s, pos, after) {
                Err(after)
            } else {
                match parse_statements(s, after, Seq::empty()) {
                    Err(at) => Err(at),
                    Ok((stmts, end)) => Ok(
                        (node(s, t.start, TreeInfo::BlockStmt(decls, stmts)), end),
                    ),
                }
            },
        }
    }
}

/// One parameter: a type and a name; a star before the name or a pair of
/// brackets behind it makes it a pointer.
pub open spec fn parse_param(s: Seq<u8>, pos: int) -> Result<((Type, Seq<char>), int), int> {
    let t = token_at(s, pos);
    match type_of_word(t.kind) {
        None => Err(t.start),
        Some(ty) => {
            let t1 = token_at(s, t.end);
            let starred = t1.kind == Tok::Op(Oprand::Mul);
            let t2 = if starred {
                token_at(s, t1.end)
            } else {
                t1
            };
            if t2.kind != Tok::Ident {
                Err(t2.start)
            } else {
                let name = name_at(s, t2.start, t2.end);
                let t3 = token_at(s, t2.end);
                if t3.kind == Tok::LBracket {
                    let t4 = token_at(s, t3.end);
                    if t4.kind == Tok::RBracket {
                        Ok(((Type::IntPtr, name), t4.end))
                    } else {
                        Err(t4.start)
                    }
                } else {
                    Ok(
                        (
                            (
                                if starred {
                                    Type::IntPtr
                                } else {
                                    ty
                                },
                                name,
                            ),
                            t2.end,
                        ),
                    )
                }
            }
        },
    }
}

/// One parameter and those behind it, up to and with the closing
/// parenthesis.
pub open spec fn parse_more_params(s: Seq<u8>, pos: int, done: Seq<(Type, Seq<char>)>) -> Result<
    (Seq<(Type, Seq<char>)>, int),
    int,
>
    decreases s.len() - pos,
{
    match parse_param(s, pos) {
        Err(at) => Err(at),
        Ok((param, after)) => {
            let t = token_at(s, after);
            if t.kind == Tok::RParen {
                Ok((done.push(param), t.end))
            } else if t.kind == Tok::Comma && forward(s, pos, t.end) {
                parse_more_params(s, t.end, done.push(param))
            } else {
                Err(t.start)
            }
        },
    }
}

/// The parameters of a function behind its opening parenthesis, up to and
/// with the closing one: nothing, the word `void`, or a list.
pub open spec fn parse_params(s: Seq<u8>, pos: int) -> Result<(Seq<(Type, Seq<char>)>, int), int> {
    let t = token_at(s, pos);
    let t2 = token_at(s, t.end);
    if t.kind == Tok::RParen {
        Ok((Seq::empty(), t.end))
    } else if t.kind == Tok::Void && t2.kind == Tok::RParen {
        Ok((Seq::empty(), t2.end))
    } else {
        parse_more_params(s, pos, Seq::empty())
    }
}

/// A top-level declaration: a function where a parenthesis follows the
/// name, else a variable.
pub open spec fn parse_item(s: Seq<u8>, pos: int) -> Result<(Tree, int), int> {
    let t = token_at(s, pos);
    let t1 = token_at(s, t.end);
    let t2 = token_at(s, t1.end);
    match type_of_word(t.kind) {
        None => Err(t.start),
        Some(ty) => if t1.kind == Tok::Ident && t2.kind == Tok::LParen {
            match parse_params(s, t2.end) {
                Err(at) => Err(at),
                Ok((params, after)) => match parse_block(s, after) {
                    Err(at) => Err(at),
                    Ok((body, end)) => Ok(
                        (
                            node(
                                s,
                                t.start,
                                TreeInfo::FunctionDec(
                                    ty,
                                    name_at(s, t1.start, t1.end),
                                    params,
                                    Box::new(body),
                                ),
                            ),
                            end,
                        ),
                    ),
                },
            }
        } else {
            parse_declaration(s, pos)
        },
    }
}

/// The top-level declarations, up to the end of the text.
pub open spec fn parse_items(s: Seq<u8>, pos: int, done: Seq<Tree>) -> Result<Seq<Tree>, int>
    decreases s.len() - pos,
{
    let t = token_at(s, pos);
    if t.kind == Tok::Eof {
        Ok(done)
    } else {
        match parse_item(s, pos) {
            Err(at) => Err(at),
            Ok((item, after)) => if forward(s, pos, after) {
                parse_items(s, after, done.push(item))
            } else {
                Err(after)
            },
        }
    }
}

/// The syntax trees of the top-level declarations of a program, or the
/// place of the first token that cannot stand where it stands.
pub open spec fn parse_program(s: Seq<u8>) -> Result<Seq<Tree>, int> {
    parse_items(s, 0, Seq::empty())
}

/// Skipping separators moves forward and stays in the text.
pub proof fn lemma_skip_space_bounds(s: Seq<u8>, pos: int)
    requires
        0 <= pos <= s.len(),
    ensures
        pos <= skip_space(s, pos) <= s.len(),
    decreases s.len() - pos,
{
    if pos < s.len() && is_space(s[pos]) {
        lemma_skip_space_bounds(s, pos + 1);
    }
}

/// A word ends at or behind where it goes on, in the text.
pub proof fn lemma_word_end_bounds(s: Seq<u8>, pos: int)
    requires
        0 <= pos <= s.len(),
    ensures
        pos <= word_end(s, pos) <= s.len(),
    decreases s.len() - pos,
{
    if pos < s.len() && is_word(s[pos]) {
        lemma_word_end_bounds(s, pos + 1);
    }
}

/// Digits end at or behind where they go on, in the text.
pub proof fn lemma_digits_end_bounds(s: Seq<u8>, pos: int, base: int)
    requires
        0 <= pos <= s.len(),
    ensures
        pos <= digits_end(s, pos, base) <= s.len(),
    decreases s.len() - pos,
{
    if pos < s.len() && digit_value(s[pos], base) is Some {
        lemma_digits_end_bounds(s, pos + 1, base);
    }
}

/// A token lies in the text at or behind the place where it is looked for.
/// Every token but the end of the text holds at least one byte, and the end
/// of the text is found only there.
pub proof fn lemma_token_bounds(s: Seq<u8>, pos: int)
    requires
        0 <= pos <= s.len(),
    ensures
        pos <= token_at(s, pos).start <= token_at(s, pos).end <= s.len(),
        token_at(s, pos).kind != Tok::Eof ==> token_at(s, pos).start < token_at(s, pos).end,
        token_at(s, pos).kind == Tok::Eof ==> token_at(s, pos).start == s.len(),
{
    lemma_skip_space_bounds(s, pos);
    let p = skip_space(s, pos);
    if p < s.len() {
        if is_alpha(s[p]) {
            lemma_word_end_bounds(s, p + 1);
            let end = word_end(s, p + 1);
            let word = s.subrange(p, end);
            assert(word.len() >= 1);
            assert(word[0] == s[p]);
        } else if is_digit(s[p]) {
            let t = number_token(s, p);
            let prefixed = p + 2 < s.len() && s[p] == 48 && (prefix_base(s[p + 1]) matches Some(
                base,
            ) && digit_value(s[p + 2], base) is Some);
            if prefixed {
                let base = prefix_base(s[p + 1])->Some_0;
                lemma_digits_end_bounds(s, p + 3, base);
            } else {
                lemma_digits_end_bounds(s, p + 1, 10);
            }
        } else {
        }
    }
}

/// Whether a parse from `pos` on ended as it should: what was parsed ends
/// behind `pos`, and what failed, failed at or behind `pos`; both in the
/// text.
pub open spec fn settled<T>(s: Seq<u8>, pos: int, r: Result<(T, int), int>) -> bool {
    match r {
        Ok((_, end)) => forward(s, pos, end),
        Err(at) => pos <= at <= s.len(),
    }
}

/// An operand is parsed forward, and fails in the text.
pub proof fn lemma_operand_settled(s: Seq<u8>, pos: int)
    requires
        0 <= pos <= s.len(),
    ensures
        settled(s, pos, parse_operand(s, pos)),
    decreases s.len() - pos, 0nat,
{
    let t = token_at(s, pos);
    lemma_token_bounds(s, pos);
    if forward(s, pos, t.end) {
        lemma_token_bounds(s, t.end);
        let t2 = token_at(s, t.end);
        match t.kind {
            Tok::Ident => {
                if t2.kind == Tok::LParen && forward(s, t.end, t2.end) {
                    lemma_arguments_settled(s, t2.end);
                } else if t2.kind == Tok::LBracket && forward(s, t.end, t2.end) {
                    lemma_expr_settled(s, t2.end);
                    if let Ok((_, after)) = parse_expr(s, t2.end) {
                        lemma_token_bounds(s, after);
                    }
                }
            },
            Tok::LParen => {
                lemma_expr_settled(s, t.end);
                if let Ok((_, after)) = parse_expr(s, t.end) {
                    lemma_token_bounds(s, after);
                }
            },
            _ => {},
        }
    }
}

/// The arguments of a call are parsed forward, and fail in the text.
pub proof fn lemma_arguments_settled(s: Seq<u8>, pos: int)
    requires
        0 <= pos <= s.len(),
    ensures
        settled(s, pos, parse_arguments(s, pos)),
    decreases s.len() - pos, 32nat,
{
    lemma_token_bounds(s, pos);
    if token_at(s, pos).kind != Tok::RParen {
        lemma_more_arguments_settled(s, pos, Seq::empty());
    }
}

/// The arguments of a call are parsed forward, and fail in the text.
pub proof fn lemma_more_arguments_settled(s: Seq<u8>, pos: int, done: Seq<Tree>)
    requires
        0 <= pos <= s.len(),
    ensures
        settled(s, pos, parse_more_arguments(s, pos, done)),
    decreases s.len() - pos, 31nat,
{
    lemma_expr_settled(s, pos);
    if let Ok((arg, after)) = parse_expr(s, pos) {
        lemma_token_bounds(s, after);
        let t = token_at(s, after);
        if t.kind != Tok::RParen && t.kind == Tok::Comma && forward(s, pos, t.end) {
            lemma_more_arguments_settled(s, t.end, done.push(arg));
        }
    }
}

/// What follows a left operand ends at or behind the place where it was
/// looked for, and fails there or behind; both in the text.
pub proof fn lemma_binary_rest_settled(s: Seq<u8>, level: int, first: int, left: Tree, pos: int)
    requires
        0 <= pos <= s.len(),
    ensures
        match parse_binary_rest(s, level, first, left, pos) {
            Ok((_, end)) => pos <= end <= s.len(),
            Err(at) => pos <= at <= s.len(),
        },
    decreases s.len() - pos, (level_rank(level) - 1) as nat,
{
    let t = token_at(s, pos);
    lemma_token_bounds(s, pos);
    if 0 <= level <= 9 && (t.kind matches Tok::Op(op) && level_of(op) == level) && forward(
        s,
        pos,
        t.end,
    ) {
        lemma_binary_settled(s, level + 1, t.end);
        if let Ok((right, after)) = parse_binary(s, level + 1, t.end) {
            if forward(s, pos, after) {
                lemma_binary_rest_settled(
                    s,
                    level,
                    first,
                    Tree {
                        position: position_at(s, first),
                        info: TreeInfo::BinaryExpr(
                            t.kind->Op_0,
                            Box::new(left),
                            Box::new(right),
                        ),
                    },
                    after,
                );
            }
        }
    }
}

/// A binary expression is parsed forward, and fails in the text.
pub proof fn lemma_binary_settled(s: Seq<u8>, level: int, pos: int)
    requires
        0 <= pos <= s.len(),
    ensures
        settled(s, pos, parse_binary(s, level, pos)),
    decreases s.len() - pos, level_rank(level),
{
    if level < 0 || level > 9 {
        lemma_operand_settled(s, pos);
    } else {
        lemma_binary_settled(s, level + 1, pos);
        if let Ok((left, after)) = parse_binary(s, level + 1, pos) {
            lemma_binary_rest_settled(s, level, token_at(s, pos).start, left, after);
        }
    }
}

/// An expression is parsed forward, and fails in the text.
pub proof fn lemma_expr_settled(s: Seq<u8>, pos: int)
    requires
        0 <= pos <= s.len(),
    ensures
        settled(s, pos, parse_expr(s, pos)),
    decreases s.len() - pos, 30nat,
{
    lemma_binary_settled(s, 0, pos);
    if let Ok((left, after)) = parse_binary(s, 0, pos) {
        lemma_token_bounds(s, after);
        let t = token_at(s, after);
        if t.kind == Tok::Assign && left.info is Variable && token_at(s, pos).kind == Tok::Ident
            && forward(s, pos, t.end) {
            lemma_expr_settled(s, t.end);
        }
    }
}

/// A declaration is parsed forward, and fails in the text.
pub proof fn lemma_declaration_settled(s: Seq<u8>, pos: int)
    requires
        0 <= pos <= s.len(),
    ensures
        settled(s, pos, parse_declaration(s, pos)),
{
    lemma_token_bounds(s, pos);
    let t = token_at(s, pos);
    lemma_token_bounds(s, t.end);
    let t1 = token_at(s, t.end);
    lemma_token_bounds(s, t1.end);
    let t2 = token_at(s, t1.end);
    lemma_token_bounds(s, t2.end);
    let t3 = token_at(s, t2.end);
    lemma_token_bounds(s, t3.end);
    let t4 = token_at(s, t3.end);
    lemma_token_bounds(s, t4.end);
}

/// The declarations of a block end at or behind the place where they were
/// looked for, and fail there or behind; both in the text.
pub proof fn lemma_declarations_settled(s: Seq<u8>, pos: int, done: Seq<Tree>)
    requires
        0 <= pos <= s.len(),
    ensures
        match parse_declarations(s, pos, done) {
            Ok((_, end)) => pos <= end <= s.len(),
            Err(at) => pos <= at <= s.len(),
        },
    decreases s.len() - pos,
{
    lemma_token_bounds(s, pos);
    if type_of_word(token_at(s, pos).kind) is Some {
        lemma_declaration_settled(s, pos);
        if let Ok((d, after)) = parse_declaration(s, pos) {
            lemma_declarations_settled(s, after, done.push(d));
        }
    }
}

/// A condition and the statement that it governs are parsed forward, and
/// fail in the text.
pub proof fn lemma_governed_settled(s: Seq<u8>, pos: int)
    requires
        0 <= pos <= s.len(),
    ensures
        match parse_governed(s, pos) {
            Ok((_, _, end)) => forward(s, pos, end),
            Err(at) => pos <= at <= s.len(),
        },
    decreases s.len() - pos, 38nat,
{
    lemma_token_bounds(s, pos);
    let t = token_at(s, pos);
    if t.kind == Tok::LParen && forward(s, pos, t.end) {
        lemma_expr_settled(s, t.end);
        if let Ok((cond, after)) = parse_expr(s, t.end) {
            lemma_token_bounds(s, after);
            let t2 = token_at(s, after);
            if t2.kind == Tok::RParen && forward(s, pos, t2.end) {
                lemma_statement_settled(s, t2.end);
                lemma_token_bounds(s, t2.end);
            }
        }
    }
}

/// A statement is parsed forward, and fails in the text.
pub proof fn lemma_statement_settled(s: Seq<u8>, pos: int)
    requires
        0 <= pos <= s.len(),
    ensures
        settled(s, pos, parse_statement(s, pos)),
    decreases s.len() - pos, 40nat,
{
    lemma_token_bounds(s, pos);
    let t = token_at(s, pos);
    match t.kind {
        Tok::LBrace => {
            lemma_block_settled(s, pos);
        },
        Tok::Semicolon => {},
        Tok::If => {
            if forward(s, pos, t.end) {
                lemma_governed_settled(s, t.end);
                if let Ok((_, _, after)) = parse_governed(s, t.end) {
                    lemma_token_bounds(s, after);
                    let t2 = token_at(s, after);
                    if t2.kind == Tok::Else && forward(s, pos, t2.end) {
                        lemma_statement_settled(s, t2.end);
                        lemma_token_bounds(s, t2.end);
                    }
                }
            }
        },
        Tok::While => {
            if forward(s, pos, t.end) {
                lemma_governed_settled(s, t.end);
            }
        },
        Tok::Return => {
            lemma_token_bounds(s, t.end);
            if token_at(s, t.end).kind != Tok::Semicolon {
                lemma_expr_settled(s, t.end);
                if let Ok((_, after)) = parse_expr(s, t.end) {
                    lemma_token_bounds(s, after);
                }
            }
        },
        _ => {
            lemma_expr_settled(s, pos);
            if let Ok((_, after)) = parse_expr(s, pos) {
                lemma_token_bounds(s, after);
            }
        },
    }
}

/// The statements of a block are parsed forward, and fail in the text.
pub proof fn lemma_statements_settled(s: Seq<u8>, pos: int, done: Seq<Tree>)
    requires
        0 <= pos <= s.len(),
    ensures
        settled(s, pos, parse_statements(s, pos, done)),
    decreases s.len() - pos, 41nat,
{
    lemma_token_bounds(s, pos);
    if token_at(s, pos).kind != Tok::RBrace {
        lemma_statement_settled(s, pos);
        if let Ok((st, after)) = parse_statement(s, pos) {
            lemma_statements_settled(
                s,
                after,
                match st {
                    Some(tree) => done.push(tree),
                    None => done,
                },
            );
        }
    }
}

/// A block is parsed forward, and fails in the text.
pub proof fn lemma_block_settled(s: Seq<u8>, pos: int)
    requires
        0 <= pos <= s.len(),
    ensures
        settled(s, pos, parse_block(s, pos)),
    decreases s.len() - pos, 39nat,
{
    lemma_token_bounds(s, pos);
    let t = token_at(s, pos);
    if t.kind == Tok::LBrace && forward(s, pos, t.end) {
        lemma_declarations_settled(s, t.end, Seq::empty());
        if let Ok((_, after)) = parse_declarations(s, t.end, Seq::empty()) {
            lemma_statements_settled(s, after, Seq::empty());
        }
    }
}

/// A parameter is parsed forward, and fails in the text.
pub proof fn lemma_param_settled(s: Seq<u8>, pos: int)
    requires
        0 <= pos <= s.len(),
    ensures
        settled(s, pos, parse_param(s, pos)),
{
    lemma_token_bounds(s, pos);
    let t = token_at(s, pos);
    lemma_token_bounds(s, t.end);
    let t1 = token_at(s, t.end);
    lemma_token_bounds(s, t1.end);
    let t2 = if t1.kind == Tok::Op(Oprand::Mul) {
        token_at(s, t1.end)
    } else {
        t1
    };
    lemma_token_bounds(s, t2.end);
    let t3 = token_at(s, t2.end);
    lemma_token_bounds(s, t3.end);
}

/// The parameters of a function are parsed forward, and fail in the text.
pub proof fn lemma_more_params_settled(s: Seq<u8>, pos: int, done: Seq<(Type, Seq<char>)>)
    requires
        0 <= pos <= s.len(),
    ensures
        settled(s, pos, parse_more_params(s, pos, done)),
    decreases s.len() - pos,
{
    lemma_param_settled(s, pos);
    if let Ok((param, after)) = parse_param(s, pos) {
        lemma_token_bounds(s, after);
        let t = token_at(s, after);
        if t.kind != Tok::RParen && t.kind == Tok::Comma && forward(s, pos, t.end) {
            lemma_more_params_settled(s, t.end, done.push(param));
        }
    }
}

/// A top-level declaration is parsed forward, and fails in the text.
pub proof fn lemma_item_settled(s: Seq<u8>, pos: int)
    requires
        0 <= pos <= s.len(),
    ensures
        settled(s, pos, parse_item(s, pos)),
{
    lemma_token_bounds(s, pos);
    let t = token_at(s, pos);
    lemma_token_bounds(s, t.end);
    let t1 = token_at(s, t.end);
    lemma_token_bounds(s, t1.end);
    let t2 = token_at(s, t1.end);
    if type_of_word(t.kind) is Some {
        if t1.kind == Tok::Ident && t2.kind == Tok::LParen {
            lemma_token_bounds(s, t2.end);
            let t3 = token_at(s, t2.end);
            lemma_token_bounds(s, t3.end);
            lemma_more_params_settled(s, t2.end, Seq::empty());
            if let Ok((_, after)) = parse_params(s, t2.end) {
                lemma_block_settled(s, after);
            }
        } else {
            lemma_declaration_settled(s, pos);
        }
    }
}

/// A text that is no program fails at a place in the text: every error of
/// the parser has a line and a column of the text.
pub proof fn lemma_errors_lie_in_the_text(s: Seq<u8>, pos: int, done: Seq<Tree>)
    requires
        0 <= pos <= s.len(),
    ensures
        parse_items(s, pos, done) matches Err(at) ==> pos <= at <= s.len(),
    decreases s.len() - pos,
{
    lemma_token_bounds(s, pos);
    if token_at(s, pos).kind != Tok::Eof {
        lemma_item_settled(s, pos);
        if let Ok((item, after)) = parse_item(s, pos) {
            lemma_errors_lie_in_the_text(s, after, done.push(item));
        }
    }
}

} // verus!
