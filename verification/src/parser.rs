//! The parser: from the text of a program to its syntax trees.
use vstd::prelude::*;
use vstd::string::StringSliceAdditionalSpecFns;
use crate::ast::{ASTInfo, Ast, Oprand, Type};
use crate::error::{Error, ErrorType};
use crate::syntax;
use crate::syntax::{
    capped, digit_value, digits_end, digits_value, forward, is_space, is_word, lemma_params_push,
    lemma_trees_push, level_of, line_col, name_at, number_token, pair_kind, params_of,
    position_at, prefix_base, single_kind, skip_space, token_at, token_from, trees_of,
    type_of_word, word_end, word_kind, Tok, Tree,
};
use crate::text::push_char;

verus! {

/// A place in the text, with its line and its column.
#[derive(Debug, Clone, Copy)]
pub struct Cursor {
    pub pos: usize,
    pub line: usize,
    pub col: usize,
}

/// A token as the parser reads it: its sort, where it starts, and where it
/// ends.
#[derive(Debug, Clone, Copy)]
pub struct Lexeme {
    pub kind: Tok,
    pub start: Cursor,
    pub end: Cursor,
}

/// Whether the cursor stands in the text and holds the line and the column
/// of its place.
pub open spec fn cursor_at(s: Seq<u8>, c: Cursor) -> bool {
    c.pos <= s.len() && c.line == capped(line_col(s, c.pos as int).0) && c.col == capped(
        line_col(s, c.pos as int).1,
    )
}

/// Whether a lexeme is the token of the text at or after the place `pos`.
pub open spec fn lexeme_at(s: Seq<u8>, pos: int, l: Lexeme) -> bool {
    let t = token_at(s, pos);
    &&& l.kind == t.kind
    &&& l.start.pos == t.start
    &&& l.end.pos == t.end
    &&& cursor_at(s, l.start)
    &&& cursor_at(s, l.end)
    &&& pos <= l.start.pos <= l.end.pos <= s.len()
    &&& l.kind != Tok::Eof ==> l.start.pos < l.end.pos
    &&& l.kind == Tok::Eof ==> l.start.pos == s.len()
}

/// The error that a text has whose first misplaced token is at `at`.
pub open spec fn syntax_error(s: Seq<u8>, at: int) -> Error {
    Error { position: position_at(s, at), error: ErrorType::PestError }
}

/// Lines and columns are counted from 1 and never exceed the place by more
/// than one.
pub proof fn lemma_line_col_bounds(s: Seq<u8>, pos: int)
    requires
        0 <= pos <= s.len(),
    ensures
        1 <= line_col(s, pos).0 <= pos + 1,
        1 <= line_col(s, pos).1 <= pos + 1,
    decreases pos,
{
    if pos > 0 {
        lemma_line_col_bounds(s, pos - 1);
    }
}

/// Whether a byte separates tokens.
pub fn byte_is_space(b: u8) -> (r: bool)
    ensures
        r == is_space(b),
{
    b == 32 || b == 9 || b == 10 || b == 13
}

/// Whether a byte can stand in a name.
pub fn byte_is_word(b: u8) -> (r: bool)
    ensures
        r == is_word(b),
{
    (65 <= b && b <= 90) || (97 <= b && b <= 122) || b == 95 || (48 <= b && b <= 57)
}

/// The value of a byte as a digit in the given base, if it is one.
pub fn byte_digit(b: u8, base: u8) -> (r: Option<u8>)
    ensures
        match digit_value(b, base as int) {
            Some(v) => r == Some(v as u8) && v < base,
            None => r is None,
        },
{
    let v: u8 = if 48 <= b && b <= 57 {
        b - 48
    } else if 97 <= b && b <= 102 {
        b - 87
    } else if 65 <= b && b <= 70 {
        b - 55
    } else {
        16
    };
    if v < base {
        Some(v)
    } else {
        None
    }
}

/// The number after `n`, or `n` where there is none.
pub fn following(n: usize) -> (r: usize)
    ensures
        r == (if n < usize::MAX {
            n + 1
        } else {
            n as int
        }),
{
    if n < usize::MAX {
        n + 1
    } else {
        n
    }
}

/// Moves a cursor forward to the place `to`.
pub fn advance(src: &[u8], at: Cursor, to: usize) -> (r: Cursor)
    requires
        cursor_at(src@, at),
        at.pos <= to <= src@.len(),
    ensures
        cursor_at(src@, r),
        r.pos == to,
{
    let mut c = at;
    while c.pos < to
        invariant
            cursor_at(src@, c),
            at.pos <= c.pos <= to <= src@.len(),
            decreases to - c.pos,
    {
        proof {
            lemma_line_col_bounds(src@, c.pos as int);
            lemma_line_col_bounds(src@, c.pos + 1);
        }
        if src[c.pos] == 10 {
            c = Cursor { pos: c.pos + 1, line: following(c.line), col: 1 };
        } else {
            c = Cursor { pos: c.pos + 1, line: c.line, col: following(c.col) };
        }
    }
    c
}

/// Moves a cursor over the separators before the next token.
pub fn skip_spaces(src: &[u8], at: Cursor) -> (r: Cursor)
    requires
        cursor_at(src@, at),
    ensures
        cursor_at(src@, r),
        r.pos == skip_space(src@, at.pos as int),
        at.pos <= r.pos,
{
    let mut c = at;
    while c.pos < src.len() && byte_is_space(src[c.pos])
        invariant
            cursor_at(src@, c),
            at.pos <= c.pos <= src@.len(),
                skip_space(src@, at.pos as int) == skip_space(src@, c.pos as int),
        decreases src@.len() - c.pos,
    {
        proof {
            lemma_line_col_bounds(src@, c.pos as int);
            lemma_line_col_bounds(src@, c.pos + 1);
        }
        if src[c.pos] == 10 {
            c = Cursor { pos: c.pos + 1, line: following(c.line), col: 1 };
        } else {
            c = Cursor { pos: c.pos + 1, line: c.line, col: following(c.col) };
        }
    }
    c
}

/// The end of the word that goes on at `pos`.
pub fn scan_word(src: &[u8], pos: usize) -> (r: usize)
    requires
        pos <= src@.len(),
    ensures
        r == word_end(src@, pos as int),
        pos <= r <= src@.len(),
{
    let mut i = pos;
    while i < src.len() && byte_is_word(src[i])
        invariant
            pos <= i <= src@.len(),
            word_end(src@, pos as int) == word_end(src@, i as int),
        decreases src@.len() - i,
    {
        i += 1;
    }
    i
}

/// The end of the digits of a base that go on at `pos`, and the number that
/// they write from `start` on, if it fits 32 bits with a sign.
pub fn visit_int_literal(src: &[u8], start: usize, base: u8) -> (r: (usize, Option<i32>))
    requires
        start <= src@.len(),
        2 <= base <= 16,
    ensures
        r.0 == digits_end(src@, start as int, base as int),
        start <= r.0 <= src@.len(),
        start < src@.len() && digit_value(src@[start as int], base as int) is Some ==> start < r.0,
        match r.1 {
            Some(v) => digits_value(src@, start as int, r.0 as int, base as int) == v,
            None => digits_value(src@, start as int, r.0 as int, base as int) > i32::MAX,
        },
{
    let mut i = start;
    let mut value: u64 = 0;
    let mut fits = true;
    while i < src.len() && byte_digit(src[i], base).is_some()
        invariant
            start <= i <= src@.len(),
            2 <= base <= 16,
            digits_end(src@, start as int, base as int) == digits_end(
                src@,
                i as int,
                base as int,
            ),
            fits ==> value == digits_value(src@, start as int, i as int, base as int) && value
                <= i32::MAX,
            !fits ==> digits_value(src@, start as int, i as int, base as int) > i32::MAX,
            0 <= digits_value(src@, start as int, i as int, base as int),
        decreases src@.len() - i,
    {
        let d = byte_digit(src[i], base).unwrap();
        proof {
            let before = digits_value(src@, start as int, i as int, base as int);
            let after = digits_value(src@, start as int, i + 1, base as int);
            assert(after == before * base + d);
            assert(before * base >= before * 2) by (nonlinear_arith)
                requires
                    before >= 0,
                    base >= 2,
            ;
            assert(before * base <= before * 16) by (nonlinear_arith)
                requires
                    before >= 0,
                    base <= 16,
            ;
        }
        if fits {
            value = value * (base as u64) + (d as u64);
            if value > 0x7fff_ffff {
                fits = false;
            }
        }
        i += 1;
    }
    if fits {
        (i, Some(value as i32))
    } else {
        (i, None)
    }
}

/// The sort of the word from `start` to `end`: a keyword, or a name.
pub fn classify_word(src: &[u8], start: usize, end: usize) -> (r: Tok)
    requires
        start <= end <= src@.len(),
    ensures
        r == word_kind(src@.subrange(start as int, end as int)),
{
    let n = end - start;
    let ghost word = src@.subrange(start as int, end as int);
    if n == 3 && src[start] == 105 && src[start + 1] == 110 && src[start + 2] == 116 {
        assert(word =~= seq![105u8, 110u8, 116u8]);
        return Tok::Int;
    }
    assert(word != seq![105u8, 110u8, 116u8]) by {
        if word == seq![105u8, 110u8, 116u8] {
            assert(word.len() == 3);
            assert(word[0] == 105 && word[1] == 110 && word[2] == 116);
        }
    }
    if n == 4 && src[start] == 118 && src[start + 1] == 111 && src[start + 2] == 105 && src[start
        + 3] == 100 {
        assert(word =~= seq![118u8, 111u8, 105u8, 100u8]);
        return Tok::Void;
    }
    assert(word != seq![118u8, 111u8, 105u8, 100u8]) by {
        if word == seq![118u8, 111u8, 105u8, 100u8] {
            assert(word.len() == 4);
            assert(word[0] == 118 && word[1] == 111 && word[2] == 105 && word[3] == 100);
        }
    }
    if n == 2 && src[start] == 105 && src[start + 1] == 102 {
        assert(word =~= seq![105u8, 102u8]);
        return Tok::If;
    }
    assert(word != seq![105u8, 102u8]) by {
        if word == seq![105u8, 102u8] {
            assert(word.len() == 2);
            assert(word[0] == 105 && word[1] == 102);
        }
    }
    if n == 4 && src[start] == 101 && src[start + 1] == 108 && src[start + 2] == 115 && src[start
        + 3] == 101 {
        assert(word =~= seq![101u8, 108u8, 115u8, 101u8]);
        return Tok::Else;
    }
    assert(word != seq![101u8, 108u8, 115u8, 101u8]) by {
        if word == seq![101u8, 108u8, 115u8, 101u8] {
            assert(word.len() == 4);
            assert(word[0] == 101 && word[1] == 108 && word[2] == 115 && word[3] == 101);
        }
    }
    if n == 5 && src[start] == 119 && src[start + 1] == 104 && src[start + 2] == 105 && src[start
        + 3] == 108 && src[start + 4] == 101 {
        assert(word =~= seq![119u8, 104u8, 105u8, 108u8, 101u8]);
        return Tok::While;
    }
    assert(word != seq![119u8, 104u8, 105u8, 108u8, 101u8]) by {
        if word == seq![119u8, 104u8, 105u8, 108u8, 101u8] {
            assert(word.len() == 5);
            assert(word[0] == 119 && word[1] == 104 && word[2] == 105 && word[3] == 108 && word[4]
                == 101);
        }
    }
    if n == 6 && src[start] == 114 && src[start + 1] == 101 && src[start + 2] == 116 && src[start
        + 3] == 117 && src[start + 4] == 114 && src[start + 5] == 110 {
        assert(word =~= seq![114u8, 101u8, 116u8, 117u8, 114u8, 110u8]);
        return Tok::Return;
    }
    assert(word != seq![114u8, 101u8, 116u8, 117u8, 114u8, 110u8]) by {
        if word == seq![114u8, 101u8, 116u8, 117u8, 114u8, 110u8] {
            assert(word.len() == 6);
            assert(word[0] == 114 && word[1] == 101 && word[2] == 116 && word[3] == 117 && word[4]
                == 114 && word[5] == 110);
        }
    }
    Tok::Ident
}

/// The base that a prefix letter behind a zero announces.
pub fn prefix_of(b: u8) -> (r: Option<u8>)
    ensures
        match prefix_base(b) {
            Some(base) => r == Some(base as u8) && 2 <= base <= 16,
            None => r is None,
        },
{
    if b == 98 {
        Some(2)
    } else if b == 111 {
        Some(8)
    } else if b == 120 {
        Some(16)
    } else {
        None
    }
}

/// The sort of the token that two bytes spell, if they spell one.
pub fn pair_of(a: u8, b: u8) -> (r: Option<Tok>)
    ensures
        r == pair_kind(a, b),
{
    if a == 60 && b == 61 {
        Some(Tok::Op(Oprand::Le))
    } else if a == 62 && b == 61 {
        Some(Tok::Op(Oprand::Ge))
    } else if a == 61 && b == 61 {
        Some(Tok::Op(Oprand::Eq))
    } else if a == 33 && b == 61 {
        Some(Tok::Op(Oprand::Ne))
    } else if a == 38 && b == 38 {
        Some(Tok::Op(Oprand::Land))
    } else if a == 124 && b == 124 {
        Some(Tok::Op(Oprand::Lor))
    } else if a == 60 && b == 60 {
        Some(Tok::Op(Oprand::LShift))
    } else if a == 62 && b == 62 {
        Some(Tok::Op(Oprand::RShift))
    } else {
        None
    }
}

/// The sort of the token that one byte spells.
pub fn single_of(a: u8) -> (r: Tok)
    ensures
        r == single_kind(a),
{
    if a == 40 {
        Tok::LParen
    } else if a == 41 {
        Tok::RParen
    } else if a == 123 {
        Tok::LBrace
    } else if a == 125 {
        Tok::RBrace
    } else if a == 91 {
        Tok::LBracket
    } else if a == 93 {
        Tok::RBracket
    } else if a == 59 {
        Tok::Semicolon
    } else if a == 44 {
        Tok::Comma
    } else if a == 61 {
        Tok::Assign
    } else if a == 43 {
        Tok::Op(Oprand::Add)
    } else if a == 45 {
        Tok::Op(Oprand::Sub)
    } else if a == 42 {
        Tok::Op(Oprand::Mul)
    } else if a == 47 {
        Tok::Op(Oprand::Div)
    } else if a == 37 {
        Tok::Op(Oprand::Mod)
    } else if a == 60 {
        Tok::Op(Oprand::Lt)
    } else if a == 62 {
        Tok::Op(Oprand::Gt)
    } else if a == 38 {
        Tok::Op(Oprand::Band)
    } else if a == 124 {
        Tok::Op(Oprand::Bor)
    } else if a == 94 {
        Tok::Op(Oprand::Bxor)
    } else {
        Tok::Unknown
    }
}

/// The first token at or after the cursor.
pub fn next_token(src: &[u8], at: Cursor) -> (r: Lexeme)
    requires
        cursor_at(src@, at),
    ensures
        lexeme_at(src@, at.pos as int, r),
{
    let start = skip_spaces(src, at);
    let p = start.pos;
    if p >= src.len() {
        return Lexeme { kind: Tok::Eof, start, end: start };
    }
    let b = src[p];
    if (65 <= b && b <= 90) || (97 <= b && b <= 122) || b == 95 {
        let e = scan_word(src, p + 1);
        let kind = classify_word(src, p, e);
        let r = Lexeme { kind, start, end: advance(src, start, e) };
        assert(lexeme_at(src@, at.pos as int, r));
        r
    } else if 48 <= b && b <= 57 {
        let mut base: u8 = 10;
        let mut first = p;
        if src.len() - p > 2 && b == 48 {
            match prefix_of(src[p + 1]) {
                Some(announced) => {
                    if byte_digit(src[p + 2], announced).is_some() {
                        base = announced;
                        first = p + 2;
                    }
                },
                None => {},
            }
        }
        assert(digit_value(src@[first as int], base as int) is Some);
        let (e, value) = visit_int_literal(src, first, base);
        assert(e > first);
        let kind = match value {
            Some(v) => Tok::Number(v),
            None => Tok::BadNumber,
        };
        assert(token_from(src@, p as int) == number_token(src@, p as int));
        assert(number_token(src@, p as int).end == e);
        assert(number_token(src@, p as int).kind == kind);
        let r = Lexeme { kind, start, end: advance(src, start, e) };
        assert(lexeme_at(src@, at.pos as int, r));
        r
    } else if src.len() - p > 1 && pair_of(b, src[p + 1]).is_some() {
        let r = Lexeme {
            kind: pair_of(b, src[p + 1]).unwrap(),
            start,
            end: advance(src, start, p + 2),
        };
        assert(lexeme_at(src@, at.pos as int, r));
        r
    } else {
        let r = Lexeme { kind: single_of(b), start, end: advance(src, start, p + 1) };
        assert(lexeme_at(src@, at.pos as int, r));
        r
    }
}

/// The bytes from `start` to `end` as a string.
pub fn visit_id(src: &[u8], start: usize, end: usize) -> (r: String)
    requires
        start <= end <= src@.len(),
    ensures
        r@ == name_at(src@, start as int, end as int),
{
    let mut name = String::new();
    let mut i = start;
    while i < end
        invariant
            start <= i <= end <= src@.len(),
            name@ == name_at(src@, start as int, i as int),
        decreases end - i,
    {
        push_char(&mut name, src[i] as char);
        assert(name@ =~= name_at(src@, start as int, i + 1));
        i += 1;
    }
    assert(name@ =~= name_at(src@, start as int, end as int));
    name
}

/// How a function that parses one construct ends: with the node of the
/// tree that the grammar gives and a cursor behind it, or with the error of
/// the place where the grammar fails.
pub open spec fn parsed_as(
    s: Seq<u8>,
    from: int,
    outcome: Result<(Tree, int), int>,
    r: Result<(Ast, Cursor), Error>,
) -> bool {
    match outcome {
        Ok((tree, end)) => r matches Ok((ast, c)) && ast@ == tree && c.pos == end && cursor_at(s, c)
            && forward(s, from, end),
        Err(at) => r matches Err(e) && e == syntax_error(s, at),
    }
}

/// How a function that parses a list of constructs ends.
pub open spec fn parsed_list_as(
    s: Seq<u8>,
    from: int,
    outcome: Result<(Seq<Tree>, int), int>,
    r: Result<(Vec<Ast>, Cursor), Error>,
) -> bool {
    match outcome {
        Ok((trees, end)) => r matches Ok((asts, c)) && trees_of(asts@, asts@.len() as int) == trees
            && c.pos == end && cursor_at(s, c) && from <= end <= s.len(),
        Err(at) => r matches Err(e) && e == syntax_error(s, at),
    }
}

/// The error of a token that cannot stand where it stands.
pub fn unexpected(t: Lexeme) -> (r: Error)
    ensures
        r == (Error { position: (t.start.line, t.start.col), error: ErrorType::PestError }),
{
    Error::new((t.start.line, t.start.col), ErrorType::PestError)
}

/// How tightly an operator binds.
pub fn binding_level(op: Oprand) -> (r: u8)
    ensures
        r == level_of(op),
{
    match op {
        Oprand::Lor => 0,
        Oprand::Land => 1,
        Oprand::Bor => 2,
        Oprand::Bxor => 3,
        Oprand::Band => 4,
        Oprand::Eq => 5,
        Oprand::Ne => 5,
        Oprand::Lt => 6,
        Oprand::Le => 6,
        Oprand::Gt => 6,
        Oprand::Ge => 6,
        Oprand::LShift => 7,
        Oprand::RShift => 7,
        Oprand::Add => 8,
        Oprand::Sub => 8,
        Oprand::Mul => 9,
        Oprand::Div => 9,
        Oprand::Mod => 9,
    }
}

/// The type that a type word names.
pub fn visit_type_spec(kind: Tok) -> (r: Option<Type>)
    ensures
        r == type_of_word(kind),
{
    match kind {
        Tok::Int => Some(Type::Int),
        Tok::Void => Some(Type::Void),
        _ => None,
    }
}

/// Parses a variable, with or without a subscript. The cursor stands
/// before its name, and no parenthesis follows the name.
pub fn visit_var(src: &[u8], at: Cursor) -> (r: Result<(Ast, Cursor), Error>)
    requires
        cursor_at(src@, at),
        token_at(src@, at.pos as int).kind == Tok::Ident,
        token_at(src@, token_at(src@, at.pos as int).end).kind != Tok::LParen,
    ensures
        parsed_as(src@, at.pos as int, syntax::parse_operand(src@, at.pos as int), r),
    decreases src@.len() - at.pos, 0nat,
{
    let t = next_token(src, at);
    let position = (t.start.line, t.start.col);
    let name = visit_id(src, t.start.pos, t.end.pos);
    let t2 = next_token(src, t.end);
    match t2.kind {
        Tok::LBracket => match visit_expression(src, t2.end) {
            Err(e) => Err(e),
            Ok((index, after)) => {
                let t3 = next_token(src, after);
                match t3.kind {
                    Tok::RBracket => Ok(
                        (
                            Ast::new(position, ASTInfo::Variable(name, Some(Box::new(index)))),
                            t3.end,
                        ),
                    ),
                    _ => Err(unexpected(t3)),
                }
            },
        },
        _ => Ok((Ast::new(position, ASTInfo::Variable(name, None)), t.end)),
    }
}

/// Parses a call. The cursor stands before the name of the callee, and a
/// parenthesis follows the name.
pub fn visit_call_expr(src: &[u8], at: Cursor) -> (r: Result<(Ast, Cursor), Error>)
    requires
        cursor_at(src@, at),
        token_at(src@, at.pos as int).kind == Tok::Ident,
        token_at(src@, token_at(src@, at.pos as int).end).kind == Tok::LParen,
    ensures
        parsed_as(src@, at.pos as int, syntax::parse_operand(src@, at.pos as int), r),
    decreases src@.len() - at.pos, 0nat,
{
    let t = next_token(src, at);
    let position = (t.start.line, t.start.col);
    let name = visit_id(src, t.start.pos, t.end.pos);
    let t2 = next_token(src, t.end);
    match visit_args(src, t2.end) {
        Err(e) => Err(e),
        Ok((args, end)) => Ok((Ast::new(position, ASTInfo::CallExpr(name, args)), end)),
    }
}

/// Parses an expression in parentheses: gives the node of the expression.
/// The cursor stands before the opening parenthesis.
pub fn visit_bracket_expr(src: &[u8], at: Cursor) -> (r: Result<(Ast, Cursor), Error>)
    requires
        cursor_at(src@, at),
        token_at(src@, at.pos as int).kind == Tok::LParen,
    ensures
        parsed_as(src@, at.pos as int, syntax::parse_operand(src@, at.pos as int), r),
    decreases src@.len() - at.pos, 0nat,
{
    let t = next_token(src, at);
    match visit_expression(src, t.end) {
        Err(e) => Err(e),
        Ok((inner, after)) => {
            let t2 = next_token(src, after);
            match t2.kind {
                Tok::RParen => Ok((inner, t2.end)),
                _ => Err(unexpected(t2)),
            }
        },
    }
}

/// Parses an operand: a number, a call, a variable, or an expression in
/// parentheses.
pub fn visit_unary_expr(src: &[u8], at: Cursor) -> (r: Result<(Ast, Cursor), Error>)
    requires
        cursor_at(src@, at),
    ensures
        parsed_as(src@, at.pos as int, syntax::parse_operand(src@, at.pos as int), r),
    decreases src@.len() - at.pos, 1nat,
{
    let t = next_token(src, at);
    match t.kind {
        Tok::Number(v) => Ok(
            (Ast::new((t.start.line, t.start.col), ASTInfo::IntLiteral(v)), t.end),
        ),
        Tok::Ident => {
            let t2 = next_token(src, t.end);
            match t2.kind {
                Tok::LParen => visit_call_expr(src, at),
                _ => visit_var(src, at),
            }
        },
        Tok::LParen => visit_bracket_expr(src, at),
        _ => Err(unexpected(t)),
    }
}

/// Parses the arguments of a call behind its opening parenthesis, up to and
/// with the closing one.
pub fn visit_args(src: &[u8], at: Cursor) -> (r: Result<(Vec<Ast>, Cursor), Error>)
    requires
        cursor_at(src@, at),
    ensures
        parsed_list_as(src@, at.pos as int, syntax::parse_arguments(src@, at.pos as int), r),
    decreases src@.len() - at.pos, 32nat,
{
    let mut args: Vec<Ast> = Vec::new();
    let t = next_token(src, at);
    match t.kind {
        Tok::RParen => {
            return Ok((args, t.end));
        },
        _ => {},
    }
    let mut cur = at;
    loop
        invariant
            cursor_at(src@, cur),
            at.pos <= cur.pos,
                syntax::parse_arguments(src@, at.pos as int) == syntax::parse_more_arguments(
                src@,
                cur.pos as int,
                trees_of(args@, args@.len() as int),
            ),
        decreases src@.len() - cur.pos,
    {
        match visit_expression(src, cur) {
            Err(e) => {
                return Err(e);
            },
            Ok((arg, after)) => {
                proof {
                    lemma_trees_push(args@, arg);
                }
                args.push(arg);
                let t = next_token(src, after);
                match t.kind {
                    Tok::RParen => {
                        return Ok((args, t.end));
                    },
                    Tok::Comma => {
                        cur = t.end;
                    },
                    _ => {
                        return Err(unexpected(t));
                    },
                }
            },
        }
    }
}

/// Parses an expression of operators that bind at least as tightly as
/// `level`: operands joined by the operators of the level, to the left.
pub fn visit_binary_expr(src: &[u8], level: u8, at: Cursor) -> (r: Result<(Ast, Cursor), Error>)
    requires
        cursor_at(src@, at),
    ensures
        parsed_as(src@, at.pos as int, syntax::parse_binary(src@, level as int, at.pos as int), r),
    decreases src@.len() - at.pos, syntax::level_rank(level as int),
{
    if level > 9 {
        return visit_unary_expr(src, at);
    }
    let first = next_token(src, at);
    let position = (first.start.line, first.start.col);
    let (mut left, mut cur) = match visit_binary_expr(src, level + 1, at) {
        Err(e) => {
            return Err(e);
        },
        Ok(done) => done,
    };
    loop
        invariant
            cursor_at(src@, cur),
            cursor_at(src@, first.start),
            position == (first.start.line, first.start.col),
            at.pos < cur.pos <= src@.len(),
                level <= 9,
            syntax::parse_binary(src@, level as int, at.pos as int) == syntax::parse_binary_rest(
                src@,
                level as int,
                first.start.pos as int,
                left@,
                cur.pos as int,
            ),
        decreases src@.len() - cur.pos,
    {
        let t = next_token(src, cur);
        let op = match t.kind {
            Tok::Op(op) => {
                if binding_level(op) == level {
                    op
                } else {
                    return Ok((left, cur));
                }
            },
            _ => {
                return Ok((left, cur));
            },
        };
        match visit_binary_expr(src, level + 1, t.end) {
            Err(e) => {
                return Err(e);
            },
            Ok((right, after)) => {
                left = Ast::new(position, ASTInfo::BinaryExpr(op, Box::new(left), Box::new(right)));
                cur = after;
            },
        }
    }
}

/// Parses the rest of an assignment behind its variable: the sign `=` and
/// the expression, and gives the node of the assignment. The cursor stands
/// behind the variable `left`, which is the whole of what was parsed from
/// `from` on.
pub fn visit_assignment_expr(src: &[u8], from: Cursor, left: Ast, at: Cursor) -> (r: Result<
    (Ast, Cursor),
    Error,
>)
    requires
        cursor_at(src@, from),
        cursor_at(src@, at),
        from.pos < at.pos,
        syntax::parse_binary(src@, 0, from.pos as int) == Ok::<(Tree, int), int>(
            (left@, at.pos as int),
        ),
        token_at(src@, at.pos as int).kind == Tok::Assign,
        left.info is Variable,
        token_at(src@, from.pos as int).kind == Tok::Ident,
    ensures
        parsed_as(src@, from.pos as int, syntax::parse_expr(src@, from.pos as int), r),
    decreases src@.len() - at.pos, 31nat,
{
    let t = next_token(src, at);
    match visit_expression(src, t.end) {
        Err(e) => Err(e),
        Ok((right, end)) => {
            let position = left.position;
            Ok(
                (
                    Ast::new(position, ASTInfo::AssignmentExpr(Box::new(left), Box::new(right))),
                    end,
                ),
            )
        },
    }
}

/// Parses an expression: an assignment where a variable that stands first
/// is followed by `=`, else a binary expression.
pub fn visit_expression(src: &[u8], at: Cursor) -> (r: Result<(Ast, Cursor), Error>)
    requires
        cursor_at(src@, at),
    ensures
        parsed_as(src@, at.pos as int, syntax::parse_expr(src@, at.pos as int), r),
    decreases src@.len() - at.pos, 30nat,
{
    let first = next_token(src, at);
    match visit_binary_expr(src, 0, at) {
        Err(e) => Err(e),
        Ok((left, after)) => {
            let t = next_token(src, after);
            let assigns = match (&t.kind, &left.info, &first.kind) {
                (Tok::Assign, ASTInfo::Variable(_, _), Tok::Ident) => true,
                _ => false,
            };
            if assigns {
                visit_assignment_expr(src, at, left, after)
            } else {
                Ok((left, after))
            }
        },
    }
}

/// How a function that parses a statement ends: the empty statement gives
/// no node.
pub open spec fn parsed_statement_as(
    s: Seq<u8>,
    from: int,
    outcome: Result<(Option<Tree>, int), int>,
    r: Result<(Option<Ast>, Cursor), Error>,
) -> bool {
    match outcome {
        Ok((tree, end)) => r matches Ok((ast, c)) && (match tree {
            Some(t) => ast matches Some(a) && a@ == t,
            None => ast is None,
        }) && c.pos == end && cursor_at(s, c) && forward(s, from, end),
        Err(at) => r matches Err(e) && e == syntax_error(s, at),
    }
}

/// Parses the declaration of a variable: a type, a name, the length of an
/// array in brackets where it is one, and a semicolon.
pub fn visit_var_declaration(src: &[u8], at: Cursor) -> (r: Result<(Ast, Cursor), Error>)
    requires
        cursor_at(src@, at),
    ensures
        parsed_as(src@, at.pos as int, syntax::parse_declaration(src@, at.pos as int), r),
{
    let t = next_token(src, at);
    let position = (t.start.line, t.start.col);
    let ty = match visit_type_spec(t.kind) {
        None => {
            return Err(unexpected(t));
        },
        Some(ty) => ty,
    };
    let t1 = next_token(src, t.end);
    match t1.kind {
        Tok::Ident => {},
        _ => {
            return Err(unexpected(t1));
        },
    }
    let name = visit_id(src, t1.start.pos, t1.end.pos);
    let t2 = next_token(src, t1.end);
    match t2.kind {
        Tok::Semicolon => Ok((Ast::new(position, ASTInfo::VariableDec(ty, name)), t2.end)),
        Tok::LBracket => {
            let t3 = next_token(src, t2.end);
            match t3.kind {
                Tok::Number(n) => {
                    if n < 1 {
                        return Err(unexpected(t3));
                    }
                    let t4 = next_token(src, t3.end);
                    let t5 = next_token(src, t4.end);
                    match t4.kind {
                        Tok::RBracket => {},
                        _ => {
                            return Err(unexpected(t4));
                        },
                    }
                    match t5.kind {
                        Tok::Semicolon => {},
                        _ => {
                            return Err(unexpected(t5));
                        },
                    }
                    Ok(
                        (
                            Ast::new(
                                position,
                                ASTInfo::VariableDec(Type::IntArray(n as usize), name),
                            ),
                            t5.end,
                        ),
                    )
                },
                _ => Err(unexpected(t3)),
            }
        },
        _ => Err(unexpected(t2)),
    }
}

/// Parses a condition in parentheses and the statement that it governs.
pub fn visit_governed(src: &[u8], at: Cursor) -> (r: Result<(Ast, Ast, Cursor), Error>)
    requires
        cursor_at(src@, at),
    ensures
        match syntax::parse_governed(src@, at.pos as int) {
            Ok((cond, body, end)) => r matches Ok((c, b, cur)) && c@ == cond && b@ == body
                && cur.pos == end && cursor_at(src@, cur) && forward(src@, at.pos as int, end),
            Err(off) => r matches Err(e) && e == syntax_error(src@, off),
        },
    decreases src@.len() - at.pos, 38nat,
{
    let t = next_token(src, at);
    match t.kind {
        Tok::LParen => {},
        _ => {
            return Err(unexpected(t));
        },
    }
    match visit_expression(src, t.end) {
        Err(e) => Err(e),
        Ok((cond, after)) => {
            let t2 = next_token(src, after);
            match t2.kind {
                Tok::RParen => {},
                _ => {
                    return Err(unexpected(t2));
                },
            }
            match visit_statement(src, t2.end) {
                Err(e) => Err(e),
                Ok((None, _)) => Err(unexpected(next_token(src, t2.end))),
                Ok((Some(body), end)) => Ok((cond, body, end)),
            }
        },
    }
}

/// Parses a statement: a block, a selection, a loop, a return, an
/// expression with its semicolon, or the empty statement.
pub fn visit_statement(src: &[u8], at: Cursor) -> (r: Result<(Option<Ast>, Cursor), Error>)
    requires
        cursor_at(src@, at),
    ensures
        parsed_statement_as(src@, at.pos as int, syntax::parse_statement(src@, at.pos as int), r),
    decreases src@.len() - at.pos, 40nat,
{
    let t = next_token(src, at);
    let position = (t.start.line, t.start.col);
    match t.kind {
        Tok::LBrace => match visit_block_stmt(src, at) {
            Err(e) => Err(e),
            Ok((block, end)) => Ok((Some(block), end)),
        },
        Tok::Semicolon => Ok((None, t.end)),
        Tok::If => match visit_governed(src, t.end) {
            Err(e) => Err(e),
            Ok((cond, then, after)) => {
                let t2 = next_token(src, after);
                match t2.kind {
                    Tok::Else => match visit_statement(src, t2.end) {
                        Err(e) => Err(e),
                        Ok((None, _)) => Err(unexpected(next_token(src, t2.end))),
                        Ok((Some(other), end)) => Ok(
                            (
                                Some(
                                    Ast::new(
                                        position,
                                        ASTInfo::SelectionStmt(
                                            Box::new(cond),
                                            Box::new(then),
                                            Some(Box::new(other)),
                                        ),
                                    ),
                                ),
                                end,
                            ),
                        ),
                    },
                    _ => Ok(
                        (
                            Some(
                                Ast::new(
                                    position,
                                    ASTInfo::SelectionStmt(Box::new(cond), Box::new(then), None),
                                ),
                            ),
                            after,
                        ),
                    ),
                }
            },
        },
        Tok::While => match visit_governed(src, t.end) {
            Err(e) => Err(e),
            Ok((cond, body, end)) => Ok(
                (
                    Some(
                        Ast::new(
                            position,
                            ASTInfo::IterationStmt(Box::new(cond), Box::new(body)),
                        ),
                    ),
                    end,
                ),
            ),
        },
        Tok::Return => {
            let t2 = next_token(src, t.end);
            match t2.kind {
                Tok::Semicolon => Ok(
                    (Some(Ast::new(position, ASTInfo::ReturnStmt(None))), t2.end),
                ),
                _ => match visit_expression(src, t.end) {
                    Err(e) => Err(e),
                    Ok((value, after)) => {
                        let t3 = next_token(src, after);
                        match t3.kind {
                            Tok::Semicolon => Ok(
                                (
                                    Some(
                                        Ast::new(
                                            position,
                                            ASTInfo::ReturnStmt(Some(Box::new(value))),
                                        ),
                                    ),
                                    t3.end,
                                ),
                            ),
                            _ => Err(unexpected(t3)),
                        }
                    },
                },
            }
        },
        _ => match visit_expression(src, at) {
            Err(e) => Err(e),
            Ok((e, after)) => {
                let t2 = next_token(src, after);
                match t2.kind {
                    Tok::Semicolon => Ok((Some(e), t2.end)),
                    _ => Err(unexpected(t2)),
                }
            },
        },
    }
}

/// Parses the declarations at the start of a block: as many as there are.
pub fn visit_declarations(src: &[u8], at: Cursor) -> (r: Result<(Vec<Ast>, Cursor), Error>)
    requires
        cursor_at(src@, at),
    ensures
        parsed_list_as(
            src@,
            at.pos as int,
            syntax::parse_declarations(src@, at.pos as int, Seq::empty()),
            r,
        ),
{
    let mut decls: Vec<Ast> = Vec::new();
    let mut cur = at;
    loop
        invariant
            cursor_at(src@, cur),
            at.pos <= cur.pos <= src@.len(),
            syntax::parse_declarations(src@, at.pos as int, Seq::empty())
                == syntax::parse_declarations(
                src@,
                cur.pos as int,
                trees_of(decls@, decls@.len() as int),
            ),
        decreases src@.len() - cur.pos,
    {
        let peek = next_token(src, cur);
        if visit_type_spec(peek.kind).is_none() {
            return Ok((decls, cur));
        }
        match visit_var_declaration(src, cur) {
            Err(e) => {
                return Err(e);
            },
            Ok((d, after)) => {
                proof {
                    lemma_trees_push(decls@, d);
                }
                decls.push(d);
                cur = after;
            },
        }
    }
}

/// Parses the statements of a block, up to and with its closing brace.
pub fn visit_statements(src: &[u8], at: Cursor) -> (r: Result<(Vec<Ast>, Cursor), Error>)
    requires
        cursor_at(src@, at),
    ensures
        parsed_list_as(
            src@,
            at.pos as int,
            syntax::parse_statements(src@, at.pos as int, Seq::empty()),
            r,
        ),
    decreases src@.len() - at.pos, 41nat,
{
    let mut stmts: Vec<Ast> = Vec::new();
    let mut cur = at;
    loop
        invariant
            cursor_at(src@, cur),
            at.pos <= cur.pos <= src@.len(),
            syntax::parse_statements(src@, at.pos as int, Seq::empty())
                == syntax::parse_statements(
                src@,
                cur.pos as int,
                trees_of(stmts@, stmts@.len() as int),
            ),
        decreases src@.len() - cur.pos,
    {
        let peek = next_token(src, cur);
        match peek.kind {
            Tok::RBrace => {
                return Ok((stmts, peek.end));
            },
            _ => {},
        }
        match visit_statement(src, cur) {
            Err(e) => {
                return Err(e);
            },
            Ok((st, after)) => {
                match st {
                    Some(tree) => {
                        proof {
                            lemma_trees_push(stmts@, tree);
                        }
                        stmts.push(tree);
                    },
                    None => {},
                }
                cur = after;
            },
        }
    }
}

/// Parses a block: declarations, then statements, in braces.
pub fn visit_block_stmt(src: &[u8], at: Cursor) -> (r: Result<(Ast, Cursor), Error>)
    requires
        cursor_at(src@, at),
    ensures
        parsed_as(src@, at.pos as int, syntax::parse_block(src@, at.pos as int), r),
    decreases src@.len() - at.pos, 39nat,
{
    let t = next_token(src, at);
    let position = (t.start.line, t.start.col);
    match t.kind {
        Tok::LBrace => {},
        _ => {
            return Err(unexpected(t));
        },
    }
    match visit_declarations(src, t.end) {
        Err(e) => Err(e),
        Ok((decls, after)) => match visit_statements(src, after) {
            Err(e) => Err(e),
            Ok((stmts, end)) => Ok((Ast::new(position, ASTInfo::BlockStmt(decls, stmts)), end)),
        },
    }
}

/// Parses one parameter: a type and a name; a star before the name or a
/// pair of brackets behind it makes it a pointer.
pub fn visit_param(src: &[u8], at: Cursor) -> (r: Result<((Type, String), Cursor), Error>)
    requires
        cursor_at(src@, at),
    ensures
        match syntax::parse_param(src@, at.pos as int) {
            Ok((param, end)) => r matches Ok((p, cur)) && p.0 == param.0 && p.1@ == param.1
                && cur.pos == end && cursor_at(src@, cur) && forward(src@, at.pos as int, end),
            Err(off) => r matches Err(e) && e == syntax_error(src@, off),
        },
{
    let t = next_token(src, at);
    let ty = match visit_type_spec(t.kind) {
        None => {
            return Err(unexpected(t));
        },
        Some(ty) => ty,
    };
    let t1 = next_token(src, t.end);
    let starred = match t1.kind {
        Tok::Op(Oprand::Mul) => true,
        _ => false,
    };
    let t2 = if starred {
        next_token(src, t1.end)
    } else {
        t1
    };
    match t2.kind {
        Tok::Ident => {},
        _ => {
            return Err(unexpected(t2));
        },
    }
    let name = visit_id(src, t2.start.pos, t2.end.pos);
    let t3 = next_token(src, t2.end);
    match t3.kind {
        Tok::LBracket => {
            let t4 = next_token(src, t3.end);
            match t4.kind {
                Tok::RBracket => Ok(((Type::IntPtr, name), t4.end)),
                _ => Err(unexpected(t4)),
            }
        },
        _ => Ok(
            (
                (
                    if starred {
                        Type::IntPtr
                    } else {
                        ty
                    },
                    name,
                ),
                t2.end,
            ),
        ),
    }
}

/// Parses the parameters of a function behind its opening parenthesis, up
/// to and with the closing one.
pub fn visit_params(src: &[u8], at: Cursor) -> (r: Result<(Vec<(Type, String)>, Cursor), Error>)
    requires
        cursor_at(src@, at),
    ensures
        match syntax::parse_params(src@, at.pos as int) {
            Ok((params, end)) => r matches Ok((ps, cur)) && params_of(ps@, ps@.len() as int)
                == params && cur.pos == end && cursor_at(src@, cur) && at.pos <= end <= src@.len(),
            Err(off) => r matches Err(e) && e == syntax_error(src@, off),
        },
{
    let mut params: Vec<(Type, String)> = Vec::new();
    let t = next_token(src, at);
    let t2 = next_token(src, t.end);
    match (&t.kind, &t2.kind) {
        (Tok::RParen, _) => {
            return Ok((params, t.end));
        },
        (Tok::Void, Tok::RParen) => {
            return Ok((params, t2.end));
        },
        _ => {},
    }
    let mut cur = at;
    loop
        invariant
            cursor_at(src@, cur),
            at.pos <= cur.pos,
            syntax::parse_params(src@, at.pos as int) == syntax::parse_more_params(
                src@,
                cur.pos as int,
                params_of(params@, params@.len() as int),
            ),
        decreases src@.len() - cur.pos,
    {
        match visit_param(src, cur) {
            Err(e) => {
                return Err(e);
            },
            Ok((param, after)) => {
                proof {
                    lemma_params_push(params@, param);
                }
                params.push(param);
                let t = next_token(src, after);
                match t.kind {
                    Tok::RParen => {
                        return Ok((params, t.end));
                    },
                    Tok::Comma => {
                        cur = t.end;
                    },
                    _ => {
                        return Err(unexpected(t));
                    },
                }
            },
        }
    }
}

/// Parses a top-level declaration: a function where a parenthesis follows
/// the name, else a variable.
pub fn visit_func_declaration(src: &[u8], at: Cursor) -> (r: Result<(Ast, Cursor), Error>)
    requires
        cursor_at(src@, at),
    ensures
        parsed_as(src@, at.pos as int, syntax::parse_item(src@, at.pos as int), r),
{
    let t = next_token(src, at);
    let t1 = next_token(src, t.end);
    let t2 = next_token(src, t1.end);
    let position = (t.start.line, t.start.col);
    let ty = match visit_type_spec(t.kind) {
        None => {
            return Err(unexpected(t));
        },
        Some(ty) => ty,
    };
    match (&t1.kind, &t2.kind) {
        (Tok::Ident, Tok::LParen) => {
            let name = visit_id(src, t1.start.pos, t1.end.pos);
            match visit_params(src, t2.end) {
                Err(e) => Err(e),
                Ok((params, after)) => match visit_block_stmt(src, after) {
                    Err(e) => Err(e),
                    Ok((body, end)) => Ok(
                        (
                            Ast::new(
                                position,
                                ASTInfo::FunctionDec(ty, name, params, Box::new(body)),
                            ),
                            end,
                        ),
                    ),
                },
            }
        },
        _ => visit_var_declaration(src, at),
    }
}

/// Parses the top-level declarations of a program, up to the end of the
/// text.
pub fn visit_program(src: &[u8]) -> (r: Result<Vec<Ast>, Error>)
    ensures
        match syntax::parse_program(src@) {
            Ok(trees) => r matches Ok(asts) && trees_of(asts@, asts@.len() as int) == trees,
            Err(off) => r matches Err(e) && e == syntax_error(src@, off),
        },
{
    let mut items: Vec<Ast> = Vec::new();
    let mut cur = Cursor { pos: 0, line: 1, col: 1 };
    loop
        invariant
            cursor_at(src@, cur),
            syntax::parse_program(src@) == syntax::parse_items(
                src@,
                cur.pos as int,
                trees_of(items@, items@.len() as int),
            ),
        decreases src@.len() - cur.pos,
    {
        let peek = next_token(src, cur);
        match peek.kind {
            Tok::Eof => {
                return Ok(items);
            },
            _ => {},
        }
        match visit_func_declaration(src, cur) {
            Err(e) => {
                return Err(e);
            },
            Ok((item, after)) => {
                proof {
                    lemma_trees_push(items@, item);
                }
                items.push(item);
                cur = after;
            },
        }
    }
}

/// The parser of C--.
#[derive(Debug, Clone, Copy)]
pub struct CParser;

impl CParser {
    /// Parses the text of a program: gives the syntax trees of its top-level
    /// declarations, or the error of the first token that cannot stand
    /// where it stands.
    pub fn parse(source_code: &str) -> (r: Result<Vec<Ast>, Error>)
        ensures
            match syntax::parse_program(source_code.spec_bytes()) {
                Ok(trees) => r matches Ok(asts) && trees_of(asts@, asts@.len() as int) == trees,
                Err(off) => r matches Err(e) && e == syntax_error(source_code.spec_bytes(), off),
            },
    {
        visit_program(source_code.as_bytes())
    }
}

impl Ast {
    /// Turns the text of a program into its syntax trees, one for each
    /// top-level declaration.
    ///
    /// Fails with `PestError` where the text is no program, at the line and
    /// column of the first token that cannot stand where it stands.
    pub fn parse(source_code: &str) -> (r: Result<Vec<Ast>, Error>)
        ensures
            match syntax::parse_program(source_code.spec_bytes()) {
                Ok(trees) => r matches Ok(asts) && trees_of(asts@, asts@.len() as int) == trees,
                Err(off) => r matches Err(e) && e == syntax_error(source_code.spec_bytes(), off),
            },
    {
        CParser::parse(source_code)
    }
}

} // verus!
