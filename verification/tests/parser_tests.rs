use cmm::ast::{ASTInfo, Ast, Oprand, Type};
use cmm::error::{Error, ErrorType};
use cmm::parser::{next_token, CParser, Cursor};
use cmm::syntax::Tok;

fn node(line: usize, col: usize, info: ASTInfo) -> Ast {
    Ast { position: (line, col), info }
}

fn boxed(line: usize, col: usize, info: ASTInfo) -> Box<Ast> {
    Box::new(node(line, col, info))
}

fn body_of(source: &str) -> Vec<Ast> {
    let mut items = Ast::parse(source).expect("the text is a program");
    assert_eq!(items.len(), 1);
    match items.remove(0).info {
        ASTInfo::FunctionDec(_, _, _, body) => match body.info {
            ASTInfo::BlockStmt(_, stmts) => stmts,
            other => panic!("the body is no block: {:?}", other),
        },
        other => panic!("the item is no function: {:?}", other),
    }
}

fn syntax_error_at(source: &str) -> (usize, usize) {
    match Ast::parse(source) {
        Ok(items) => panic!("the text was parsed: {:?}", items),
        Err(e) => {
            assert_eq!(e.error, ErrorType::PestError);
            e.position
        }
    }
}

#[test]
fn parses_the_smallest_program() {
    let items = Ast::parse("int main(void) { return 0; }").unwrap();
    let expected = vec![node(
        1,
        1,
        ASTInfo::FunctionDec(
            Type::Int,
            "main".to_string(),
            vec![],
            boxed(
                1,
                16,
                ASTInfo::BlockStmt(
                    vec![],
                    vec![node(
                        1,
                        18,
                        ASTInfo::ReturnStmt(Some(boxed(1, 25, ASTInfo::IntLiteral(0)))),
                    )],
                ),
            ),
        ),
    )];
    assert_eq!(items, expected);
}

#[test]
fn parser_type_and_ast_parse_agree() {
    let source = "int g; void f(int n) { g = n; }";
    assert_eq!(CParser::parse(source), Ast::parse(source));
}

#[test]
fn an_empty_text_is_an_empty_program() {
    assert_eq!(Ast::parse("").unwrap(), vec![]);
    assert_eq!(Ast::parse(" \n\t\r\n ").unwrap(), vec![]);
}

#[test]
fn parses_global_variables_and_arrays() {
    let items = Ast::parse("int x;\nint a[16];\nvoid v;").unwrap();
    assert_eq!(
        items,
        vec![
            node(1, 1, ASTInfo::VariableDec(Type::Int, "x".to_string())),
            node(2, 1, ASTInfo::VariableDec(Type::IntArray(16), "a".to_string())),
            node(3, 1, ASTInfo::VariableDec(Type::Void, "v".to_string())),
        ]
    );
}

#[test]
fn parses_parameters_of_every_form() {
    let items = Ast::parse("int f(int a[], int *b, int c, void d) {}").unwrap();
    match &items[0].info {
        ASTInfo::FunctionDec(ret, name, params, body) => {
            assert_eq!(*ret, Type::Int);
            assert_eq!(name, "f");
            assert_eq!(
                *params,
                vec![
                    (Type::IntPtr, "a".to_string()),
                    (Type::IntPtr, "b".to_string()),
                    (Type::Int, "c".to_string()),
                    (Type::Void, "d".to_string()),
                ]
            );
            assert_eq!(**body, node(1, 39, ASTInfo::BlockStmt(vec![], vec![])));
        }
        other => panic!("no function: {:?}", other),
    }
}

#[test]
fn empty_and_void_parameter_lists_are_empty() {
    for source in ["void f() {}", "void f(void) {}", "void f( void ) {}"] {
        let items = Ast::parse(source).unwrap();
        match &items[0].info {
            ASTInfo::FunctionDec(ret, _, params, _) => {
                assert_eq!(*ret, Type::Void);
                assert!(params.is_empty());
            }
            other => panic!("no function: {:?}", other),
        }
    }
}

#[test]
fn literals_in_four_bases() {
    let stmts = body_of("int main(void){ 0b101; 0o17; 42; 0x1F; 0xff; 007; }");
    let values: Vec<i32> = stmts
        .iter()
        .map(|s| match s.info {
            ASTInfo::IntLiteral(v) => v,
            _ => panic!("no literal"),
        })
        .collect();
    assert_eq!(values, vec![5, 15, 42, 31, 255, 7]);
}

#[test]
fn the_largest_literal_fits_and_the_next_does_not() {
    let stmts = body_of("int main(void){ return 2147483647; }");
    assert_eq!(
        stmts[0],
        node(1, 17, ASTInfo::ReturnStmt(Some(boxed(1, 24, ASTInfo::IntLiteral(2147483647)))))
    );
    assert_eq!(syntax_error_at("int main(void){ return 2147483648; }"), (1, 24));
    assert_eq!(syntax_error_at("int main(void){ return 0x80000000; }"), (1, 24));
    assert_eq!(syntax_error_at("int main(void){ return 99999999999999999999999; }"), (1, 24));
}

#[test]
fn a_prefix_without_digits_is_a_zero_and_a_name() {
    // `0x` with no hexadecimal digit behind it is the number 0, and `x` starts a name
    assert_eq!(syntax_error_at("int main(void){ return 0xg; }"), (1, 25));
}

#[test]
fn operators_bind_as_in_c() {
    let stmts = body_of("int main(void){ 1 + 2 * 3; }");
    assert_eq!(
        stmts[0],
        node(
            1,
            17,
            ASTInfo::BinaryExpr(
                Oprand::Add,
                boxed(1, 17, ASTInfo::IntLiteral(1)),
                boxed(
                    1,
                    21,
                    ASTInfo::BinaryExpr(
                        Oprand::Mul,
                        boxed(1, 21, ASTInfo::IntLiteral(2)),
                        boxed(1, 25, ASTInfo::IntLiteral(3)),
                    ),
                ),
            ),
        )
    );
}

#[test]
fn operators_of_one_level_group_to_the_left() {
    let stmts = body_of("int main(void){ 7 - 2 - 1; }");
    assert_eq!(
        stmts[0],
        node(
            1,
            17,
            ASTInfo::BinaryExpr(
                Oprand::Sub,
                boxed(
                    1,
                    17,
                    ASTInfo::BinaryExpr(
                        Oprand::Sub,
                        boxed(1, 17, ASTInfo::IntLiteral(7)),
                        boxed(1, 21, ASTInfo::IntLiteral(2)),
                    ),
                ),
                boxed(1, 25, ASTInfo::IntLiteral(1)),
            ),
        )
    );
}

fn operator_of(source: &str) -> Oprand {
    let stmts = body_of(source);
    match &stmts[0].info {
        ASTInfo::BinaryExpr(op, _, _) => *op,
        other => panic!("no binary expression: {:?}", other),
    }
}

#[test]
fn every_operator_is_read() {
    let cases = [
        ("+", Oprand::Add),
        ("-", Oprand::Sub),
        ("*", Oprand::Mul),
        ("/", Oprand::Div),
        ("%", Oprand::Mod),
        (">=", Oprand::Ge),
        ("<=", Oprand::Le),
        (">", Oprand::Gt),
        ("<", Oprand::Lt),
        ("==", Oprand::Eq),
        ("!=", Oprand::Ne),
        ("&", Oprand::Band),
        ("|", Oprand::Bor),
        ("^", Oprand::Bxor),
        ("&&", Oprand::Land),
        ("||", Oprand::Lor),
        ("<<", Oprand::LShift),
        (">>", Oprand::RShift),
    ];
    for (text, op) in cases {
        let source = format!("int main(void){{ 1 {} 2; }}", text);
        assert_eq!(operator_of(&source), op);
    }
}

#[test]
fn the_lowest_level_is_the_outermost() {
    let stmts = body_of("int main(void){ a || b && c | d ^ e & f == g < h << i + j * k; }");
    let expected = [
        Oprand::Lor,
        Oprand::Land,
        Oprand::Bor,
        Oprand::Bxor,
        Oprand::Band,
        Oprand::Eq,
        Oprand::Lt,
        Oprand::LShift,
        Oprand::Add,
        Oprand::Mul,
    ];
    let mut seen = vec![];
    let mut cur = &stmts[0];
    while let ASTInfo::BinaryExpr(op, _, r) = &cur.info {
        seen.push(*op);
        cur = r;
    }
    assert_eq!(seen, expected);
}

#[test]
fn parentheses_stand_for_what_is_in_them() {
    let stmts = body_of("int main(void){ (1 + 2) * 3; }");
    assert_eq!(
        stmts[0],
        node(
            1,
            17,
            ASTInfo::BinaryExpr(
                Oprand::Mul,
                boxed(
                    1,
                    18,
                    ASTInfo::BinaryExpr(
                        Oprand::Add,
                        boxed(1, 18, ASTInfo::IntLiteral(1)),
                        boxed(1, 22, ASTInfo::IntLiteral(2)),
                    ),
                ),
                boxed(1, 27, ASTInfo::IntLiteral(3)),
            ),
        )
    );
}

#[test]
fn assignments_nest_to_the_right() {
    let stmts = body_of("int main(void){ a = b[1] = f(2, c); }");
    assert_eq!(
        stmts[0],
        node(
            1,
            17,
            ASTInfo::AssignmentExpr(
                boxed(1, 17, ASTInfo::Variable("a".to_string(), None)),
                boxed(
                    1,
                    21,
                    ASTInfo::AssignmentExpr(
                        boxed(
                            1,
                            21,
                            ASTInfo::Variable(
                                "b".to_string(),
                                Some(boxed(1, 23, ASTInfo::IntLiteral(1))),
                            ),
                        ),
                        boxed(
                            1,
                            28,
                            ASTInfo::CallExpr(
                                "f".to_string(),
                                vec![
                                    node(1, 30, ASTInfo::IntLiteral(2)),
                                    node(1, 33, ASTInfo::Variable("c".to_string(), None)),
                                ],
                            ),
                        ),
                    ),
                ),
            ),
        )
    );
}

#[test]
fn only_a_variable_can_be_assigned_to() {
    assert_eq!(syntax_error_at("int main(void){ (a) = 1; }"), (1, 21));
    assert_eq!(syntax_error_at("int main(void){ a + b = 1; }"), (1, 23));
    assert_eq!(syntax_error_at("int main(void){ f() = 1; }"), (1, 21));
    assert_eq!(syntax_error_at("int main(void){ 1 = 2; }"), (1, 19));
}

#[test]
fn equality_is_no_assignment() {
    assert_eq!(operator_of("int main(void){ a == 1; }"), Oprand::Eq);
    assert_eq!(operator_of("int main(void){ a==1; }"), Oprand::Eq);
}

#[test]
fn statements_of_every_sort() {
    let source = "int main(void)\n{\n  int i;\n  int a[4];\n  ;\n  if (i) i = 1; else { i = 2; }\n  while (i < 4)\n    i = i + 1;\n  if (i) return;\n  return i;\n}\n";
    let items = Ast::parse(source).unwrap();
    let expected = node(
        1,
        1,
        ASTInfo::FunctionDec(
            Type::Int,
            "main".to_string(),
            vec![],
            boxed(
                2,
                1,
                ASTInfo::BlockStmt(
                    vec![
                        node(3, 3, ASTInfo::VariableDec(Type::Int, "i".to_string())),
                        node(4, 3, ASTInfo::VariableDec(Type::IntArray(4), "a".to_string())),
                    ],
                    vec![
                        node(
                            6,
                            3,
                            ASTInfo::SelectionStmt(
                                boxed(6, 7, ASTInfo::Variable("i".to_string(), None)),
                                boxed(
                                    6,
                                    10,
                                    ASTInfo::AssignmentExpr(
                                        boxed(6, 10, ASTInfo::Variable("i".to_string(), None)),
                                        boxed(6, 14, ASTInfo::IntLiteral(1)),
                                    ),
                                ),
                                Some(boxed(
                                    6,
                                    22,
                                    ASTInfo::BlockStmt(
                                        vec![],
                                        vec![node(
                                            6,
                                            24,
                                            ASTInfo::AssignmentExpr(
                                                boxed(
                                                    6,
                                                    24,
                                                    ASTInfo::Variable("i".to_string(), None),
                                                ),
                                                boxed(6, 28, ASTInfo::IntLiteral(2)),
                                            ),
                                        )],
                                    ),
                                )),
                            ),
                        ),
                        node(
                            7,
                            3,
                            ASTInfo::IterationStmt(
                                boxed(
                                    7,
                                    10,
                                    ASTInfo::BinaryExpr(
                                        Oprand::Lt,
                                        boxed(7, 10, ASTInfo::Variable("i".to_string(), None)),
                                        boxed(7, 14, ASTInfo::IntLiteral(4)),
                                    ),
                                ),
                                boxed(
                                    8,
                                    5,
                                    ASTInfo::AssignmentExpr(
                                        boxed(8, 5, ASTInfo::Variable("i".to_string(), None)),
                                        boxed(
                                            8,
                                            9,
                                            ASTInfo::BinaryExpr(
                                                Oprand::Add,
                                                boxed(
                                                    8,
                                                    9,
                                                    ASTInfo::Variable("i".to_string(), None),
                                                ),
                                                boxed(8, 13, ASTInfo::IntLiteral(1)),
                                            ),
                                        ),
                                    ),
                                ),
                            ),
                        ),
                        node(
                            9,
                            3,
                            ASTInfo::SelectionStmt(
                                boxed(9, 7, ASTInfo::Variable("i".to_string(), None)),
                                boxed(9, 10, ASTInfo::ReturnStmt(None)),
                                None,
                            ),
                        ),
                        node(
                            10,
                            3,
                            ASTInfo::ReturnStmt(Some(boxed(
                                10,
                                10,
                                ASTInfo::Variable("i".to_string(), None),
                            ))),
                        ),
                    ],
                ),
            ),
        ),
    );
    assert_eq!(items, vec![expected]);
}

#[test]
fn an_else_belongs_to_the_nearest_if() {
    let stmts = body_of("int main(void){ if (a) if (b) c; else d; }");
    match &stmts[0].info {
        ASTInfo::SelectionStmt(_, then, other) => {
            assert!(other.is_none());
            match &then.info {
                ASTInfo::SelectionStmt(_, _, inner) => assert!(inner.is_some()),
                other => panic!("no selection inside: {:?}", other),
            }
        }
        other => panic!("no selection: {:?}", other),
    }
}

#[test]
fn keywords_are_whole_words() {
    let stmts = body_of("int main(void){ iff = 1; returned; whiles; int1; _if; }");
    let names: Vec<String> = stmts
        .iter()
        .map(|s| match &s.info {
            ASTInfo::AssignmentExpr(var, _) => match &var.info {
                ASTInfo::Variable(name, None) => name.clone(),
                _ => panic!("no variable"),
            },
            ASTInfo::Variable(name, None) => name.clone(),
            other => panic!("no variable: {:?}", other),
        })
        .collect();
    assert_eq!(names, vec!["iff", "returned", "whiles", "int1", "_if"]);
}

#[test]
fn errors_name_the_first_misplaced_token() {
    assert_eq!(syntax_error_at("int main(void) { return 0 }"), (1, 27));
    assert_eq!(syntax_error_at("int main(void) { return 0; "), (1, 28));
    assert_eq!(syntax_error_at("int main(void)\n{\n  x = ;\n}"), (3, 7));
    assert_eq!(syntax_error_at("main(void) {}"), (1, 1));
    assert_eq!(syntax_error_at("int 1x;"), (1, 5));
    assert_eq!(syntax_error_at("int x"), (1, 6));
    assert_eq!(syntax_error_at("int x;\n\n  @"), (3, 3));
    assert_eq!(syntax_error_at("int main(void) { x = 1 ! 2; }"), (1, 24));
    assert_eq!(syntax_error_at("int f(int) {}"), (1, 10));
    assert_eq!(syntax_error_at("int f(int a,) {}"), (1, 13));
    assert_eq!(syntax_error_at("int main(void) { f(1,); }"), (1, 22));
    assert_eq!(syntax_error_at("int main(void) { a[1; }"), (1, 21));
    assert_eq!(syntax_error_at("int main(void) { (1; }"), (1, 20));
}

#[test]
fn an_array_has_at_least_one_element() {
    assert_eq!(syntax_error_at("int a[0];"), (1, 7));
    assert_eq!(syntax_error_at("int a[];"), (1, 7));
    assert_eq!(syntax_error_at("int a[n];"), (1, 7));
    assert_eq!(
        Ast::parse("int a[0x10];").unwrap(),
        vec![node(1, 1, ASTInfo::VariableDec(Type::IntArray(16), "a".to_string()))]
    );
}

#[test]
fn a_governed_statement_is_not_empty() {
    assert_eq!(syntax_error_at("int main(void) { if (1) ; }"), (1, 25));
    assert_eq!(syntax_error_at("int main(void) { while (1) ; }"), (1, 28));
    assert_eq!(syntax_error_at("int main(void) { if (1) 2; else ; }"), (1, 33));
}

#[test]
fn declarations_come_before_statements() {
    assert_eq!(syntax_error_at("int main(void) { x = 1; int y; }"), (1, 25));
}

#[test]
fn text_that_is_not_ascii_is_no_program() {
    assert_eq!(syntax_error_at("int x;\nint \u{e9};"), (2, 5));
}

#[test]
fn tokens_carry_their_places() {
    let src = "  foo\n <= 12".as_bytes();
    let start = Cursor { pos: 0, line: 1, col: 1 };
    let t1 = next_token(src, start);
    assert_eq!(t1.kind, Tok::Ident);
    assert_eq!((t1.start.pos, t1.start.line, t1.start.col), (2, 1, 3));
    assert_eq!((t1.end.pos, t1.end.line, t1.end.col), (5, 1, 6));
    let t2 = next_token(src, t1.end);
    assert_eq!(t2.kind, Tok::Op(Oprand::Le));
    assert_eq!((t2.start.pos, t2.start.line, t2.start.col), (7, 2, 2));
    let t3 = next_token(src, t2.end);
    assert_eq!(t3.kind, Tok::Number(12));
    let t4 = next_token(src, t3.end);
    assert_eq!(t4.kind, Tok::Eof);
    assert_eq!(t4.start.pos, 12);
}

#[test]
fn parse_errors_are_shown_with_their_place() {
    let e: Error = Ast::parse("int main(void) {\n  return 0\n}").unwrap_err();
    assert_eq!(e.to_string(), "3:1: ");
}
