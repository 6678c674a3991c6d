use cmm::ast::{ASTInfo, Ast, Oprand, Type};
use cmm::ast_viz::{Content, DiGraph, Edge, IDAllocator, Node};

#[test]
fn numbers_are_given_in_order() {
    let mut ids = IDAllocator { id: 1 };
    assert_eq!(ids.allocate(), 1);
    assert_eq!(ids.allocate(), 2);
    assert_eq!(ids.allocate(), 3);
    assert_eq!(ids.id, 4);
}

#[test]
fn a_symbol_takes_the_next_number() {
    let mut ids = IDAllocator { id: 7 };
    let node = Node::new_symbol(&mut ids, "while");
    assert_eq!(node.get_id(), 7);
    assert_eq!(ids.id, 8);
    assert_eq!(node.to_dot(), "node7 [ label = \" while \" ];");
}

#[test]
fn a_graph_is_a_node() {
    let mut ids = IDAllocator { id: 3 };
    let mut g = DiGraph::empty(&mut ids);
    assert_eq!(g.get_id(), 3);
    assert!(g.name.is_none());
    g.name = Some("Params".to_string());
    let node = Node::new_subg(g);
    assert_eq!(node.get_id(), 3);
    assert_eq!(node.to_dot(), "node3 [ label = \" Params \" ];");
}

#[test]
fn an_edge_goes_from_a_graph_to_a_node() {
    let mut ids = IDAllocator { id: 10 };
    let g = DiGraph::empty(&mut ids);
    let node = Node::new_symbol(&mut ids, "x");
    let edge = Edge::new(&g, &node);
    assert_eq!((edge.from, edge.to), (10, 11));
    assert_eq!(edge.to_dot(), "node10 -> node11");
    assert_eq!(Content::Edge(edge).to_dot(), "node10 -> node11");
    assert_eq!(Content::Node(node).to_dot(), "node11 [ label = \" x \" ];");
}

#[test]
fn contents_are_written_in_order() {
    let mut ids = IDAllocator { id: 1 };
    let mut g = DiGraph::empty(&mut ids);
    g.name = Some("G".to_string());
    let a = Node::new_symbol(&mut ids, "a");
    let edge = Edge::new(&g, &a);
    g.add_cont(Content::Edge(edge));
    g.add_cont(Content::Node(a));
    assert_eq!(
        g.to_dot(),
        "node1 [ label = \" G \" ];node1 -> node2\nnode2 [ label = \" a \" ];\n"
    );
    assert_eq!(
        g.write_dot(),
        "digraph prog {\nnode1 [ label = \" G \" ];node1 -> node2\nnode2 [ label = \" a \" ];\n\n}"
    );
}

#[test]
fn a_drawing_that_can_be_numbered_is_made() {
    let ast = Ast::parse("int x;").unwrap();
    let g = DiGraph::try_new("prog.c", &ast).expect("four nodes can be numbered");
    assert_eq!(g.write_dot(), DiGraph::new("prog.c", &ast).write_dot());
}

#[test]
fn a_function_without_parameters_holds_six_contents() {
    let ast = Ast::parse("int main(void) {}").unwrap();
    let mut ids = IDAllocator { id: 1 };
    let g = DiGraph::from_ast(&mut ids, &ast[0]);
    assert_eq!(g.name.as_deref(), Some("FunctionDec"));
    assert_eq!(g.conts.len(), 6);
    assert!(!g.to_dot().contains("Params"));
    let kinds: Vec<bool> = g.conts.iter().map(|c| matches!(c, Content::Edge(_))).collect();
    assert_eq!(kinds, vec![true, true, false, false, true, false]);
}

#[test]
fn a_selection_holds_six_or_ten_contents() {
    let ast = Ast::parse("void f(int c) { if (c) c = 1; if (c) c = 2; else c = 3; }").unwrap();
    let stmts = match &ast[0].info {
        ASTInfo::FunctionDec(_, _, _, body) => match &body.info {
            ASTInfo::BlockStmt(_, stmts) => stmts,
            _ => panic!("no block"),
        },
        _ => panic!("no function"),
    };
    let mut ids = IDAllocator { id: 1 };
    assert_eq!(DiGraph::from_ast(&mut ids, &stmts[0]).conts.len(), 6);
    let g = DiGraph::from_ast(&mut ids, &stmts[1]);
    assert_eq!(g.conts.len(), 10);
    // each edge leaves the graph for one node, in the order of the nodes
    let targets: Vec<usize> = g
        .conts
        .iter()
        .filter_map(|c| match c {
            Content::Edge(e) => {
                assert_eq!(e.from, g.id);
                Some(e.to)
            }
            _ => None,
        })
        .collect();
    let nodes: Vec<usize> = g
        .conts
        .iter()
        .filter_map(|c| match c {
            Content::Node(n) => Some(n.get_id()),
            _ => None,
        })
        .collect();
    assert_eq!(targets, nodes);
}

#[test]
fn a_drawing_holds_an_edge_and_a_graph_for_each_tree() {
    let ast = Ast::parse("int x; int y; void f(void) {}").unwrap();
    let g = DiGraph::new("three.c", &ast);
    assert_eq!(g.name.as_deref(), Some("three.c"));
    assert_eq!(g.conts.len(), 6);
    for pair in g.conts.chunks(2) {
        match (&pair[0], &pair[1]) {
            (Content::Edge(e), Content::Node(Node::Subgraph(sub))) => {
                assert_eq!((e.from, e.to), (1, sub.id));
            }
            other => panic!("not an edge and a graph: {:?}", other),
        }
    }
}

#[test]
fn the_drawing_of_an_empty_program() {
    let g = DiGraph::new("empty.c", &vec![]);
    assert_eq!(g.get_id(), 1);
    assert_eq!(g.write_dot(), "digraph prog {\nnode1 [ label = \" empty.c \" ];\n}");
}

#[test]
fn the_drawing_of_a_global_variable() {
    let ast = Ast::parse("int x;").unwrap();
    let g = DiGraph::new("prog.c", &ast);
    assert_eq!(
        g.write_dot(),
        "digraph prog {\nnode1 [ label = \" prog.c \" ];node1 -> node2\nnode2 [ label = \" VariableDec \" ];node2 -> node3\nnode2 -> node4\nnode3 [ label = \" int \" ];\nnode4 [ label = \" x \" ];\n\n\n}"
    );
}

fn drawing_of(ast: Ast) -> String {
    let mut ids = IDAllocator { id: 1 };
    DiGraph::from_ast(&mut ids, &ast).to_dot()
}

fn literal(v: i32) -> Box<Ast> {
    Box::new(Ast { position: (1, 1), info: ASTInfo::IntLiteral(v) })
}

fn variable(name: &str) -> Box<Ast> {
    Box::new(Ast { position: (1, 1), info: ASTInfo::Variable(name.to_string(), None) })
}

fn symbol(id: usize, label: &str) -> String {
    format!("node{} [ label = \" {} \" ];", id, label)
}

fn edge(from: usize, to: usize) -> String {
    format!("node{} -> node{}", from, to)
}

fn lines(own: String, contents: &[String]) -> String {
    let mut s = own;
    for c in contents {
        s.push_str(c);
        s.push('\n');
    }
    s
}

fn literal_graph(id: usize, v: &str) -> String {
    lines(symbol(id, "IntLiteral"), &[edge(id, id + 1), symbol(id + 1, v)])
}

fn variable_graph(id: usize, name: &str) -> String {
    lines(symbol(id, "Variable"), &[edge(id, id + 1), symbol(id + 1, name)])
}

#[test]
fn the_drawing_of_a_literal() {
    assert_eq!(drawing_of(*literal(42)), literal_graph(1, "42"));
    assert_eq!(drawing_of(*literal(0)), literal_graph(1, "0"));
    assert_eq!(drawing_of(*literal(-7)), literal_graph(1, "-7"));
    assert_eq!(drawing_of(*literal(i32::MIN)), literal_graph(1, "-2147483648"));
    assert_eq!(drawing_of(*literal(i32::MAX)), literal_graph(1, "2147483647"));
}

#[test]
fn the_drawing_of_a_binary_expression() {
    let ast = Ast {
        position: (1, 1),
        info: ASTInfo::BinaryExpr(Oprand::LShift, variable("a"), literal(3)),
    };
    let expected = lines(
        symbol(1, "BinaryExpr"),
        &[
            edge(1, 2),
            edge(1, 3),
            edge(1, 5),
            symbol(2, "LShift"),
            variable_graph(3, "a"),
            literal_graph(5, "3"),
        ],
    );
    assert_eq!(drawing_of(ast), expected);
}

#[test]
fn the_drawing_of_an_assignment_to_an_element() {
    let target = Ast {
        position: (1, 1),
        info: ASTInfo::Variable("a".to_string(), Some(literal(1))),
    };
    let ast = Ast {
        position: (1, 1),
        info: ASTInfo::AssignmentExpr(Box::new(target), literal(2)),
    };
    let index = lines(symbol(3, "Index"), &[edge(3, 4), literal_graph(4, "1")]);
    let var = lines(symbol(1 + 0, "x"), &[]);
    assert_eq!(var, "node1 [ label = \" x \" ];");
    let target_graph = lines(symbol(1, "Variable"), &[edge(1, 2), symbol(2, "a"), edge(1, 3), index]);
    // the assignment is the graph 1, so its parts start at 2
    let shifted = target_graph
        .replace("node5", "node6")
        .replace("node4", "node5")
        .replace("node3", "node4")
        .replace("node2", "node3")
        .replace("node1", "node2");
    let expected = lines(
        symbol(1, "AssignmentExpr"),
        &[
            edge(1, 2),
            edge(1, 7),
            edge(1, 8),
            shifted,
            symbol(7, "="),
            literal_graph(8, "2"),
        ],
    );
    assert_eq!(drawing_of(ast), expected);
}

#[test]
fn the_drawing_of_a_call() {
    let without = Ast { position: (1, 1), info: ASTInfo::CallExpr("f".to_string(), vec![]) };
    assert_eq!(drawing_of(without), lines(symbol(1, "CallExpr"), &[edge(1, 2), symbol(2, "f")]));
    let with = Ast {
        position: (1, 1),
        info: ASTInfo::CallExpr("f".to_string(), vec![*literal(1), *variable("b")]),
    };
    let params = lines(
        symbol(3, "Params"),
        &[edge(3, 4), literal_graph(4, "1"), edge(3, 6), variable_graph(6, "b")],
    );
    assert_eq!(
        drawing_of(with),
        lines(symbol(1, "CallExpr"), &[edge(1, 2), symbol(2, "f"), edge(1, 3), params])
    );
}

#[test]
fn the_drawing_of_statements() {
    let ret = Ast { position: (1, 1), info: ASTInfo::ReturnStmt(None) };
    assert_eq!(drawing_of(ret), lines(symbol(1, "ReturnStmt"), &[edge(1, 2), symbol(2, "return")]));
    let ret = Ast { position: (1, 1), info: ASTInfo::ReturnStmt(Some(literal(5))) };
    assert_eq!(
        drawing_of(ret),
        lines(
            symbol(1, "ReturnStmt"),
            &[edge(1, 2), symbol(2, "return"), edge(1, 3), literal_graph(3, "5")]
        )
    );
    let looped = Ast {
        position: (1, 1),
        info: ASTInfo::IterationStmt(variable("c"), literal(1)),
    };
    assert_eq!(
        drawing_of(looped),
        lines(
            symbol(1, "IterationStmt"),
            &[
                edge(1, 2),
                edge(1, 3),
                edge(1, 5),
                symbol(2, "while"),
                variable_graph(3, "c"),
                literal_graph(5, "1"),
            ]
        )
    );
    let chosen = Ast {
        position: (1, 1),
        info: ASTInfo::SelectionStmt(variable("c"), literal(1), Some(literal(2))),
    };
    assert_eq!(
        drawing_of(chosen),
        lines(
            symbol(1, "SelectionStmt"),
            &[
                edge(1, 2),
                edge(1, 3),
                edge(1, 5),
                symbol(2, "if"),
                variable_graph(3, "c"),
                literal_graph(5, "1"),
                edge(1, 7),
                edge(1, 8),
                symbol(7, "else"),
                literal_graph(8, "2"),
            ]
        )
    );
}

#[test]
fn the_drawing_of_a_function() {
    let body = Ast {
        position: (1, 1),
        info: ASTInfo::BlockStmt(
            vec![Ast {
                position: (1, 1),
                info: ASTInfo::VariableDec(Type::IntArray(10), "a".to_string()),
            }],
            vec![*literal(1)],
        ),
    };
    let f = Ast {
        position: (1, 1),
        info: ASTInfo::FunctionDec(
            Type::Void,
            "f".to_string(),
            vec![(Type::Int, "n".to_string()), (Type::IntPtr, "p".to_string())],
            Box::new(body),
        ),
    };
    let params = lines(
        symbol(4, "Params"),
        &[
            edge(4, 5),
            edge(4, 6),
            symbol(5, "int"),
            symbol(6, "n"),
            edge(4, 7),
            edge(4, 8),
            symbol(7, "int pointer"),
            symbol(8, "p"),
        ],
    );
    let declared = lines(
        symbol(10, "VariableDec"),
        &[edge(10, 11), edge(10, 12), symbol(11, "int array[10]"), symbol(12, "a")],
    );
    let block = lines(
        symbol(9, "BlockStmt"),
        &[edge(9, 10), declared, edge(9, 13), literal_graph(13, "1")],
    );
    let expected = lines(
        symbol(1, "FunctionDec"),
        &[
            edge(1, 2),
            edge(1, 3),
            symbol(2, "void"),
            symbol(3, "f"),
            edge(1, 4),
            params,
            edge(1, 9),
            block,
        ],
    );
    assert_eq!(drawing_of(f), expected);
}

fn node_numbers(text: &str) -> Vec<usize> {
    let mut numbers = vec![];
    for piece in text.split("node").skip(1) {
        let digits: String = piece.chars().take_while(|c| c.is_ascii_digit()).collect();
        if piece[digits.len()..].starts_with(" [") {
            numbers.push(digits.parse().unwrap());
        }
    }
    numbers
}

#[test]
fn every_node_of_a_drawing_has_its_own_number() {
    let ast = Ast::parse(
        "int g;\nint f(int n, int *p){ int a[3]; while (n) { if (p[n] == a[0]) return g; else n = n - 1; } return f(n, p); }",
    )
    .unwrap();
    let text = DiGraph::new("f.c", &ast).write_dot();
    let mut numbers = node_numbers(&text);
    let count = numbers.len();
    assert_eq!(numbers[0], 1);
    numbers.sort();
    numbers.dedup();
    assert_eq!(numbers.len(), count);
    assert_eq!(numbers, (1..=count).collect::<Vec<usize>>());
}

fn check_pairs(g: &DiGraph) {
    let mut targets: Vec<usize> = Vec::new();
    let mut nodes: Vec<usize> = Vec::new();
    for c in &g.conts {
        match c {
            Content::Edge(e) => {
                assert_eq!(e.from, g.id);
                targets.push(e.to);
            }
            Content::Node(Node::Symbol(id, _)) => nodes.push(*id),
            Content::Node(Node::Subgraph(sub)) => {
                nodes.push(sub.id);
                check_pairs(sub);
            }
        }
    }
    assert_eq!(targets, nodes);
    assert!(nodes.windows(2).all(|w| w[0] < w[1]));
}

#[test]
fn every_edge_leads_to_one_node_of_its_graph() {
    let source = "int a[4]; int f(int n, int m) { int x; if (n < m) { x = g(n, a[1]); } else x = 0; while (x) x = x - 1; return x; } void main(void) { f(1, 2); }";
    let ast = Ast::parse(source).unwrap();
    let g = DiGraph::new("pairs.c", &ast);
    assert_eq!(g.conts.len(), 6);
    check_pairs(&g);
}
