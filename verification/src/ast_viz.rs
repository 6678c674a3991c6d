//! A drawing of a syntax tree in the DOT language of Graphviz.
//!
//! Every construct of the tree becomes a graph with a label, and every part
//! of it a node of that graph, which is a symbol or a graph again. The nodes
//! are numbered in the order in which they are made.
use vstd::prelude::*;
use crate::ast::{oprand_text, type_text, ASTInfo, Ast, Type};
use crate::text::{decimal, push_decimal, push_signed_decimal, push_text, signed_decimal};

verus! {

/// A graph: its label, its number, and what it holds, in order.
#[derive(Debug)]
pub struct DiGraph {
    pub name: Option<String>,
    pub id: usize,
    pub conts: Vec<Content>,
}

/// A node of a graph: a symbol with its number and its label, or a graph.
#[derive(Debug)]
pub enum Node {
    Symbol(usize, String),
    Subgraph(DiGraph),
}

/// An edge between two nodes, by their numbers.
#[derive(Debug)]
pub struct Edge {
    pub from: usize,
    pub to: usize,
}

/// What a graph holds: nodes and edges.
#[derive(Debug)]
pub enum Content {
    Node(Node),
    Edge(Edge),
}

/// The source of the numbers of the nodes of one drawing.
#[derive(Debug)]
pub struct IDAllocator {
    pub id: usize,
}

/// The line that declares the node `id` with a label.
pub open spec fn symbol_text(id: nat, label: Seq<char>) -> Seq<char> {
    "node"@ + decimal(id) + " [ label = \" "@ + label + " \" ];"@
}

/// The line that draws an edge from the node `from` to the node `to`.
pub open spec fn edge_text(from: nat, to: nat) -> Seq<char> {
    "node"@ + decimal(from) + " -> node"@ + decimal(to)
}

/// The text of a graph: the line of its own node, then its contents.
pub open spec fn graph_text(g: DiGraph) -> Seq<char>
    decreases g, 0nat,
{
    symbol_text(
        g.id as nat,
        match g.name {
            Some(n) => n@,
            None => Seq::empty(),
        },
    ) + contents_text(g.conts@, g.conts@.len() as int)
}

/// The text of the first `upto` contents of a graph, each followed by a
/// line break.
pub open spec fn contents_text(conts: Seq<Content>, upto: int) -> Seq<char>
    decreases conts, upto,
{
    if upto <= 0 || upto > conts.len() {
        Seq::empty()
    } else {
        contents_text(conts, upto - 1) + content_text(conts[upto - 1]) + "\n"@
    }
}

/// The text of a node or an edge.
pub open spec fn content_text(c: Content) -> Seq<char>
    decreases c, 0nat,
{
    match c {
        Content::Node(Node::Symbol(id, label)) => symbol_text(id as nat, label@),
        Content::Node(Node::Subgraph(g)) => graph_text(g),
        Content::Edge(e) => edge_text(e.from as nat, e.to as nat),
    }
}

/// Whether a graph and every graph inside it has a label.
pub open spec fn formed(g: DiGraph) -> bool
    decreases g,
{
    g.name is Some && forall|i: int|
        0 <= i < g.conts@.len() ==> match #[trigger] g.conts@[i] {
            Content::Node(Node::Subgraph(sub)) => formed(sub),
            _ => true,
        }
}

/// The text of a whole drawing.
pub open spec fn document_text(g: DiGraph) -> Seq<char> {
    "digraph prog {\n"@ + graph_text(g) + "\n}"@
}

/// The numbers of the nodes of a graph: its own, then those of its
/// contents, in their order.
pub open spec fn graph_numbers(g: DiGraph) -> Seq<usize>
    decreases g, 0nat,
{
    seq![g.id] + contents_numbers(g.conts@, g.conts@.len() as int)
}

/// The numbers of the nodes among the first `upto` contents of a graph.
pub open spec fn contents_numbers(conts: Seq<Content>, upto: int) -> Seq<usize>
    decreases conts, upto,
{
    if upto <= 0 || upto > conts.len() {
        Seq::empty()
    } else {
        contents_numbers(conts, upto - 1) + content_numbers(conts[upto - 1])
    }
}

/// The numbers of the nodes that a node holds; an edge holds none.
pub open spec fn content_numbers(c: Content) -> Seq<usize>
    decreases c, 0nat,
{
    match c {
        Content::Node(Node::Symbol(id, _)) => seq![id],
        Content::Node(Node::Subgraph(g)) => graph_numbers(g),
        Content::Edge(_) => Seq::empty(),
    }
}

/// The `count` numbers from `first` on.
pub open spec fn counting(first: nat, count: nat) -> Seq<usize> {
    Seq::new(count, |i: int| (first + i) as usize)
}

/// Counting on from where a count ended is counting further.
pub proof fn lemma_counting_join(first: nat, m: nat, n: nat)
    ensures
        counting(first, m) + counting(first + m, n) == counting(first, m + n),
{
    assert(counting(first, m) + counting(first + m, n) =~= counting(first, m + n));
}

/// The nodes of a drawing are uniquely numbered: in a graph whose nodes
/// hold the numbers counted from some number on, as every graph made from a
/// syntax tree does, no two nodes hold the same number.
pub proof fn lemma_nodes_uniquely_numbered(g: DiGraph, first: nat, count: nat)
    requires
        graph_numbers(g) == counting(first, count),
        first + count <= usize::MAX + 1,
    ensures
        forall|i: int, j: int|
            0 <= i < j < graph_numbers(g).len() ==> (#[trigger] graph_numbers(g)[i]) != (
            #[trigger] graph_numbers(g)[j]),
{
}

/// The text of the first contents of a graph does not depend on what comes
/// after them.
pub proof fn lemma_contents_prefix(conts: Seq<Content>, c: Content, upto: int)
    requires
        upto <= conts.len(),
    ensures
        contents_text(conts.push(c), upto) == contents_text(conts, upto),
        contents_numbers(conts.push(c), upto) == contents_numbers(conts, upto),
        contents_model(conts.push(c), upto) == contents_model(conts, upto),
    decreases upto,
{
    if upto > 0 {
        lemma_contents_prefix(conts, c, upto - 1);
        assert(conts.push(c)[upto - 1] == conts[upto - 1]);
    }
}

/// What a graph holds, as a mathematical value: an edge from one number to
/// another, a symbol with its number and its label, or a graph.
pub enum Item {
    Edge(nat, nat),
    Symbol(nat, Seq<char>),
    Graph(Picture),
}

/// A graph as a mathematical value: its label, its number, and what it
/// holds, in order.
pub struct Picture {
    pub name: Option<Seq<char>>,
    pub id: nat,
    pub items: Seq<Item>,
}

/// The graph that a `DiGraph` stands for.
pub open spec fn graph_model(g: DiGraph) -> Picture
    decreases g, 0nat,
{
    Picture {
        name: match g.name {
            Some(n) => Some(n@),
            None => None,
        },
        id: g.id as nat,
        items: contents_model(g.conts@, g.conts@.len() as int),
    }
}

/// What the first `upto` contents of a graph stand for.
pub open spec fn contents_model(conts: Seq<Content>, upto: int) -> Seq<Item>
    decreases conts, upto,
{
    if upto <= 0 || upto > conts.len() {
        Seq::empty()
    } else {
        contents_model(conts, upto - 1).push(content_model(conts[upto - 1]))
    }
}

/// What a node or an edge stands for.
pub open spec fn content_model(c: Content) -> Item
    decreases c, 0nat,
{
    match c {
        Content::Node(Node::Symbol(id, label)) => Item::Symbol(id as nat, label@),
        Content::Node(Node::Subgraph(g)) => Item::Graph(graph_model(g)),
        Content::Edge(e) => Item::Edge(e.from as nat, e.to as nat),
    }
}

/// The text of a graph as a mathematical value: the line of its own node,
/// then its contents.
pub open spec fn picture_text(p: Picture) -> Seq<char>
    decreases p, 0nat,
{
    symbol_text(
        p.id,
        match p.name {
            Some(n) => n,
            None => Seq::empty(),
        },
    ) + items_text(p.items, p.items.len() as int)
}

/// The text of the first `upto` items, each followed by a line break.
pub open spec fn items_text(items: Seq<Item>, upto: int) -> Seq<char>
    decreases items, upto,
{
    if upto <= 0 || upto > items.len() {
        Seq::empty()
    } else {
        items_text(items, upto - 1) + item_text(items[upto - 1]) + "\n"@
    }
}

/// The text of an item.
pub open spec fn item_text(item: Item) -> Seq<char>
    decreases item, 0nat,
{
    match item {
        Item::Edge(from, to) => edge_text(from, to),
        Item::Symbol(id, label) => symbol_text(id, label),
        Item::Graph(p) => picture_text(p),
    }
}

/// The contents of a graph stand for as many items, one for one.
pub proof fn lemma_contents_model_index(conts: Seq<Content>, upto: int)
    requires
        0 <= upto <= conts.len(),
    ensures
        contents_model(conts, upto).len() == upto,
        forall|i: int|
            0 <= i < upto ==> (#[trigger] contents_model(conts, upto)[i]) == content_model(
                conts[i],
            ),
    decreases upto,
{
    if upto > 0 {
        lemma_contents_model_index(conts, upto - 1);
    }
}

/// The text of a graph follows from what the graph stands for.
pub proof fn lemma_text_follows(g: DiGraph)
    ensures
        graph_text(g) == picture_text(graph_model(g)),
    decreases g, 1nat,
{
    lemma_contents_text_follows(g.conts@, g.conts@.len() as int);
    lemma_contents_model_index(g.conts@, g.conts@.len() as int);
}

/// The text of the contents of a graph follows from what they stand for.
pub proof fn lemma_contents_text_follows(conts: Seq<Content>, upto: int)
    requires
        0 <= upto <= conts.len(),
    ensures
        contents_text(conts, upto) == items_text(
            contents_model(conts, conts.len() as int),
            upto,
        ),
    decreases conts, upto,
{
    lemma_contents_model_index(conts, conts.len() as int);
    if upto > 0 {
        lemma_contents_text_follows(conts, upto - 1);
        let items = contents_model(conts, conts.len() as int);
        assert(items[upto - 1] == content_model(conts[upto - 1]));
        match conts[upto - 1] {
            Content::Node(Node::Subgraph(g)) => {
                lemma_text_follows(g);
            },
            _ => {},
        }
        assert(item_text(items[upto - 1]) == content_text(conts[upto - 1]));
    }
}

/// How far the drawing of the contents of a graph has come: their text,
/// the items drawn so far, and the next free number.
pub struct Drawing {
    pub text: Seq<char>,
    pub items: Seq<Item>,
    pub next: nat,
}

/// A graph that is drawn: its text, what it is, and the next free number.
pub struct Drawn {
    pub text: Seq<char>,
    pub picture: Picture,
    pub next: nat,
}

impl Drawing {
    /// A drawing with nothing in it yet.
    pub open spec fn blank(next: nat) -> Drawing {
        Drawing { text: Seq::empty(), items: Seq::empty(), next }
    }

    /// The drawing with one more item.
    pub open spec fn put(self, item: Item, text: Seq<char>) -> Drawing {
        Drawing {
            text: self.text + text + "\n"@,
            items: self.items.push(item),
            next: self.next,
        }
    }

    /// The drawing with one more edge.
    pub open spec fn edge(self, from: nat, to: nat) -> Drawing {
        self.put(Item::Edge(from, to), edge_text(from, to))
    }

    /// The drawing with one more symbol.
    pub open spec fn symbol(self, id: nat, label: Seq<char>) -> Drawing {
        self.put(Item::Symbol(id, label), symbol_text(id, label))
    }

    /// The drawing with one more graph.
    pub open spec fn graph(self, sub: Drawn) -> Drawing {
        self.put(Item::Graph(sub.picture), sub.text)
    }

    /// The drawing with another next free number.
    pub open spec fn up_to(self, next: nat) -> Drawing {
        Drawing { next, ..self }
    }

    /// The graph with the number `id` and the label `label` that holds
    /// what was drawn.
    pub open spec fn framed(self, id: nat, label: Seq<char>) -> Drawn {
        Drawn {
            text: symbol_text(id, label) + self.text,
            picture: Picture { name: Some(label), id, items: self.items },
            next: self.next,
        }
    }
}

/// The label of the graph of a construct.
pub open spec fn kind_label(ast: Ast) -> Seq<char> {
    match ast.info {
        ASTInfo::FunctionDec(_, _, _, _) => "FunctionDec"@,
        ASTInfo::VariableDec(_, _) => "VariableDec"@,
        ASTInfo::BlockStmt(_, _) => "BlockStmt"@,
        ASTInfo::SelectionStmt(_, _, _) => "SelectionStmt"@,
        ASTInfo::IterationStmt(_, _) => "IterationStmt"@,
        ASTInfo::ReturnStmt(_) => "ReturnStmt"@,
        ASTInfo::AssignmentExpr(_, _) => "AssignmentExpr"@,
        ASTInfo::BinaryExpr(_, _, _) => "BinaryExpr"@,
        ASTInfo::CallExpr(_, _) => "CallExpr"@,
        ASTInfo::Variable(_, _) => "Variable"@,
        ASTInfo::IntLiteral(_) => "IntLiteral"@,
    }
}

/// The drawing of the parameters of a function from the one at `from` on,
/// in the graph `g`: for each, two symbols, its type and its name, with an
/// edge to each.
pub open spec fn draw_params(params: Seq<(Type, String)>, from: int, g: nat, d: Drawing) -> Drawing
    decreases params.len() - from,
{
    if from < 0 || from >= params.len() {
        d
    } else {
        let (ty, name) = params[from];
        draw_params(
            params,
            from + 1,
            g,
            d.up_to(d.next + 2).edge(g, d.next).edge(g, d.next + 1).symbol(d.next, type_text(ty)).symbol(d.next + 1, name@),
        )
    }
}

/// The drawing of a list of constructs from the one at `from` on, in the
/// graph `g`: for each, an edge to its graph and then the graph.
pub open spec fn draw_children(items: Seq<Ast>, from: int, g: nat, d: Drawing) -> Drawing
    decreases items, items.len() - from,
{
    if from < 0 || from >= items.len() {
        d
    } else {
        let sub = draw_graph(items[from], d.next);
        draw_children(
            items,
            from + 1,
            g,
            d.up_to(sub.next).edge(g, d.next).graph(sub),
        )
    }
}

/// The graph of a construct, whose own node gets the number `first`.
pub open spec fn draw_graph(ast: Ast, first: nat) -> Drawn
    decreases ast, 1nat,
{
    draw_contents(ast, first, first + 1).framed(first, kind_label(ast))
}

/// The contents of the graph `g` of a construct, numbered from `next` on.
/// The nodes of the parts are made first, in the order of the parts; then
/// the edges to them are drawn, then the nodes.
pub open spec fn draw_contents(ast: Ast, g: nat, next: nat) -> Drawing
    decreases ast, 0nat,
{
    match ast.info {
        ASTInfo::FunctionDec(ty, name, params, body) => {
            let d0 = Drawing::blank(next + 2).edge(g, next).edge(g, next + 1).symbol(next, type_text(ty)).symbol(next + 1, name@);
            let d1 = if params@.len() > 0 {
                let pg = next + 2;
                let p = draw_params(params@, 0, pg, Drawing::blank(pg + 1));
                d0.up_to(p.next).edge(g, pg).graph(p.framed(pg, "Params"@))
            } else {
                d0
            };
            let sub = draw_graph(*body, d1.next);
            d1.up_to(sub.next).edge(g, d1.next).graph(sub)
        },
        ASTInfo::VariableDec(ty, name) => Drawing::blank(next + 2).edge(g, next).edge(g, next + 1).symbol(next, type_text(ty)).symbol(next + 1, name@),
        ASTInfo::BlockStmt(decls, stmts) => draw_children(
            stmts@,
            0,
            g,
            draw_children(decls@, 0, g, Drawing::blank(next)),
        ),
        ASTInfo::SelectionStmt(c, t, e) => {
            let cs = draw_graph(*c, next + 1);
            let ts = draw_graph(*t, cs.next);
            let d = Drawing::blank(ts.next).edge(g, next).edge(g, next + 1).edge(g, cs.next).symbol(next, "if"@).graph(cs).graph(ts);
            match e {
                Some(es) => {
                    let fs = draw_graph(*es, ts.next + 1);
                    d.up_to(fs.next).edge(g, ts.next).edge(g, ts.next + 1).symbol(ts.next, "else"@).graph(fs)
                },
                None => d,
            }
        },
        ASTInfo::IterationStmt(c, body) => {
            let cs = draw_graph(*c, next + 1);
            let bs = draw_graph(*body, cs.next);
            Drawing::blank(bs.next).edge(g, next).edge(g, next + 1).edge(g, cs.next).symbol(next, "while"@).graph(cs).graph(bs)
        },
        ASTInfo::ReturnStmt(value) => {
            let d = Drawing::blank(next + 1).edge(g, next).symbol(next, "return"@);
            match value {
                Some(e) => {
                    let sub = draw_graph(*e, next + 1);
                    d.up_to(sub.next).edge(g, next + 1).graph(sub)
                },
                None => d,
            }
        },
        ASTInfo::AssignmentExpr(var, rhs) => {
            let vs = draw_graph(*var, next);
            let es = draw_graph(*rhs, vs.next + 1);
            Drawing::blank(es.next).edge(g, next).edge(g, vs.next).edge(g, vs.next + 1).graph(vs).symbol(vs.next, "="@).graph(es)
        },
        ASTInfo::BinaryExpr(op, l, r) => {
            let ls = draw_graph(*l, next + 1);
            let rs = draw_graph(*r, ls.next);
            Drawing::blank(rs.next).edge(g, next).edge(g, next + 1).edge(g, ls.next).symbol(next, oprand_text(op)).graph(ls).graph(rs)
        },
        ASTInfo::CallExpr(name, args) => {
            let d = Drawing::blank(next + 1).edge(g, next).symbol(next, name@);
            if args@.len() > 0 {
                let pg = next + 1;
                let p = draw_children(args@, 0, pg, Drawing::blank(pg + 1));
                d.up_to(p.next).edge(g, pg).graph(p.framed(pg, "Params"@))
            } else {
                d
            }
        },
        ASTInfo::Variable(name, index) => {
            let d = Drawing::blank(next + 1).edge(g, next).symbol(next, name@);
            match index {
                Some(ix) => {
                    let ig = next + 1;
                    let is = draw_graph(*ix, ig + 1);
                    let inner = Drawing::blank(is.next).edge(ig, ig + 1).graph(is);
                    d.up_to(is.next).edge(g, ig).graph(inner.framed(ig, "Index"@))
                },
                None => d,
            }
        },
        ASTInfo::IntLiteral(v) => Drawing::blank(next + 1).edge(g, next).symbol(next, signed_decimal(v as int)),
    }
}

/// The drawing of a program: a graph with the number 1 and the label
/// `name`, which holds the graphs of the top-level declarations.
pub open spec fn draw_program(name: Seq<char>, items: Seq<Ast>) -> Drawn {
    draw_children(items, 0, 1, Drawing::blank(2)).framed(1, name)
}

/// The number of an item that is a node; an edge has none.
pub open spec fn item_number(item: Item) -> Option<nat> {
    match item {
        Item::Edge(_, _) => None,
        Item::Symbol(id, _) => Some(id),
        Item::Graph(p) => Some(p.id),
    }
}

/// The numbers that the edges among the items lead to, in their order.
pub open spec fn targets(items: Seq<Item>) -> Seq<nat>
    decreases items.len(),
{
    if items.len() == 0 {
        Seq::empty()
    } else {
        match items.last() {
            Item::Edge(_, to) => targets(items.drop_last()).push(to),
            _ => targets(items.drop_last()),
        }
    }
}

/// The numbers of the nodes among the items, in their order.
pub open spec fn nodes(items: Seq<Item>) -> Seq<nat>
    decreases items.len(),
{
    if items.len() == 0 {
        Seq::empty()
    } else {
        match item_number(items.last()) {
            Some(id) => nodes(items.drop_last()).push(id),
            None => nodes(items.drop_last()),
        }
    }
}

/// Whether every edge among the items leaves the node `g`.
pub open spec fn leaving(items: Seq<Item>, g: nat) -> bool
    decreases items.len(),
{
    if items.len() == 0 {
        true
    } else {
        leaving(items.drop_last(), g) && match items.last() {
            Item::Edge(from, _) => from == g,
            _ => true,
        }
    }
}

/// Whether the numbers rise, each above the one before, and stay below
/// `bound`.
pub open spec fn rising(numbers: Seq<nat>, bound: nat) -> bool
    decreases numbers.len(),
{
    if numbers.len() == 0 {
        true
    } else {
        numbers.last() < bound && rising(numbers.drop_last(), numbers.last())
    }
}

/// Whether the items are the contents of a graph `g` in which each edge
/// leaves the graph for one node and each node is reached by one edge: the
/// edges lead, in their order, to the nodes in their order; they all leave
/// `g`; and the numbers of the nodes rise below `bound`, so that no two
/// nodes have one number.
pub open spec fn paired(items: Seq<Item>, g: nat, bound: nat) -> bool {
    &&& targets(items) == nodes(items)
    &&& leaving(items, g)
    &&& rising(nodes(items), bound)
}

/// What one more item does to the edges and the nodes.
pub proof fn lemma_put(items: Seq<Item>, item: Item, g: nat)
    ensures
        targets(items.push(item)) == (match item {
            Item::Edge(_, to) => targets(items).push(to),
            _ => targets(items),
        }),
        nodes(items.push(item)) == (match item_number(item) {
            Some(id) => nodes(items).push(id),
            None => nodes(items),
        }),
        leaving(items.push(item), g) == (leaving(items, g) && match item {
            Item::Edge(from, _) => from == g,
            _ => true,
        }),
{
    assert(items.push(item).drop_last() =~= items);
}

/// What one more number does to numbers that rise.
pub proof fn lemma_rising_put(numbers: Seq<nat>, x: nat, bound: nat)
    ensures
        rising(numbers.push(x), bound) == (x < bound && rising(numbers, x)),
{
    assert(numbers.push(x).drop_last() =~= numbers);
}

/// Numbers that rise below a bound rise below every greater bound.
pub proof fn lemma_rising_on(numbers: Seq<nat>, bound: nat, more: nat)
    requires
        rising(numbers, bound),
        bound <= more,
    ensures
        rising(numbers, more),
{
}

/// Numbers that rise are all different.
pub proof fn lemma_rising_distinct(numbers: Seq<nat>, bound: nat)
    requires
        rising(numbers, bound),
    ensures
        forall|i: int| 0 <= i < numbers.len() ==> (#[trigger] numbers[i]) < bound,
        forall|i: int, j: int|
            0 <= i < j < numbers.len() ==> (#[trigger] numbers[i]) < (#[trigger] numbers[j]),
    decreases numbers.len(),
{
    if numbers.len() > 0 {
        let rest = numbers.drop_last();
        lemma_rising_distinct(rest, numbers.last());
        assert forall|i: int, j: int| 0 <= i < j < numbers.len() implies (#[trigger] numbers[i]) < (
        #[trigger] numbers[j]) by {
            assert(rest[i] == numbers[i]);
            if j < rest.len() {
                assert(rest[j] == numbers[j]);
            }
        }
        assert forall|i: int| 0 <= i < numbers.len() implies (#[trigger] numbers[i]) < bound by {
            if i < rest.len() {
                assert(rest[i] == numbers[i]);
            }
        }
    }
}

/// One more edge and the node that it leads to keep the items paired.
pub proof fn lemma_paired_put(d: Drawing, g: nat, item: Item, bound: nat)
    requires
        paired(d.items, g, d.next),
        item_number(item) == Some(d.next),
        d.next < bound,
    ensures
        paired(d.items.push(Item::Edge(g, d.next)).push(item), g, bound),
{
    lemma_put(d.items, Item::Edge(g, d.next), g);
    lemma_put(d.items.push(Item::Edge(g, d.next)), item, g);
    lemma_rising_put(nodes(d.items), d.next, bound);
}

/// The parameters of a function are paired contents of their graph.
pub proof fn lemma_params_paired(params: Seq<(Type, String)>, from: int, g: nat, d: Drawing)
    requires
        paired(d.items, g, d.next),
    ensures
        paired(draw_params(params, from, g, d).items, g, draw_params(params, from, g, d).next),
    decreases params.len() - from,
{
    if from < 0 || from >= params.len() {
    } else {
        let (ty, name) = params[from];
        let e1 = Item::Edge(g, d.next);
        let e2 = Item::Edge(g, d.next + 1);
        let n1 = Item::Symbol(d.next, type_text(ty));
        let n2 = Item::Symbol(d.next + 1, name@);
        let i0 = d.items;
        let i1 = i0.push(e1);
        let i2 = i1.push(e2);
        let i3 = i2.push(n1);
        let i4 = i3.push(n2);
        lemma_put(i0, e1, g);
        lemma_put(i1, e2, g);
        lemma_put(i2, n1, g);
        lemma_put(i3, n2, g);
        lemma_rising_put(nodes(i0), d.next, d.next + 1);
        lemma_rising_put(nodes(i0).push(d.next), d.next + 1, d.next + 2);
        let after = d.up_to(d.next + 2).edge(g, d.next).edge(g, d.next + 1).symbol(
            d.next,
            type_text(ty),
        ).symbol(d.next + 1, name@);
        assert(after.items == i4);
        lemma_params_paired(params, from + 1, g, after);
    }
}

/// A list of constructs is drawn as paired contents of its graph.
pub proof fn lemma_children_paired(items: Seq<Ast>, from: int, g: nat, d: Drawing)
    requires
        paired(d.items, g, d.next),
    ensures
        paired(draw_children(items, from, g, d).items, g, draw_children(items, from, g, d).next),
    decreases items.len() - from,
{
    if from < 0 || from >= items.len() {
    } else {
        let sub = draw_graph(items[from], d.next);
        lemma_graph_size(items[from], d.next);
        lemma_paired_put(d, g, Item::Graph(sub.picture), sub.next);
        lemma_children_paired(items, from + 1, g, d.up_to(sub.next).edge(g, d.next).graph(sub));
    }
}

/// What three edges and then the three nodes that they lead to make of
/// nothing: paired contents.
pub proof fn lemma_three_paired(g: nat, a: Item, b: Item, c: Item, bound: nat)
    requires
        item_number(a) is Some,
        item_number(b) is Some,
        item_number(c) is Some,
        item_number(a)->Some_0 < item_number(b)->Some_0 < item_number(c)->Some_0 < bound,
    ensures
        paired(
            Seq::<Item>::empty().push(Item::Edge(g, item_number(a)->Some_0)).push(
                Item::Edge(g, item_number(b)->Some_0),
            ).push(Item::Edge(g, item_number(c)->Some_0)).push(a).push(b).push(c),
            g,
            bound,
        ),
{
    let x = item_number(a)->Some_0;
    let y = item_number(b)->Some_0;
    let z = item_number(c)->Some_0;
    let i0 = Seq::<Item>::empty();
    let i1 = i0.push(Item::Edge(g, x));
    let i2 = i1.push(Item::Edge(g, y));
    let i3 = i2.push(Item::Edge(g, z));
    let i4 = i3.push(a);
    let i5 = i4.push(b);
    lemma_put(i0, Item::Edge(g, x), g);
    lemma_put(i1, Item::Edge(g, y), g);
    lemma_put(i2, Item::Edge(g, z), g);
    lemma_put(i3, a, g);
    lemma_put(i4, b, g);
    lemma_put(i5, c, g);
    let n0 = Seq::<nat>::empty();
    lemma_rising_put(n0, x, y);
    lemma_rising_put(n0.push(x), y, z);
    lemma_rising_put(n0.push(x).push(y), z, bound);
}

/// What two edges and then the two nodes that they lead to make of paired
/// contents: paired contents.
pub proof fn lemma_two_paired(items: Seq<Item>, g: nat, a: Item, b: Item, low: nat, bound: nat)
    requires
        paired(items, g, low),
        item_number(a) is Some,
        item_number(b) is Some,
        low <= item_number(a)->Some_0 < item_number(b)->Some_0 < bound,
    ensures
        paired(
            items.push(Item::Edge(g, item_number(a)->Some_0)).push(
                Item::Edge(g, item_number(b)->Some_0),
            ).push(a).push(b),
            g,
            bound,
        ),
{
    let x = item_number(a)->Some_0;
    let y = item_number(b)->Some_0;
    let i1 = items.push(Item::Edge(g, x));
    let i2 = i1.push(Item::Edge(g, y));
    let i3 = i2.push(a);
    lemma_put(items, Item::Edge(g, x), g);
    lemma_put(i1, Item::Edge(g, y), g);
    lemma_put(i2, a, g);
    lemma_put(i3, b, g);
    lemma_rising_on(nodes(items), low, x);
    lemma_rising_put(nodes(items), x, y);
    lemma_rising_put(nodes(items).push(x), y, bound);
}

/// What one edge and then the node that it leads to make of paired
/// contents: paired contents.
pub proof fn lemma_one_paired(items: Seq<Item>, g: nat, a: Item, low: nat, bound: nat)
    requires
        paired(items, g, low),
        item_number(a) is Some,
        low <= item_number(a)->Some_0 < bound,
    ensures
        paired(items.push(Item::Edge(g, item_number(a)->Some_0)).push(a), g, bound),
{
    let x = item_number(a)->Some_0;
    lemma_put(items, Item::Edge(g, x), g);
    lemma_put(items.push(Item::Edge(g, x)), a, g);
    lemma_rising_on(nodes(items), low, x);
    lemma_rising_put(nodes(items), x, bound);
}

/// In the graph of a construct each edge leaves the graph for exactly one
/// of its nodes, and each node is reached by exactly one edge: the
/// contents are paired.
pub proof fn lemma_contents_paired(ast: Ast, g: nat, next: nat)
    ensures
        paired(draw_contents(ast, g, next).items, g, draw_contents(ast, g, next).next),
{
    let none = Seq::<Item>::empty();
    assert(paired(none, g, next));
    match ast.info {
        ASTInfo::FunctionDec(ty, name, params, body) => {
            lemma_two_paired(
                none,
                g,
                Item::Symbol(next, type_text(ty)),
                Item::Symbol(next + 1, name@),
                next,
                next + 2,
            );
            let d0 = Drawing::blank(next + 2).edge(g, next).edge(g, next + 1).symbol(
                next,
                type_text(ty),
            ).symbol(next + 1, name@);
            let pg = next + 2;
            let p = draw_params(params@, 0, pg, Drawing::blank(pg + 1));
            lemma_params_size(params@, 0, pg, Drawing::blank(pg + 1));
            let d1 = if params@.len() > 0 {
                lemma_one_paired(
                    d0.items,
                    g,
                    Item::Graph(p.framed(pg, "Params"@).picture),
                    next + 2,
                    p.next,
                );
                d0.up_to(p.next).edge(g, pg).graph(p.framed(pg, "Params"@))
            } else {
                d0
            };
            let sub = draw_graph(*body, d1.next);
            lemma_graph_size(*body, d1.next);
            lemma_one_paired(d1.items, g, Item::Graph(sub.picture), d1.next, sub.next);
        },
        ASTInfo::VariableDec(ty, name) => {
            lemma_two_paired(
                none,
                g,
                Item::Symbol(next, type_text(ty)),
                Item::Symbol(next + 1, name@),
                next,
                next + 2,
            );
        },
        ASTInfo::BlockStmt(decls, stmts) => {
            lemma_children_paired(decls@, 0, g, Drawing::blank(next));
            lemma_children_paired(stmts@, 0, g, draw_children(decls@, 0, g, Drawing::blank(next)));
        },
        ASTInfo::SelectionStmt(c, t, e) => {
            let cs = draw_graph(*c, next + 1);
            lemma_graph_size(*c, next + 1);
            let ts = draw_graph(*t, cs.next);
            lemma_graph_size(*t, cs.next);
            lemma_three_paired(
                g,
                Item::Symbol(next, "if"@),
                Item::Graph(cs.picture),
                Item::Graph(ts.picture),
                ts.next,
            );
            match e {
                Some(es) => {
                    let fs = draw_graph(*es, ts.next + 1);
                    lemma_graph_size(*es, ts.next + 1);
                    let d = Drawing::blank(ts.next).edge(g, next).edge(g, next + 1).edge(
                        g,
                        cs.next,
                    ).symbol(next, "if"@).graph(cs).graph(ts);
                    lemma_two_paired(
                        d.items,
                        g,
                        Item::Symbol(ts.next, "else"@),
                        Item::Graph(fs.picture),
                        ts.next,
                        fs.next,
                    );
                },
                None => {},
            }
        },
        ASTInfo::IterationStmt(c, body) => {
            let cs = draw_graph(*c, next + 1);
            lemma_graph_size(*c, next + 1);
            let bs = draw_graph(*body, cs.next);
            lemma_graph_size(*body, cs.next);
            lemma_three_paired(
                g,
                Item::Symbol(next, "while"@),
                Item::Graph(cs.picture),
                Item::Graph(bs.picture),
                bs.next,
            );
        },
        ASTInfo::ReturnStmt(value) => {
            lemma_one_paired(none, g, Item::Symbol(next, "return"@), next, next + 1);
            match value {
                Some(e) => {
                    let sub = draw_graph(*e, next + 1);
                    lemma_graph_size(*e, next + 1);
                    let d = Drawing::blank(next + 1).edge(g, next).symbol(next, "return"@);
                    lemma_one_paired(d.items, g, Item::Graph(sub.picture), next + 1, sub.next);
                },
                None => {},
            }
        },
        ASTInfo::AssignmentExpr(var, rhs) => {
            let vs = draw_graph(*var, next);
            lemma_graph_size(*var, next);
            let es = draw_graph(*rhs, vs.next + 1);
            lemma_graph_size(*rhs, vs.next + 1);
            lemma_three_paired(
                g,
                Item::Graph(vs.picture),
                Item::Symbol(vs.next, "="@),
                Item::Graph(es.picture),
                es.next,
            );
        },
        ASTInfo::BinaryExpr(op, l, r) => {
            let ls = draw_graph(*l, next + 1);
            lemma_graph_size(*l, next + 1);
            let rs = draw_graph(*r, ls.next);
            lemma_graph_size(*r, ls.next);
            lemma_three_paired(
                g,
                Item::Symbol(next, oprand_text(op)),
                Item::Graph(ls.picture),
                Item::Graph(rs.picture),
                rs.next,
            );
        },
        ASTInfo::CallExpr(name, args) => {
            lemma_one_paired(none, g, Item::Symbol(next, name@), next, next + 1);
            if args@.len() > 0 {
                let pg = next + 1;
                let p = draw_children(args@, 0, pg, Drawing::blank(pg + 1));
                lemma_children_size(args@, 0, pg, Drawing::blank(pg + 1));
                let d = Drawing::blank(next + 1).edge(g, next).symbol(next, name@);
                lemma_one_paired(
                    d.items,
                    g,
                    Item::Graph(p.framed(pg, "Params"@).picture),
                    next + 1,
                    p.next,
                );
            }
        },
        ASTInfo::Variable(name, index) => {
            lemma_one_paired(none, g, Item::Symbol(next, name@), next, next + 1);
            match index {
                Some(ix) => {
                    let ig = next + 1;
                    let is = draw_graph(*ix, ig + 1);
                    lemma_graph_size(*ix, ig + 1);
                    let inner = Drawing::blank(is.next).edge(ig, ig + 1).graph(is);
                    let d = Drawing::blank(next + 1).edge(g, next).symbol(next, name@);
                    lemma_one_paired(
                        d.items,
                        g,
                        Item::Graph(inner.framed(ig, "Index"@).picture),
                        next + 1,
                        is.next,
                    );
                },
                None => {},
            }
        },
        ASTInfo::IntLiteral(v) => {
            lemma_one_paired(
                none,
                g,
                Item::Symbol(next, signed_decimal(v as int)),
                next,
                next + 1,
            );
        },
    }
}

/// Whether the numbers rise, each above all before it.
pub open spec fn ascending(numbers: Seq<nat>) -> bool {
    forall|i: int, j: int|
        0 <= i < j < numbers.len() ==> (#[trigger] numbers[i]) < (#[trigger] numbers[j])
}

/// Whether, in the graph and in every graph inside it, each edge leaves the
/// graph that holds it for one of that graph's nodes and each node is
/// reached by one edge of the graph that holds it: the edges lead, in their
/// order, to the nodes in their order, and no two nodes of a graph have one
/// number.
#[verifier::opaque]
pub open spec fn paired_throughout(p: Picture) -> bool
    decreases p,
{
    &&& targets(p.items) == nodes(p.items)
    &&& leaving(p.items, p.id)
    &&& ascending(nodes(p.items))
    &&& forall|i: int|
        0 <= i < p.items.len() ==> (#[trigger] p.items[i] matches Item::Graph(q)
            ==> paired_throughout(q))
}

/// Whether every graph among the items is paired throughout.
#[verifier::opaque]
pub open spec fn graphs_paired(items: Seq<Item>) -> bool {
    forall|i: int|
        0 <= i < items.len() ==> (#[trigger] items[i] matches Item::Graph(q) ==> paired_throughout(
            q,
        ))
}

/// Paired contents in which every graph is paired throughout make a graph
/// that is paired throughout.
pub proof fn lemma_framed_paired(p: Picture, bound: nat)
    requires
        paired(p.items, p.id, bound),
        graphs_paired(p.items),
    ensures
        paired_throughout(p),
{
    reveal(paired_throughout);
    reveal(graphs_paired);
    lemma_rising_distinct(nodes(p.items), bound);
}

/// Nothing holds no graph.
pub proof fn lemma_graphs_none()
    ensures
        graphs_paired(Seq::<Item>::empty()),
{
    reveal(graphs_paired);
}

/// The graph of a construct is paired throughout.
pub proof fn lemma_graph_paired(ast: Ast, first: nat)
    ensures
        paired_throughout(draw_graph(ast, first).picture),
    decreases ast, 1nat,
{
    lemma_contents_paired(ast, first, first + 1);
    lemma_contents_graphs_paired(ast, first, first + 1);
    lemma_framed_paired(
        draw_graph(ast, first).picture,
        draw_contents(ast, first, first + 1).next,
    );
}

/// Every graph in a list of constructs that is drawn is paired throughout.
pub proof fn lemma_children_graphs_paired(items: Seq<Ast>, from: int, g: nat, d: Drawing)
    requires
        graphs_paired(d.items),
    ensures
        graphs_paired(draw_children(items, from, g, d).items),
    decreases items, items.len() - from,
{
    if from < 0 || from >= items.len() {
    } else {
        let sub = draw_graph(items[from], d.next);
        lemma_graph_paired(items[from], d.next);
        lemma_graphs_one(d.items, g, d.next, Item::Graph(sub.picture));
        lemma_children_graphs_paired(
            items,
            from + 1,
            g,
            d.up_to(sub.next).edge(g, d.next).graph(sub),
        );
    }
}

/// No graph stands among the parameters of a function.
pub proof fn lemma_params_graphs_paired(
    params: Seq<(Type, String)>,
    from: int,
    g: nat,
    d: Drawing,
)
    requires
        graphs_paired(d.items),
    ensures
        graphs_paired(draw_params(params, from, g, d).items),
    decreases params.len() - from,
{
    if from < 0 || from >= params.len() {
    } else {
        let (ty, name) = params[from];
        lemma_graphs_two(
            d.items,
            g,
            d.next,
            d.next + 1,
            Item::Symbol(d.next, type_text(ty)),
            Item::Symbol(d.next + 1, name@),
        );
        lemma_params_graphs_paired(
            params,
            from + 1,
            g,
            d.up_to(d.next + 2).edge(g, d.next).edge(g, d.next + 1).symbol(
                d.next,
                type_text(ty),
            ).symbol(d.next + 1, name@),
        );
    }
}

/// Whether the item, where it is a graph, is paired throughout.
pub open spec fn graph_paired(item: Item) -> bool {
    item matches Item::Graph(q) ==> paired_throughout(q)
}

/// One more item that is no graph, or a graph that is paired throughout,
/// leaves every graph among the items paired throughout.
pub proof fn lemma_graphs_put(items: Seq<Item>, item: Item)
    requires
        graphs_paired(items),
        graph_paired(item),
    ensures
        graphs_paired(items.push(item)),
{
    reveal(graphs_paired);
    let more = items.push(item);
    assert forall|i: int| 0 <= i < more.len() implies (#[trigger] more[i] matches Item::Graph(q)
        ==> paired_throughout(q)) by {
        if i < items.len() {
            assert(more[i] == items[i]);
        }
    }
}

/// An edge and a node more.
pub proof fn lemma_graphs_one(items: Seq<Item>, g: nat, x: nat, a: Item)
    requires
        graphs_paired(items),
        graph_paired(a),
    ensures
        graphs_paired(items.push(Item::Edge(g, x)).push(a)),
{
    lemma_graphs_put(items, Item::Edge(g, x));
    lemma_graphs_put(items.push(Item::Edge(g, x)), a);
}

/// Two edges and two nodes more.
pub proof fn lemma_graphs_two(items: Seq<Item>, g: nat, x: nat, y: nat, a: Item, b: Item)
    requires
        graphs_paired(items),
        graph_paired(a),
        graph_paired(b),
    ensures
        graphs_paired(items.push(Item::Edge(g, x)).push(Item::Edge(g, y)).push(a).push(b)),
{
    let i1 = items.push(Item::Edge(g, x));
    let i2 = i1.push(Item::Edge(g, y));
    lemma_graphs_put(items, Item::Edge(g, x));
    lemma_graphs_put(i1, Item::Edge(g, y));
    lemma_graphs_put(i2, a);
    lemma_graphs_put(i2.push(a), b);
}

/// Three edges and three nodes.
pub proof fn lemma_graphs_three(g: nat, x: nat, y: nat, z: nat, a: Item, b: Item, c: Item)
    requires
        graph_paired(a),
        graph_paired(b),
        graph_paired(c),
    ensures
        graphs_paired(
            Seq::<Item>::empty().push(Item::Edge(g, x)).push(Item::Edge(g, y)).push(
                Item::Edge(g, z),
            ).push(a).push(b).push(c),
        ),
{
    let i0 = Seq::<Item>::empty();
    let i1 = i0.push(Item::Edge(g, x));
    let i2 = i1.push(Item::Edge(g, y));
    let i3 = i2.push(Item::Edge(g, z));
    lemma_graphs_none();
    lemma_graphs_put(i0, Item::Edge(g, x));
    lemma_graphs_put(i1, Item::Edge(g, y));
    lemma_graphs_put(i2, Item::Edge(g, z));
    lemma_graphs_put(i3, a);
    lemma_graphs_put(i3.push(a), b);
    lemma_graphs_put(i3.push(a).push(b), c);
}

/// Every graph among the contents of the graph of a function is paired
/// throughout, where the graph of its body is.
proof fn lemma_function_graphs_paired(ast: Ast, g: nat, next: nat)
    requires
        ast.info is FunctionDec,
        forall|first: nat| #[trigger]
            paired_throughout(draw_graph(*ast.info->FunctionDec_3, first).picture),
    ensures
        graphs_paired(draw_contents(ast, g, next).items),
{
    let none = Seq::<Item>::empty();
    lemma_graphs_none();
    match ast.info {
        ASTInfo::FunctionDec(ty, name, params, body) => {
            lemma_graphs_two(
                none,
                g,
                next,
                next + 1,
                Item::Symbol(next, type_text(ty)),
                Item::Symbol(next + 1, name@),
            );
            let d0 = Drawing::blank(next + 2).edge(g, next).edge(g, next + 1).symbol(
                next,
                type_text(ty),
            ).symbol(next + 1, name@);
            let pg = next + 2;
            let p = draw_params(params@, 0, pg, Drawing::blank(pg + 1));
            let d1 = if params@.len() > 0 {
                lemma_params_paired(params@, 0, pg, Drawing::blank(pg + 1));
                lemma_params_graphs_paired(params@, 0, pg, Drawing::blank(pg + 1));
                lemma_framed_paired(p.framed(pg, "Params"@).picture, p.next);
                lemma_graphs_one(d0.items, g, pg, Item::Graph(p.framed(pg, "Params"@).picture));
                d0.up_to(p.next).edge(g, pg).graph(p.framed(pg, "Params"@))
            } else {
                d0
            };
            let sub = draw_graph(*body, d1.next);
            assert(paired_throughout(sub.picture));
            lemma_graphs_one(d1.items, g, d1.next, Item::Graph(sub.picture));
        },
        _ => {},
    }
}

/// Every graph among the contents of the graph of a construct is paired
/// throughout.
#[verifier::rlimit(80)]
pub proof fn lemma_contents_graphs_paired(ast: Ast, g: nat, next: nat)
    ensures
        graphs_paired(draw_contents(ast, g, next).items),
    decreases ast, 0nat,
{
    let none = Seq::<Item>::empty();
    lemma_graphs_none();
    match ast.info {
        ASTInfo::FunctionDec(_, _, _, body) => {
            assert forall|first: nat| #[trigger]
                paired_throughout(draw_graph(*body, first).picture) by {
                lemma_graph_paired(*body, first);
            }
            lemma_function_graphs_paired(ast, g, next);
        },
        ASTInfo::VariableDec(ty, name) => {
            lemma_graphs_two(
                none,
                g,
                next,
                next + 1,
                Item::Symbol(next, type_text(ty)),
                Item::Symbol(next + 1, name@),
            );
        },
        ASTInfo::BlockStmt(decls, stmts) => {
            lemma_children_graphs_paired(decls@, 0, g, Drawing::blank(next));
            lemma_children_graphs_paired(
                stmts@,
                0,
                g,
                draw_children(decls@, 0, g, Drawing::blank(next)),
            );
        },
        ASTInfo::SelectionStmt(c, t, e) => {
            let cs = draw_graph(*c, next + 1);
            lemma_graph_paired(*c, next + 1);
            let ts = draw_graph(*t, cs.next);
            lemma_graph_paired(*t, cs.next);
            lemma_graphs_three(
                g,
                next,
                next + 1,
                cs.next,
                Item::Symbol(next, "if"@),
                Item::Graph(cs.picture),
                Item::Graph(ts.picture),
            );
            match e {
                Some(es) => {
                    let fs = draw_graph(*es, ts.next + 1);
                    lemma_graph_paired(*es, ts.next + 1);
                    let d = Drawing::blank(ts.next).edge(g, next).edge(g, next + 1).edge(
                        g,
                        cs.next,
                    ).symbol(next, "if"@).graph(cs).graph(ts);
                    lemma_graphs_two(
                        d.items,
                        g,
                        ts.next,
                        ts.next + 1,
                        Item::Symbol(ts.next, "else"@),
                        Item::Graph(fs.picture),
                    );
                },
                None => {},
            }
        },
        ASTInfo::IterationStmt(c, body) => {
            let cs = draw_graph(*c, next + 1);
            lemma_graph_paired(*c, next + 1);
            let bs = draw_graph(*body, cs.next);
            lemma_graph_paired(*body, cs.next);
            lemma_graphs_three(
                g,
                next,
                next + 1,
                cs.next,
                Item::Symbol(next, "while"@),
                Item::Graph(cs.picture),
                Item::Graph(bs.picture),
            );
        },
        ASTInfo::ReturnStmt(value) => {
            lemma_graphs_one(none, g, next, Item::Symbol(next, "return"@));
            match value {
                Some(e) => {
                    let sub = draw_graph(*e, next + 1);
                    lemma_graph_paired(*e, next + 1);
                    let d = Drawing::blank(next + 1).edge(g, next).symbol(next, "return"@);
                    lemma_graphs_one(d.items, g, next + 1, Item::Graph(sub.picture));
                },
                None => {},
            }
        },
        ASTInfo::AssignmentExpr(var, rhs) => {
            let vs = draw_graph(*var, next);
            lemma_graph_paired(*var, next);
            let es = draw_graph(*rhs, vs.next + 1);
            lemma_graph_paired(*rhs, vs.next + 1);
            lemma_graphs_three(
                g,
                next,
                vs.next,
                vs.next + 1,
                Item::Graph(vs.picture),
                Item::Symbol(vs.next, "="@),
                Item::Graph(es.picture),
            );
        },
        ASTInfo::BinaryExpr(op, l, r) => {
            let ls = draw_graph(*l, next + 1);
            lemma_graph_paired(*l, next + 1);
            let rs = draw_graph(*r, ls.next);
            lemma_graph_paired(*r, ls.next);
            lemma_graphs_three(
                g,
                next,
                next + 1,
                ls.next,
                Item::Symbol(next, oprand_text(op)),
                Item::Graph(ls.picture),
                Item::Graph(rs.picture),
            );
        },
        ASTInfo::CallExpr(name, args) => {
            lemma_graphs_one(none, g, next, Item::Symbol(next, name@));
            if args@.len() > 0 {
                let pg = next + 1;
                let p = draw_children(args@, 0, pg, Drawing::blank(pg + 1));
                lemma_children_paired(args@, 0, pg, Drawing::blank(pg + 1));
                lemma_children_graphs_paired(args@, 0, pg, Drawing::blank(pg + 1));
                lemma_framed_paired(p.framed(pg, "Params"@).picture, p.next);
                let d = Drawing::blank(next + 1).edge(g, next).symbol(next, name@);
                lemma_graphs_one(d.items, g, pg, Item::Graph(p.framed(pg, "Params"@).picture));
            }
        },
        ASTInfo::Variable(name, index) => {
            lemma_graphs_one(none, g, next, Item::Symbol(next, name@));
            match index {
                Some(ix) => {
                    let ig = next + 1;
                    let is = draw_graph(*ix, ig + 1);
                    lemma_graph_paired(*ix, ig + 1);
                    lemma_graph_size(*ix, ig + 1);
                    let inner = Drawing::blank(is.next).edge(ig, ig + 1).graph(is);
                    lemma_one_paired(none, ig, Item::Graph(is.picture), ig + 1, is.next);
                    lemma_graphs_one(none, ig, ig + 1, Item::Graph(is.picture));
                    lemma_framed_paired(inner.framed(ig, "Index"@).picture, is.next);
                    let d = Drawing::blank(next + 1).edge(g, next).symbol(next, name@);
                    lemma_graphs_one(
                        d.items,
                        g,
                        ig,
                        Item::Graph(inner.framed(ig, "Index"@).picture),
                    );
                },
                None => {},
            }
        },
        ASTInfo::IntLiteral(v) => {
            lemma_graphs_one(none, g, next, Item::Symbol(next, signed_decimal(v as int)));
        },
    }
}

/// In the drawing of a program, and in every graph inside it, each edge
/// leaves the graph that holds it for exactly one of that graph's nodes,
/// and each node is reached by exactly one edge.
pub proof fn lemma_program_paired(name: Seq<char>, items: Seq<Ast>)
    ensures
        paired_throughout(draw_program(name, items).picture),
{
    let d = Drawing::blank(2);
    assert(paired(d.items, 1, 2));
    lemma_graphs_none();
    lemma_children_paired(items, 0, 1, d);
    lemma_children_graphs_paired(items, 0, 1, d);
    lemma_framed_paired(
        draw_program(name, items).picture,
        draw_children(items, 0, 1, d).next,
    );
}

/// The number of nodes in the graph of a construct: its own node and the
/// nodes of its contents.
pub open spec fn graph_size(ast: Ast) -> nat
    decreases ast, 1nat,
{
    1 + contents_size(ast)
}

/// The number of nodes in the graphs of a list of constructs from the one
/// at `from` on.
pub open spec fn children_size(items: Seq<Ast>, from: int) -> nat
    decreases items, items.len() - from,
{
    if from < 0 || from >= items.len() {
        0
    } else {
        graph_size(items[from]) + children_size(items, from + 1)
    }
}

/// The number of nodes in the graphs of the first `k` constructs of a
/// list.
pub open spec fn numbers_before(items: Seq<Ast>, k: int) -> nat
    decreases k,
{
    if k <= 0 || k > items.len() {
        0
    } else {
        numbers_before(items, k - 1) + graph_size(items[k - 1])
    }
}

/// Whether the items are what the first `upto` constructs of a list are
/// drawn as in the graph `g`, numbered from `first` on: for each construct,
/// in the order of the list, an edge from `g` to its graph and then that
/// graph.
pub open spec fn lined_up(
    items: Seq<Item>,
    asts: Seq<Ast>,
    upto: int,
    g: nat,
    first: nat,
) -> bool {
    &&& items.len() == 2 * upto
    &&& forall|k: int|
        0 <= k < upto ==> items[2 * k] == Item::Edge(
            g,
            first + #[trigger] numbers_before(asts, k),
        ) && items[2 * k + 1] == Item::Graph(
            draw_graph(asts[k], first + numbers_before(asts, k)).picture,
        )
}

/// A list of constructs drawn into an empty graph is lined up.
pub proof fn lemma_children_lined_up(asts: Seq<Ast>, from: int, g: nat, d: Drawing, first: nat)
    requires
        0 <= from <= asts.len(),
        d.next == first + numbers_before(asts, from),
        lined_up(d.items, asts, from, g, first),
    ensures
        lined_up(draw_children(asts, from, g, d).items, asts, asts.len() as int, g, first),
    decreases asts.len() - from,
{
    if from < asts.len() {
        let sub = draw_graph(asts[from], d.next);
        lemma_graph_size(asts[from], d.next);
        let more = d.up_to(sub.next).edge(g, d.next).graph(sub);
        assert(more.items == d.items.push(Item::Edge(g, d.next)).push(Item::Graph(sub.picture)));
        assert forall|k: int| 0 <= k < from + 1 implies more.items[2 * k] == Item::Edge(
            g,
            first + #[trigger] numbers_before(asts, k),
        ) && more.items[2 * k + 1] == Item::Graph(
            draw_graph(asts[k], first + numbers_before(asts, k)).picture,
        ) by {
            if k < from {
                assert(more.items[2 * k] == d.items[2 * k]);
                assert(more.items[2 * k + 1] == d.items[2 * k + 1]);
            }
        }
        lemma_children_lined_up(asts, from + 1, g, more, first);
    }
}

/// The drawing of a program holds, for each top-level declaration in
/// order, an edge from the program's node to the declaration's graph and
/// then that graph, and nothing else.
pub proof fn lemma_program_lined_up(name: Seq<char>, asts: Seq<Ast>)
    ensures
        draw_program(name, asts).picture.name == Some(name),
        draw_program(name, asts).picture.id == 1,
        lined_up(draw_program(name, asts).picture.items, asts, asts.len() as int, 1, 2),
{
    lemma_children_lined_up(asts, 0, 1, Drawing::blank(2), 2);
}

/// The number of nodes among the contents of the graph of a construct.
pub open spec fn contents_size(ast: Ast) -> nat
    decreases ast, 0nat,
{
    match ast.info {
        ASTInfo::FunctionDec(_, _, params, body) => 2 + (if params@.len() > 0 {
            1 + 2 * params@.len()
        } else {
            0
        }) + graph_size(*body),
        ASTInfo::VariableDec(_, _) => 2,
        ASTInfo::BlockStmt(decls, stmts) => children_size(decls@, 0) + children_size(stmts@, 0),
        ASTInfo::SelectionStmt(c, t, e) => 1 + graph_size(*c) + graph_size(*t) + match e {
            Some(es) => 1 + graph_size(*es),
            None => 0,
        },
        ASTInfo::IterationStmt(c, body) => 1 + graph_size(*c) + graph_size(*body),
        ASTInfo::ReturnStmt(value) => 1 + match value {
            Some(e) => graph_size(*e),
            None => 0,
        },
        ASTInfo::AssignmentExpr(var, rhs) => graph_size(*var) + 1 + graph_size(*rhs),
        ASTInfo::BinaryExpr(_, l, r) => 1 + graph_size(*l) + graph_size(*r),
        ASTInfo::CallExpr(_, args) => 1 + (if args@.len() > 0 {
            1 + children_size(args@, 0)
        } else {
            0
        }),
        ASTInfo::Variable(_, index) => 1 + match index {
            Some(ix) => 1 + graph_size(*ix),
            None => 0,
        },
        ASTInfo::IntLiteral(_) => 1,
    }
}

/// The parameters from `from` on take two numbers each.
pub proof fn lemma_params_size(params: Seq<(Type, String)>, from: int, g: nat, d: Drawing)
    requires
        0 <= from <= params.len(),
    ensures
        draw_params(params, from, g, d).next == d.next + 2 * (params.len() - from),
    decreases params.len() - from,
{
    if from < params.len() {
        let (ty, name) = params[from];
        lemma_params_size(
            params,
            from + 1,
            g,
            d.up_to(d.next + 2).edge(g, d.next).edge(g, d.next + 1).symbol(d.next, type_text(ty)).symbol(d.next + 1, name@),
        );
    }
}

/// A list of constructs takes as many numbers as its graphs have nodes.
pub proof fn lemma_children_size(items: Seq<Ast>, from: int, g: nat, d: Drawing)
    ensures
        draw_children(items, from, g, d).next == d.next + children_size(items, from),
    decreases items, items.len() - from,
{
    if from < 0 || from >= items.len() {
    } else {
        let sub = draw_graph(items[from], d.next);
        lemma_graph_size(items[from], d.next);
        lemma_children_size(
            items,
            from + 1,
            g,
            d.up_to(sub.next).edge(g, d.next).graph(sub),
        );
    }
}

/// The graph of a construct takes as many numbers as it has nodes,
/// wherever its numbers start.
pub proof fn lemma_graph_size(ast: Ast, first: nat)
    ensures
        draw_graph(ast, first).next == first + graph_size(ast),
    decreases ast, 1nat,
{
    lemma_contents_size(ast, first, first + 1);
}

/// The contents of the graph of a construct take as many numbers as they
/// have nodes, wherever their numbers start.
#[verifier::rlimit(60)]
pub proof fn lemma_contents_size(ast: Ast, g: nat, next: nat)
    ensures
        draw_contents(ast, g, next).next == next + contents_size(ast),
    decreases ast, 0nat,
{
    match ast.info {
        ASTInfo::FunctionDec(ty, name, params, body) => {
            let pg = next + 2;
            lemma_params_size(params@, 0, pg, Drawing::blank(pg + 1));
            let p = draw_params(params@, 0, pg, Drawing::blank(pg + 1));
            if params@.len() > 0 {
                lemma_graph_size(*body, p.next);
            } else {
                lemma_graph_size(*body, next + 2);
            }
        },
        ASTInfo::VariableDec(_, _) => {},
        ASTInfo::BlockStmt(decls, stmts) => {
            lemma_children_size(decls@, 0, g, Drawing::blank(next));
            lemma_children_size(stmts@, 0, g, draw_children(decls@, 0, g, Drawing::blank(next)));
        },
        ASTInfo::SelectionStmt(c, t, e) => {
            lemma_graph_size(*c, next + 1);
            let cs = draw_graph(*c, next + 1);
            lemma_graph_size(*t, cs.next);
            let ts = draw_graph(*t, cs.next);
            match e {
                Some(es) => {
                    lemma_graph_size(*es, ts.next + 1);
                },
                None => {},
            }
        },
        ASTInfo::IterationStmt(c, body) => {
            lemma_graph_size(*c, next + 1);
            lemma_graph_size(*body, draw_graph(*c, next + 1).next);
        },
        ASTInfo::ReturnStmt(value) => {
            match value {
                Some(e) => {
                    lemma_graph_size(*e, next + 1);
                },
                None => {},
            }
        },
        ASTInfo::AssignmentExpr(var, rhs) => {
            lemma_graph_size(*var, next);
            lemma_graph_size(*rhs, draw_graph(*var, next).next + 1);
        },
        ASTInfo::BinaryExpr(_, l, r) => {
            lemma_graph_size(*l, next + 1);
            lemma_graph_size(*r, draw_graph(*l, next + 1).next);
        },
        ASTInfo::CallExpr(_, args) => {
            lemma_children_size(args@, 0, next + 1, Drawing::blank(next + 2));
        },
        ASTInfo::Variable(_, index) => {
            match index {
                Some(ix) => {
                    lemma_graph_size(*ix, next + 2);
                },
                None => {},
            }
        },
        ASTInfo::IntLiteral(_) => {},
    }
}

/// Whether `r` is the count `n`: the number itself, or nothing where the
/// number does not fit a machine number.
pub open spec fn counts(n: nat, r: Option<usize>) -> bool {
    match r {
        Some(v) => v == n,
        None => n > usize::MAX,
    }
}

/// The sum of two counts.
pub fn sum(a: Option<usize>, b: Option<usize>) -> (r: Option<usize>)
    ensures
        r == match (a, b) {
            (Some(x), Some(y)) => if x + y <= usize::MAX {
                Some((x + y) as usize)
            } else {
                None
            },
            _ => None,
        },
{
    match (a, b) {
        (Some(x), Some(y)) => {
            if x > usize::MAX - y {
                None
            } else {
                Some(x + y)
            }
        },
        _ => None,
    }
}

/// The number of nodes in the graphs of a list of constructs.
pub fn count_children(items: &Vec<Ast>) -> (r: Option<usize>)
    ensures
        counts(children_size(items@, 0), r),
    decreases items, 0nat,
{
    let mut total: Option<usize> = Some(0);
    let mut i: usize = items.len();
    while i > 0
        invariant
            i <= items.len(),
            counts(children_size(items@, i as int), total),
        decreases i,
    {
        i -= 1;
        total = sum(count_graph(&items[i]), total);
    }
    total
}

/// The number of nodes in the graph of a construct.
pub fn count_graph(ast: &Ast) -> (r: Option<usize>)
    ensures
        counts(graph_size(*ast), r),
    decreases ast, 1nat,
{
    sum(Some(1), count_contents(ast))
}

/// The number of nodes among the contents of the graph of a construct.
pub fn count_contents(ast: &Ast) -> (r: Option<usize>)
    ensures
        counts(contents_size(*ast), r),
    decreases ast, 0nat,
{
    match &ast.info {
        ASTInfo::FunctionDec(_, _, params, body) => {
            let listed = if params.len() > 0 {
                sum(Some(1), sum(Some(params.len()), Some(params.len())))
            } else {
                Some(0)
            };
            sum(Some(2), sum(listed, count_graph(body)))
        },
        ASTInfo::VariableDec(_, _) => Some(2),
        ASTInfo::BlockStmt(decls, stmts) => sum(count_children(decls), count_children(stmts)),
        ASTInfo::SelectionStmt(c, t, e) => {
            let other = match e {
                Some(es) => sum(Some(1), count_graph(es)),
                None => Some(0),
            };
            sum(Some(1), sum(count_graph(c), sum(count_graph(t), other)))
        },
        ASTInfo::IterationStmt(c, body) => sum(Some(1), sum(count_graph(c), count_graph(body))),
        ASTInfo::ReturnStmt(value) => match value {
            Some(e) => sum(Some(1), count_graph(e)),
            None => Some(1),
        },
        ASTInfo::AssignmentExpr(var, rhs) => sum(
            count_graph(var),
            sum(Some(1), count_graph(rhs)),
        ),
        ASTInfo::BinaryExpr(_, l, r) => sum(Some(1), sum(count_graph(l), count_graph(r))),
        ASTInfo::CallExpr(_, args) => {
            if args.len() > 0 {
                sum(Some(2), count_children(args))
            } else {
                Some(1)
            }
        },
        ASTInfo::Variable(_, index) => match index {
            Some(ix) => sum(Some(2), count_graph(ix)),
            None => Some(1),
        },
        ASTInfo::IntLiteral(_) => Some(1),
    }
}

impl IDAllocator {
    /// Gives the next number.
    pub fn allocate(&mut self) -> (r: usize)
        requires
            old(self).id < usize::MAX,
        ensures
            r == old(self).id,
            final(self).id == old(self).id + 1,
    {
        self.id += 1;
        self.id - 1
    }
}

impl Node {
    /// A symbol with the next number and the label `name`.
    pub fn new_symbol(ids: &mut IDAllocator, name: &str) -> (r: Self)
        requires
            old(ids).id < usize::MAX,
        ensures
            r matches Node::Symbol(id, label) && id == old(ids).id && label@ == name@,
            final(ids).id == old(ids).id + 1,
    {
        Node::Symbol(ids.allocate(), name.to_owned())
    }

    /// A graph as a node.
    pub fn new_subg(subg: DiGraph) -> (r: Self)
        ensures
            r == Node::Subgraph(subg),
    {
        Node::Subgraph(subg)
    }

    /// The number of the node.
    pub fn get_id(&self) -> (r: usize)
        ensures
            r == match *self {
                Node::Symbol(id, _) => id,
                Node::Subgraph(g) => g.id,
            },
    {
        match self {
            Node::Symbol(id, _) => *id,
            Node::Subgraph(g) => g.id,
        }
    }

    /// The text of the node: the line of a symbol, or the text of a graph.
    pub fn to_dot(&self) -> (r: String)
        requires
            *self matches Node::Subgraph(g) ==> formed(g),
        ensures
            r@ == content_text(Content::Node(*self)),
        decreases self, 1nat,
    {
        match self {
            Node::Symbol(id, name) => {
                let mut s = String::new();
                push_text(&mut s, "node");
                push_decimal(&mut s, *id as u64);
                push_text(&mut s, " [ label = \" ");
                push_text(&mut s, name.as_str());
                push_text(&mut s, " \" ];");
                assert(s@ =~= symbol_text(*id as nat, name@));
                s
            },
            Node::Subgraph(subg) => subg.to_dot(),
        }
    }
}

impl Edge {
    /// The edge from a graph to one of its nodes.
    pub fn new(g: &DiGraph, node: &Node) -> (r: Self)
        ensures
            r.from == g.id,
            r.to == match *node {
                Node::Symbol(id, _) => id,
                Node::Subgraph(sub) => sub.id,
            },
    {
        Edge { from: g.get_id(), to: node.get_id() }
    }

    /// The text of the edge.
    pub fn to_dot(&self) -> (r: String)
        ensures
            r@ == edge_text(self.from as nat, self.to as nat),
    {
        let mut s = String::new();
        push_text(&mut s, "node");
        push_decimal(&mut s, self.from as u64);
        push_text(&mut s, " -> node");
        push_decimal(&mut s, self.to as u64);
        assert(s@ =~= edge_text(self.from as nat, self.to as nat));
        s
    }
}

impl Content {
    /// The text of the node or the edge.
    pub fn to_dot(&self) -> (r: String)
        requires
            *self matches Content::Node(Node::Subgraph(g)) ==> formed(g),
        ensures
            r@ == content_text(*self),
        decreases self, 2nat,
    {
        match self {
            Content::Node(node) => node.to_dot(),
            Content::Edge(edge) => edge.to_dot(),
        }
    }
}

impl DiGraph {
    /// The number of the graph's own node.
    pub fn get_id(&self) -> (r: usize)
        ensures
            r == self.id,
    {
        self.id
    }

    /// The text of the contents of the graph.
    pub open spec fn body_text(self) -> Seq<char> {
        contents_text(self.conts@, self.conts@.len() as int)
    }

    /// What the contents of the graph stand for.
    pub open spec fn body_items(self) -> Seq<Item> {
        contents_model(self.conts@, self.conts@.len() as int)
    }

    /// The numbers of the nodes among the contents of the graph.
    pub open spec fn body_numbers(self) -> Seq<usize> {
        contents_numbers(self.conts@, self.conts@.len() as int)
    }

    /// The text of the graph: the line of its own node, then each of its
    /// contents, followed by a line break.
    pub fn to_dot(&self) -> (r: String)
        requires
            formed(*self),
        ensures
            r@ == graph_text(*self),
        decreases self, 0nat,
    {
        let mut buf = String::new();
        push_text(&mut buf, "node");
        push_decimal(&mut buf, self.id as u64);
        push_text(&mut buf, " [ label = \" ");
        match &self.name {
            Some(n) => {
                push_text(&mut buf, n.as_str());
            },
            None => {},
        }
        push_text(&mut buf, " \" ];");
        assert(buf@ =~= symbol_text(self.id as nat, self.name->Some_0@));
        let mut i: usize = 0;
        while i < self.conts.len()
            invariant
                i <= self.conts.len(),
                formed(*self),
                buf@ =~= symbol_text(self.id as nat, self.name->Some_0@) + contents_text(
                    self.conts@,
                    i as int,
                ),
            decreases self.conts.len() - i,
        {
            let ghost before = buf@;
            assert(match self.conts@[i as int] {
                Content::Node(Node::Subgraph(sub)) => formed(sub),
                _ => true,
            });
            let line = self.conts[i].to_dot();
            push_text(&mut buf, line.as_str());
            push_text(&mut buf, "\n");
            assert(buf@ =~= symbol_text(self.id as nat, self.name->Some_0@) + contents_text(
                self.conts@,
                i + 1,
            ));
            i += 1;
        }
        buf
    }

    /// The whole drawing as a document of Graphviz.
    pub fn write_dot(&self) -> (r: String)
        requires
            formed(*self),
        ensures
            r@ == document_text(*self),
    {
        let buf = self.to_dot();
        let mut s = String::new();
        push_text(&mut s, "digraph prog {\n");
        push_text(&mut s, buf.as_str());
        push_text(&mut s, "\n}");
        assert(s@ =~= document_text(*self));
        s
    }

    /// Adds a node or an edge behind the contents of the graph.
    pub fn add_cont(&mut self, cont: Content)
        requires
            formed(*old(self)) || old(self).conts@.len() == 0,
            cont matches Content::Node(Node::Subgraph(g)) ==> formed(g),
        ensures
            final(self).id == old(self).id,
            final(self).name == old(self).name,
            final(self).conts@ == old(self).conts@.push(cont),
            final(self).body_text() == old(self).body_text() + content_text(cont) + "\n"@,
            final(self).body_numbers() == old(self).body_numbers() + content_numbers(cont),
            final(self).body_items() == old(self).body_items().push(content_model(cont)),
            old(self).name is Some ==> formed(*final(self)),
            forall|i: int|
                0 <= i < final(self).conts@.len() ==> match #[trigger] final(self).conts@[i] {
                    Content::Node(Node::Subgraph(sub)) => formed(sub),
                    _ => true,
                },
    {
        proof {
            lemma_contents_prefix(self.conts@, cont, self.conts@.len() as int);
        }
        self.conts.push(cont);
        proof {
            assert forall|i: int| 0 <= i < self.conts@.len() implies match #[trigger] self.conts@[i] {
                Content::Node(Node::Subgraph(sub)) => formed(sub),
                _ => true,
            } by {
                if i < old(self).conts@.len() {
                    assert(self.conts@[i] == old(self).conts@[i]);
                }
            }
        }
    }
}

/// Whether the graph `after` is the graph `before`, which was empty, with
/// the contents of the construct drawn into it and the construct's label.
pub open spec fn drawn(
    before: DiGraph,
    first: IDAllocator,
    after: DiGraph,
    last: IDAllocator,
    ast: Ast,
) -> bool {
    let d = draw_contents(ast, before.id as nat, first.id as nat);
    &&& after.id == before.id
    &&& formed(after)
    &&& after.name matches Some(n) && n@ == kind_label(ast)
    &&& after.body_text() == d.text
    &&& after.body_items() == d.items
    &&& after.body_numbers() =~= counting(first.id as nat, contents_size(ast))
    &&& last.id == d.next
}

impl DiGraph {
    /// A graph with the next number, without a label and without contents.
    pub fn empty(ids: &mut IDAllocator) -> (r: Self)
        requires
            old(ids).id < usize::MAX,
        ensures
            r.name is None,
            r.id == old(ids).id,
            r.conts@.len() == 0,
            r.body_text() == Seq::<char>::empty(),
            r.body_numbers() == Seq::<usize>::empty(),
            final(ids).id == old(ids).id + 1,
    {
        DiGraph { name: None, id: ids.allocate(), conts: Vec::new() }
    }

    /// Gives the graph its label.
    fn set_name(&mut self, name: &str)
        requires
            old(self).conts@.len() == 0,
        ensures
            final(self).id == old(self).id,
            final(self).conts@.len() == 0,
            final(self).body_text() == Seq::<char>::empty(),
            final(self).body_numbers() == Seq::<usize>::empty(),
            final(self).name matches Some(n) && n@ == name@,
            formed(*final(self)),
    {
        self.name = Some(name.to_owned());
    }

    /// Adds a symbol with the next number and the label `label`, and gives
    /// the node back: it is not yet among the contents.
    fn symbol(ids: &mut IDAllocator, label: &str) -> (r: Node)
        requires
            old(ids).id < usize::MAX,
        ensures
            r matches Node::Symbol(id, l) && id == old(ids).id && l@ == label@,
            final(ids).id == old(ids).id + 1,
            content_text(Content::Node(r)) == symbol_text(old(ids).id as nat, label@),
            content_numbers(Content::Node(r)) == counting(old(ids).id as nat, 1),
            content_model(Content::Node(r)) == Item::Symbol(old(ids).id as nat, label@),
    {
        let node = Node::new_symbol(ids, label);
        assert(content_numbers(Content::Node(node)) =~= counting(old(ids).id as nat, 1));
        node
    }

    /// Draws an edge from the graph to `node`.
    fn add_edge(&mut self, node: &Node)
        requires
            formed(*old(self)),
        ensures
            final(self).id == old(self).id,
            final(self).name == old(self).name,
            formed(*final(self)),
            final(self).body_text() == old(self).body_text() + edge_text(
                old(self).id as nat,
                (match *node {
                    Node::Symbol(id, _) => id,
                    Node::Subgraph(sub) => sub.id,
                }) as nat,
            ) + "\n"@,
            final(self).body_numbers() == old(self).body_numbers(),
            final(self).body_items() == old(self).body_items().push(
                Item::Edge(
                    old(self).id as nat,
                    (match *node {
                        Node::Symbol(id, _) => id,
                        Node::Subgraph(sub) => sub.id,
                    }) as nat,
                ),
            ),
    {
        let edge = Edge::new(self, node);
        self.add_cont(Content::Edge(edge));
    }

    /// Puts `node` among the contents of the graph. Where the contents
    /// hold the numbers from `first` on and the node holds those that
    /// follow, the contents hold the numbers from `first` on again.
    fn add_node(&mut self, node: Node, Ghost(first): Ghost<nat>)
        requires
            formed(*old(self)),
            node matches Node::Subgraph(g) ==> formed(g),
            old(self).body_numbers() =~= counting(first, old(self).body_numbers().len()),
            content_numbers(Content::Node(node)) =~= counting(
                first + old(self).body_numbers().len(),
                content_numbers(Content::Node(node)).len(),
            ),
        ensures
            final(self).id == old(self).id,
            final(self).name == old(self).name,
            formed(*final(self)),
            final(self).body_text() == old(self).body_text() + content_text(Content::Node(node))
                + "\n"@,
            final(self).body_numbers() == counting(
                first,
                old(self).body_numbers().len() + content_numbers(Content::Node(node)).len(),
            ),
            final(self).body_items() == old(self).body_items().push(
                content_model(Content::Node(node)),
            ),
    {
        proof {
            lemma_counting_join(
                first,
                self.body_numbers().len(),
                content_numbers(Content::Node(node)).len(),
            );
        }
        self.add_cont(Content::Node(node));
    }

    /// The drawing of a program: a graph labelled `name` that holds the
    /// graph of each top-level declaration. The numbers start at 1.
    pub fn new(name: &str, asts: &Vec<Ast>) -> (r: Self)
        requires
            draw_program(name@, asts@).next <= usize::MAX,
        ensures
            formed(r),
            r.id == 1,
            graph_text(r) == draw_program(name@, asts@).text,
            graph_model(r) == draw_program(name@, asts@).picture,
            graph_numbers(r) == counting(1, 1 + children_size(asts@, 0)),
            paired(graph_model(r).items, 1, draw_program(name@, asts@).next),
            paired_throughout(graph_model(r)),
            r.name matches Some(n) && n@ == name@,
            r.conts@.len() == 2 * asts@.len(),
            lined_up(graph_model(r).items, asts@, asts@.len() as int, 1, 2),
    {
        let mut ids = IDAllocator { id: 1 };
        proof {
            lemma_children_size(asts@, 0, 1, Drawing::blank(2));
            lemma_children_paired(asts@, 0, 1, Drawing::blank(2));
            lemma_program_paired(name@, asts@);
            lemma_program_lined_up(name@, asts@);
        }
        let mut g = DiGraph::empty(&mut ids);
        g.set_name(name);
        g.parse_asts(&mut ids, asts);
        proof {
            lemma_counting_join(1, 1, children_size(asts@, 0));
            assert(seq![1usize] =~= counting(1, 1));
            assert(g.body_numbers() =~= counting(2, children_size(asts@, 0)));
            lemma_contents_model_index(g.conts@, g.conts@.len() as int);
        }
        g
    }

    /// The drawing of a program, where its nodes can be numbered: where
    /// there are more nodes than numbers, nothing.
    pub fn try_new(name: &str, asts: &Vec<Ast>) -> (r: Option<Self>)
        ensures
            r is Some <==> draw_program(name@, asts@).next <= usize::MAX,
            r matches Some(g) ==> formed(g) && g.id == 1 && graph_text(g) == draw_program(
                name@,
                asts@,
            ).text && graph_model(g) == draw_program(name@, asts@).picture && graph_numbers(g)
                == counting(1, 1 + children_size(asts@, 0)) && paired_throughout(graph_model(g))
                && g.conts@.len() == 2 * asts@.len() && lined_up(
                graph_model(g).items,
                asts@,
                asts@.len() as int,
                1,
                2,
            ),
    {
        proof {
            lemma_children_size(asts@, 0, 1, Drawing::blank(2));
        }
        match sum(Some(2), count_children(asts)) {
            Some(_) => Some(DiGraph::new(name, asts)),
            None => None,
        }
    }

    /// Draws a list of constructs into the graph: for each, an edge to its
    /// graph and then the graph.
    pub fn parse_asts(&mut self, ids: &mut IDAllocator, asts: &Vec<Ast>)
        requires
            formed(*old(self)),
            draw_children(
                asts@,
                0,
                old(self).id as nat,
                Drawing {
                    text: old(self).body_text(),
                    items: old(self).body_items(),
                    next: old(ids).id as nat,
                },
            ).next <= usize::MAX,
        ensures
            final(self).id == old(self).id,
            final(self).name == old(self).name,
            formed(*final(self)),
            (Drawing {
                text: final(self).body_text(),
                items: final(self).body_items(),
                next: final(ids).id as nat,
            })
                == draw_children(
                asts@,
                0,
                old(self).id as nat,
                Drawing {
                    text: old(self).body_text(),
                    items: old(self).body_items(),
                    next: old(ids).id as nat,
                },
            ),
            final(self).body_numbers() == old(self).body_numbers() + counting(
                old(ids).id as nat,
                children_size(asts@, 0),
            ),
        decreases asts, 0nat,
    {
        let ghost start = Drawing { text: self.body_text(), items: self.body_items(), next: ids.id as nat };
        let ghost g = self.id as nat;
        let mut i: usize = 0;
        while i < asts.len()
            invariant
                i <= asts.len(),
                self.id == g,
                self.id == old(self).id,
                self.name == old(self).name,
                formed(*self),
                draw_children(asts@, 0, g, start) == draw_children(
                    asts@,
                    i as int,
                    g,
                    Drawing { text: self.body_text(), items: self.body_items(), next: ids.id as nat },
                ),
                draw_children(asts@, 0, g, start).next <= usize::MAX,
                ids.id + children_size(asts@, i as int) == start.next + children_size(asts@, 0),
                start.next == old(ids).id,
                start.next <= ids.id,
                self.body_numbers() =~= old(self).body_numbers() + counting(
                    start.next,
                    (ids.id - start.next) as nat,
                ),
            decreases asts.len() - i,
        {
            proof {
                let d = Drawing { text: self.body_text(), items: self.body_items(), next: ids.id as nat };
                let sub = draw_graph(asts@[i as int], d.next);
                lemma_children_size(
                    asts@,
                    i + 1,
                    g,
                    d.up_to(sub.next).edge(g, d.next).graph(sub),
                );
            }
            let ghost before = ids.id as nat;
            let subg = DiGraph::from_ast(ids, &asts[i]);
            let node = Node::Subgraph(subg);
            self.add_edge(&node);
            self.add_cont(Content::Node(node));
            proof {
                lemma_graph_size(asts@[i as int], before);
                lemma_counting_join(
                    start.next,
                    (before - start.next) as nat,
                    graph_size(asts@[i as int]),
                );
                assert(ids.id == before + graph_size(asts@[i as int]));
                assert(self.body_numbers() =~= old(self).body_numbers() + (counting(
                    start.next,
                    (before - start.next) as nat,
                ) + counting(before, graph_size(asts@[i as int]))));
            }
            i += 1;
        }
    }

    /// The graph of a construct, numbered from the next number on.
    pub fn from_ast(ids: &mut IDAllocator, ast: &Ast) -> (r: Self)
        requires
            draw_graph(*ast, old(ids).id as nat).next <= usize::MAX,
        ensures
            r.id == old(ids).id,
            formed(r),
            graph_text(r) == draw_graph(*ast, old(ids).id as nat).text,
            graph_model(r) == draw_graph(*ast, old(ids).id as nat).picture,
            graph_numbers(r) == counting(old(ids).id as nat, graph_size(*ast)),
            final(ids).id == draw_graph(*ast, old(ids).id as nat).next,
            paired(graph_model(r).items, r.id as nat, final(ids).id as nat),
            paired_throughout(graph_model(r)),
        decreases ast, 2nat,
    {
        proof {
            lemma_contents_size(*ast, ids.id as nat, ids.id as nat + 1);
            lemma_contents_paired(*ast, ids.id as nat, ids.id as nat + 1);
            lemma_graph_paired(*ast, ids.id as nat);
        }
        let mut g = DiGraph::empty(ids);
        g.parse_ast(ids, ast);
        proof {
            lemma_counting_join(old(ids).id as nat, 1, contents_size(*ast));
            assert(seq![g.id] =~= counting(old(ids).id as nat, 1));
        }
        g
    }

    /// Draws the two symbols of a declaration, its type and its name.
    fn parse_declared(
        &mut self,
        ids: &mut IDAllocator,
        ty: Type,
        name: &String,
        Ghost(first): Ghost<nat>,
    )
        requires
            formed(*old(self)),
            old(ids).id + 2 <= usize::MAX,
            old(self).body_numbers() =~= counting(first, old(self).body_numbers().len()),
            old(ids).id == first + old(self).body_numbers().len(),
        ensures
            final(self).id == old(self).id,
            final(self).name == old(self).name,
            formed(*final(self)),
            final(ids).id == old(ids).id + 2,
            final(self).body_text() == old(self).body_text() + edge_text(
                old(self).id as nat,
                old(ids).id as nat,
            ) + "\n"@ + edge_text(old(self).id as nat, old(ids).id as nat + 1) + "\n"@
                + symbol_text(old(ids).id as nat, type_text(ty)) + "\n"@ + symbol_text(
                old(ids).id as nat + 1,
                name@,
            ) + "\n"@,
            final(self).body_numbers() == counting(first, old(self).body_numbers().len() + 2),
            final(self).body_items() == old(self).body_items().push(
                Item::Edge(old(self).id as nat, old(ids).id as nat),
            ).push(Item::Edge(old(self).id as nat, old(ids).id as nat + 1)).push(
                Item::Symbol(old(ids).id as nat, type_text(ty)),
            ).push(Item::Symbol(old(ids).id as nat + 1, name@)),
    {
        let shown = ty.to_string();
        let node_type = DiGraph::symbol(ids, shown.as_str());
        let node_name = DiGraph::symbol(ids, name.as_str());
        self.add_edge(&node_type);
        self.add_edge(&node_name);
        self.add_node(node_type, Ghost(first));
        self.add_node(node_name, Ghost(first));
    }

    /// Draws the contents of the graph of a function definition: its type and name, its parameters in a graph
    /// of their own where it has any, and its body.
    #[verifier::rlimit(60)]
    fn parse_function_dec(&mut self, ids: &mut IDAllocator, ast: &Ast)
        requires
            old(self).conts@.len() == 0,
            ast.info is FunctionDec,
            draw_contents(*ast, old(self).id as nat, old(ids).id as nat).next <= usize::MAX,
        ensures
            drawn(*old(self), *old(ids), *final(self), *final(ids), *ast),
        decreases ast, 0nat,
    {
        let ghost g = self.id as nat;
        let ghost next = ids.id as nat;
        match &ast.info {
            ASTInfo::FunctionDec(ftype, name, params, body) => {
                self.set_name("FunctionDec");
                proof {
                    let pg = next + 2;
                    lemma_params_size(params@, 0, pg, Drawing::blank(pg + 1));
                    let p = draw_params(params@, 0, pg, Drawing::blank(pg + 1));
                    if params@.len() > 0 {
                        lemma_graph_size(**body, p.next);
                    } else {
                        lemma_graph_size(**body, next + 2);
                    }
                }
                self.parse_declared(ids, *ftype, name, Ghost(next));
                if params.len() > 0 {
                    let mut subg = DiGraph::empty(ids);
                    subg.set_name("Params");
                    let ghost pg = subg.id as nat;
                    let mut k: usize = 0;
                    while k < params.len()
                        invariant
                            k <= params.len(),
                            subg.id == pg,
                            formed(subg),
                            subg.name matches Some(n) && n@ == "Params"@,
                            draw_params(params@, 0, pg, Drawing::blank(pg + 1)) == draw_params(
                                params@,
                                k as int,
                                pg,
                                Drawing { text: subg.body_text(), items: subg.body_items(), next: ids.id as nat },
                            ),
                            draw_params(params@, 0, pg, Drawing::blank(pg + 1)).next < usize::MAX,
                            ids.id == pg + 1 + 2 * k,
                            subg.body_numbers() =~= counting(pg + 1, 2 * k as nat),
                        decreases params.len() - k,
                    {
                        proof {
                            let d = Drawing { text: subg.body_text(), items: subg.body_items(), next: ids.id as nat };
                            let (ty, name) = params@[k as int];
                            lemma_params_size(
                                params@,
                                k + 1,
                                pg,
                                d.up_to(d.next + 2).edge(pg, d.next).edge(pg, d.next + 1).symbol(d.next, type_text(ty)).symbol(d.next + 1, name@),
                            );
                        }
                        subg.parse_declared(ids, params[k].0, &params[k].1, Ghost(pg + 1));
                        k += 1;
                    }
                    let node = Node::new_subg(subg);
                    self.add_edge(&node);
                    self.add_node(node, Ghost(next));
                }
                let subg = DiGraph::from_ast(ids, body);
                let node = Node::new_subg(subg);
                self.add_edge(&node);
                self.add_node(node, Ghost(next));
            },
            _ => {},
        }
    }

    /// Draws the contents of the graph of a variable declaration: its type and its name.
    fn parse_variable_dec(&mut self, ids: &mut IDAllocator, ast: &Ast)
        requires
            old(self).conts@.len() == 0,
            ast.info is VariableDec,
            draw_contents(*ast, old(self).id as nat, old(ids).id as nat).next <= usize::MAX,
        ensures
            drawn(*old(self), *old(ids), *final(self), *final(ids), *ast),
    {
        let ghost g = self.id as nat;
        let ghost next = ids.id as nat;
        match &ast.info {
            ASTInfo::VariableDec(vtype, name) => {
                self.set_name("VariableDec");
                self.parse_declared(ids, *vtype, name, Ghost(next));
            },
            _ => {},
        }
    }

    /// Draws the contents of the graph of a block: its declarations, then its statements.
    #[verifier::rlimit(60)]
    fn parse_block_stmt(&mut self, ids: &mut IDAllocator, ast: &Ast)
        requires
            old(self).conts@.len() == 0,
            ast.info is BlockStmt,
            draw_contents(*ast, old(self).id as nat, old(ids).id as nat).next <= usize::MAX,
        ensures
            drawn(*old(self), *old(ids), *final(self), *final(ids), *ast),
        decreases ast, 0nat,
    {
        let ghost g = self.id as nat;
        let ghost next = ids.id as nat;
        match &ast.info {
            ASTInfo::BlockStmt(decls, stmts) => {
                self.set_name("BlockStmt");
                proof {
                    lemma_children_size(
                        stmts@,
                        0,
                        g,
                        draw_children(decls@, 0, g, Drawing::blank(next)),
                    );
                }
                self.parse_asts(ids, decls);
                self.parse_asts(ids, stmts);
                proof {
                    lemma_children_size(decls@, 0, g, Drawing::blank(next));
                    lemma_counting_join(
                        next,
                        children_size(decls@, 0),
                        children_size(stmts@, 0),
                    );
                }
            },
            _ => {},
        }
    }

    /// Draws the contents of the graph of a selection: the word `if`, the condition and the statement, and
    /// the word `else` with the other statement where there is one.
    #[verifier::rlimit(60)]
    fn parse_selection_stmt(&mut self, ids: &mut IDAllocator, ast: &Ast)
        requires
            old(self).conts@.len() == 0,
            ast.info is SelectionStmt,
            draw_contents(*ast, old(self).id as nat, old(ids).id as nat).next <= usize::MAX,
        ensures
            drawn(*old(self), *old(ids), *final(self), *final(ids), *ast),
        decreases ast, 0nat,
    {
        let ghost g = self.id as nat;
        let ghost next = ids.id as nat;
        match &ast.info {
            ASTInfo::SelectionStmt(c, t, e) => {
                self.set_name("SelectionStmt");
                proof {
                    lemma_graph_size(**c, next + 1);
                    let cs = draw_graph(**c, next + 1);
                    lemma_graph_size(**t, cs.next);
                    let ts = draw_graph(**t, cs.next);
                    match e {
                        Some(es) => {
                            lemma_graph_size(**es, ts.next + 1);
                        },
                        None => {},
                    }
                }
                let if_node = DiGraph::symbol(ids, "if");
                let cond_node = Node::Subgraph(DiGraph::from_ast(ids, c));
                let true_node = Node::Subgraph(DiGraph::from_ast(ids, t));
                self.add_edge(&if_node);
                self.add_edge(&cond_node);
                self.add_edge(&true_node);
                self.add_node(if_node, Ghost(next));
                self.add_node(cond_node, Ghost(next));
                self.add_node(true_node, Ghost(next));
                match e {
                    Some(es) => {
                        let else_node = DiGraph::symbol(ids, "else");
                        let false_node = Node::Subgraph(DiGraph::from_ast(ids, es));
                        self.add_edge(&else_node);
                        self.add_edge(&false_node);
                        self.add_node(else_node, Ghost(next));
                        self.add_node(false_node, Ghost(next));
                    },
                    None => {},
                }
            },
            _ => {},
        }
    }

    /// Draws the contents of the graph of a loop: the word `while`, the condition and the body.
    #[verifier::rlimit(60)]
    fn parse_iteration_stmt(&mut self, ids: &mut IDAllocator, ast: &Ast)
        requires
            old(self).conts@.len() == 0,
            ast.info is IterationStmt,
            draw_contents(*ast, old(self).id as nat, old(ids).id as nat).next <= usize::MAX,
        ensures
            drawn(*old(self), *old(ids), *final(self), *final(ids), *ast),
        decreases ast, 0nat,
    {
        let ghost g = self.id as nat;
        let ghost next = ids.id as nat;
        match &ast.info {
            ASTInfo::IterationStmt(c, body) => {
                self.set_name("IterationStmt");
                proof {
                    lemma_graph_size(**c, next + 1);
                    lemma_graph_size(**body, draw_graph(**c, next + 1).next);
                }
                let while_node = DiGraph::symbol(ids, "while");
                let cond_node = Node::new_subg(DiGraph::from_ast(ids, c));
                let expr_node = Node::new_subg(DiGraph::from_ast(ids, body));
                self.add_edge(&while_node);
                self.add_edge(&cond_node);
                self.add_edge(&expr_node);
                self.add_node(while_node, Ghost(next));
                self.add_node(cond_node, Ghost(next));
                self.add_node(expr_node, Ghost(next));
            },
            _ => {},
        }
    }

    /// Draws the contents of the graph of a return: the word `return`, and the value where there is one.
    #[verifier::rlimit(60)]
    fn parse_return_stmt(&mut self, ids: &mut IDAllocator, ast: &Ast)
        requires
            old(self).conts@.len() == 0,
            ast.info is ReturnStmt,
            draw_contents(*ast, old(self).id as nat, old(ids).id as nat).next <= usize::MAX,
        ensures
            drawn(*old(self), *old(ids), *final(self), *final(ids), *ast),
        decreases ast, 0nat,
    {
        let ghost g = self.id as nat;
        let ghost next = ids.id as nat;
        match &ast.info {
            ASTInfo::ReturnStmt(value) => {
                self.set_name("ReturnStmt");
                proof {
                    match value {
                        Some(e) => {
                            lemma_graph_size(**e, next + 1);
                        },
                        None => {},
                    }
                }
                let return_node = DiGraph::symbol(ids, "return");
                self.add_edge(&return_node);
                self.add_node(return_node, Ghost(next));
                match value {
                    Some(e) => {
                        let retval_node = Node::new_subg(DiGraph::from_ast(ids, e));
                        self.add_edge(&retval_node);
                        self.add_node(retval_node, Ghost(next));
                    },
                    None => {},
                }
            },
            _ => {},
        }
    }

    /// Draws the contents of the graph of an assignment: the variable, the sign `=` and the expression.
    #[verifier::rlimit(60)]
    fn parse_assignment_expr(&mut self, ids: &mut IDAllocator, ast: &Ast)
        requires
            old(self).conts@.len() == 0,
            ast.info is AssignmentExpr,
            draw_contents(*ast, old(self).id as nat, old(ids).id as nat).next <= usize::MAX,
        ensures
            drawn(*old(self), *old(ids), *final(self), *final(ids), *ast),
        decreases ast, 0nat,
    {
        let ghost g = self.id as nat;
        let ghost next = ids.id as nat;
        match &ast.info {
            ASTInfo::AssignmentExpr(var, rhs) => {
                self.set_name("AssignmentExpr");
                proof {
                    lemma_graph_size(**var, next);
                    lemma_graph_size(**rhs, draw_graph(**var, next).next + 1);
                }
                let var_node = Node::new_subg(DiGraph::from_ast(ids, var));
                let equal_node = DiGraph::symbol(ids, "=");
                let expr_node = Node::new_subg(DiGraph::from_ast(ids, rhs));
                self.add_edge(&var_node);
                self.add_edge(&equal_node);
                self.add_edge(&expr_node);
                self.add_node(var_node, Ghost(next));
                self.add_node(equal_node, Ghost(next));
                self.add_node(expr_node, Ghost(next));
            },
            _ => {},
        }
    }

    /// Draws the contents of the graph of a binary expression: the operator and the two operands.
    #[verifier::rlimit(60)]
    fn parse_binary_expr(&mut self, ids: &mut IDAllocator, ast: &Ast)
        requires
            old(self).conts@.len() == 0,
            ast.info is BinaryExpr,
            draw_contents(*ast, old(self).id as nat, old(ids).id as nat).next <= usize::MAX,
        ensures
            drawn(*old(self), *old(ids), *final(self), *final(ids), *ast),
        decreases ast, 0nat,
    {
        let ghost g = self.id as nat;
        let ghost next = ids.id as nat;
        match &ast.info {
            ASTInfo::BinaryExpr(oprand, l, r) => {
                self.set_name("BinaryExpr");
                proof {
                    lemma_graph_size(**l, next + 1);
                    lemma_graph_size(**r, draw_graph(**l, next + 1).next);
                }
                let shown = oprand.to_string();
                let op_node = DiGraph::symbol(ids, shown.as_str());
                let lval = Node::new_subg(DiGraph::from_ast(ids, l));
                let rval = Node::new_subg(DiGraph::from_ast(ids, r));
                self.add_edge(&op_node);
                self.add_edge(&lval);
                self.add_edge(&rval);
                self.add_node(op_node, Ghost(next));
                self.add_node(lval, Ghost(next));
                self.add_node(rval, Ghost(next));
            },
            _ => {},
        }
    }

    /// Draws the contents of the graph of a call: the name of the callee, and its arguments in a graph of
    /// their own where it has any.
    #[verifier::rlimit(60)]
    fn parse_call_expr(&mut self, ids: &mut IDAllocator, ast: &Ast)
        requires
            old(self).conts@.len() == 0,
            ast.info is CallExpr,
            draw_contents(*ast, old(self).id as nat, old(ids).id as nat).next <= usize::MAX,
        ensures
            drawn(*old(self), *old(ids), *final(self), *final(ids), *ast),
        decreases ast, 0nat,
    {
        let ghost g = self.id as nat;
        let ghost next = ids.id as nat;
        match &ast.info {
            ASTInfo::CallExpr(name, args) => {
                self.set_name("CallExpr");
                proof {
                    lemma_children_size(args@, 0, next + 1, Drawing::blank(next + 2));
                }
                let name_node = DiGraph::symbol(ids, name.as_str());
                self.add_edge(&name_node);
                self.add_node(name_node, Ghost(next));
                if args.len() > 0 {
                    let mut subg = DiGraph::empty(ids);
                    subg.set_name("Params");
                    subg.parse_asts(ids, args);
                    let node = Node::new_subg(subg);
                    self.add_edge(&node);
                    self.add_node(node, Ghost(next));
                }
            },
            _ => {},
        }
    }

    /// Draws the contents of the graph of a variable: its name, and its subscript in a graph of its own
    /// where it has one.
    #[verifier::rlimit(60)]
    fn parse_variable(&mut self, ids: &mut IDAllocator, ast: &Ast)
        requires
            old(self).conts@.len() == 0,
            ast.info is Variable,
            draw_contents(*ast, old(self).id as nat, old(ids).id as nat).next <= usize::MAX,
        ensures
            drawn(*old(self), *old(ids), *final(self), *final(ids), *ast),
        decreases ast, 0nat,
    {
        let ghost g = self.id as nat;
        let ghost next = ids.id as nat;
        match &ast.info {
            ASTInfo::Variable(name, index) => {
                self.set_name("Variable");
                proof {
                    match index {
                        Some(ix) => {
                            lemma_graph_size(**ix, next + 2);
                        },
                        None => {},
                    }
                }
                let name_node = DiGraph::symbol(ids, name.as_str());
                self.add_edge(&name_node);
                self.add_node(name_node, Ghost(next));
                match index {
                    Some(ix) => {
                        let mut subg = DiGraph::empty(ids);
                        subg.set_name("Index");
                        let index_node = Node::new_subg(DiGraph::from_ast(ids, ix));
                        subg.add_edge(&index_node);
                        subg.add_node(index_node, Ghost(next + 2));
                        let node = Node::new_subg(subg);
                        self.add_edge(&node);
                        self.add_node(node, Ghost(next));
                    },
                    None => {},
                }
            },
            _ => {},
        }
    }

    /// Draws the contents of the graph of a literal: its value.
    fn parse_int_literal(&mut self, ids: &mut IDAllocator, ast: &Ast)
        requires
            old(self).conts@.len() == 0,
            ast.info is IntLiteral,
            draw_contents(*ast, old(self).id as nat, old(ids).id as nat).next <= usize::MAX,
        ensures
            drawn(*old(self), *old(ids), *final(self), *final(ids), *ast),
    {
        let ghost g = self.id as nat;
        let ghost next = ids.id as nat;
        match &ast.info {
            ASTInfo::IntLiteral(val) => {
                self.set_name("IntLiteral");
                let mut shown = String::new();
                push_signed_decimal(&mut shown, *val);
                assert(shown@ =~= signed_decimal(*val as int));
                let int_node = DiGraph::symbol(ids, shown.as_str());
                self.add_edge(&int_node);
                self.add_node(int_node, Ghost(next));
            },
            _ => {},
        }
    }

    /// Draws the contents of the graph of a construct, and gives the graph
    /// the construct's label.
    pub fn parse_ast(&mut self, ids: &mut IDAllocator, ast: &Ast)
        requires
            old(self).conts@.len() == 0,
            draw_contents(*ast, old(self).id as nat, old(ids).id as nat).next <= usize::MAX,
        ensures
            drawn(*old(self), *old(ids), *final(self), *final(ids), *ast),
            final(self).conts@.len() == draw_contents(
                *ast,
                old(self).id as nat,
                old(ids).id as nat,
            ).items.len(),
            paired(final(self).body_items(), old(self).id as nat, final(ids).id as nat),
        decreases ast, 1nat,
    {
        proof {
            lemma_contents_paired(*ast, self.id as nat, ids.id as nat);
        }
        match &ast.info {
            ASTInfo::FunctionDec(_, _, _, _) => self.parse_function_dec(ids, ast),
            ASTInfo::VariableDec(_, _) => self.parse_variable_dec(ids, ast),
            ASTInfo::BlockStmt(_, _) => self.parse_block_stmt(ids, ast),
            ASTInfo::SelectionStmt(_, _, _) => self.parse_selection_stmt(ids, ast),
            ASTInfo::IterationStmt(_, _) => self.parse_iteration_stmt(ids, ast),
            ASTInfo::ReturnStmt(_) => self.parse_return_stmt(ids, ast),
            ASTInfo::AssignmentExpr(_, _) => self.parse_assignment_expr(ids, ast),
            ASTInfo::BinaryExpr(_, _, _) => self.parse_binary_expr(ids, ast),
            ASTInfo::CallExpr(_, _) => self.parse_call_expr(ids, ast),
            ASTInfo::Variable(_, _) => self.parse_variable(ids, ast),
            ASTInfo::IntLiteral(_) => self.parse_int_literal(ids, ast),
        }
        proof {
            lemma_contents_model_index(self.conts@, self.conts@.len() as int);
        }
    }
}

} // verus!
