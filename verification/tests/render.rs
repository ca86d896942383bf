use rust_gen_callgraph::analyzer::syntax::{Expr, ExprCall, File, Item, ItemFn, Path, Stmt};
use rust_gen_callgraph::analyzer::SourceUnit;
use rust_gen_callgraph::call_data::CallInfo;
use rust_gen_callgraph::output::dot_writer::{
    decimal_text, edge, end, node, single_edge, start, DotWriter,
};
use rust_gen_callgraph::output::cluster_writer::{write_members, ClusterWriter};
use rust_gen_callgraph::output::graph_creator::ClusterDataType;
use rust_gen_callgraph::output::{partition, render_to};
use rust_gen_callgraph::run;

fn call(caller: &str, callee: &str) -> CallInfo {
    CallInfo {
        caller: caller.to_string(),
        callee: callee.to_string(),
    }
}

#[test]
fn diagram_of_a_small_graph() {
    let edges = vec![call("A::B::f", "A::B::g"), call("A::B::f", "C::h")];
    let mut text = String::from("// graph\n");
    render_to(edges, &mut text);
    let expect = concat_lines(&[
        "// graph",
        "digraph G {",
        " rankdir=LR;",
        "A__B__g [label=\"g\"]",
        "A__B__f [label=\"f\"]",
        "C__h [label=\"h\"]",
        "subgraph cluster_0 {",
        "label=\"A\"",
        "A__B__f -> A__B__g",
        "A__B__f",
        "subgraph cluster_1 {",
        "label=\"A::B\"",
        "A__B__f",
        "}",
        "}",
        "subgraph cluster_2 {",
        "label=\"C\"",
        "C__h",
        "}",
        "A__B__f -> C__h",
        "}",
    ]);
    assert_eq!(text, expect);
}

fn concat_lines(lines: &[&str]) -> String {
    let mut text = String::new();
    for line in lines {
        text.push_str(line);
        text.push('\n');
    }
    text
}

#[test]
fn diagram_of_the_empty_graph() {
    let mut text = String::new();
    render_to(Vec::new(), &mut text);
    assert_eq!(text, "digraph G {\n rankdir=LR;\n}\n");
}

#[test]
fn diagram_without_scopes_has_no_cluster() {
    let mut text = String::new();
    render_to(vec![call("main", "my-helper")], &mut text);
    assert_eq!(
        text,
        "digraph G {\n rankdir=LR;\nmy_helper [label=\"my-helper\"]\nmain [label=\"main\"]\nmain -> my_helper\n}\n"
    );
}

#[test]
fn statements_of_the_diagram() {
    assert_eq!(start(), "digraph G {\n rankdir=LR;\n");
    assert_eq!(end(), "}\n");
    assert_eq!(node("a::b-c::d"), "a__b_c__d [label=\"d\"]\n");
    assert_eq!(node("plain"), "plain [label=\"plain\"]\n");
    assert_eq!(node(""), " [label=\"\"]\n");
    assert_eq!(node("a::"), "a__ [label=\"\"]\n");
    assert_eq!(edge("a::b", "c-d"), "a__b -> c_d\n");
    assert_eq!(single_edge("x::y"), "x__y\n");
}

#[test]
fn clusters_are_numbered_from_zero() {
    let mut writer = DotWriter::new();
    assert_eq!(
        writer.start_cluster("a::b"),
        "subgraph cluster_0 {\nlabel=\"a::b\"\n"
    );
    assert_eq!(writer.start_cluster("c"), "subgraph cluster_1 {\nlabel=\"c\"\n");
    assert_eq!(writer.end_cluster(), "}\n");
    for _ in 2..10 {
        writer.start_cluster("");
    }
    assert_eq!(writer.start_cluster("k"), "subgraph cluster_10 {\nlabel=\"k\"\n");
}

#[test]
fn numbers_in_decimal() {
    assert_eq!(decimal_text(0), "0");
    assert_eq!(decimal_text(7), "7");
    assert_eq!(decimal_text(10), "10");
    assert_eq!(decimal_text(1234567890), "1234567890");
    assert_eq!(decimal_text(usize::MAX), usize::MAX.to_string());
}

fn unit(module: &str, function: &str, callees: &[&str]) -> SourceUnit {
    let block = callees
        .iter()
        .map(|callee| {
            Stmt::Expr(Expr::Call(ExprCall {
                func: Box::new(Expr::Path(Path {
                    segments: callee.split("::").map(|s| s.to_string()).collect(),
                })),
                args: vec![],
            }))
        })
        .collect();
    SourceUnit {
        module_name: module.to_string(),
        syntax: File {
            items: vec![Item::Fn(ItemFn {
                ident: function.to_string(),
                output: None,
                block,
            })],
        },
    }
}

#[test]
fn from_source_files_to_the_diagram() {
    let files = vec![
        unit("p", "main", &["p::work", "Vec", "p::work"]),
        unit("p", "work", &["q::help"]),
    ];
    let expect = concat_lines(&[
        "digraph G {",
        " rankdir=LR;",
        "p__work [label=\"work\"]",
        "p__main [label=\"main\"]",
        "q__help [label=\"help\"]",
        "subgraph cluster_0 {",
        "label=\"p\"",
        "p__main -> p__work",
        "p__work",
        "}",
        "subgraph cluster_1 {",
        "label=\"q\"",
        "q__help",
        "}",
        "p__work -> q__help",
        "}",
    ]);
    assert_eq!(run(&files, false), expect);

    let with_data_types = run(&files, true);
    assert!(with_data_types.contains("Vec [label=\"Vec\"]\n"));
    assert!(with_data_types.contains("p__main -> Vec\n"));
}

#[test]
fn blocks_are_nested_as_the_scopes_are() {
    let edges = vec![
        call("a::b::c::f", "a::b::c::g"),
        call("a::b::d::h", "x::y"),
        call("a::e::i", "a::e::j"),
    ];
    let mut text = String::new();
    render_to(edges, &mut text);
    let blocks: Vec<&str> = text
        .lines()
        .filter(|line| line.starts_with("subgraph") || line.starts_with("label") || *line == "}")
        .collect();
    assert_eq!(
        blocks,
        vec![
            "subgraph cluster_0 {",
            "label=\"a\"",
            "subgraph cluster_1 {",
            "label=\"a::b\"",
            "subgraph cluster_2 {",
            "label=\"a::b::c\"",
            "}",
            "subgraph cluster_3 {",
            "label=\"a::b::d\"",
            "}",
            "}",
            "subgraph cluster_4 {",
            "label=\"a::e\"",
            "}",
            "}",
            "subgraph cluster_5 {",
            "label=\"x\"",
            "}",
            "}",
        ]
    );
}

#[test]
fn writer_opens_and_closes_blocks() {
    let parts = partition(vec![call("A::f", "A::g"), call("A::f", "B::h")]);
    let mut writer = ClusterWriter::new(parts.clusters);
    assert!(writer.open_cluster("A"));
    assert!(writer.close_cluster("A"));
    assert!(writer.open_cluster("B"));
    assert!(!writer.open_cluster("C"));
    assert!(writer.close_cluster("B"));
    assert_eq!(
        writer.into_text(),
        concat_lines(&[
            "subgraph cluster_0 {",
            "label=\"A\"",
            "A__f -> A__g",
            "A__f",
            "}",
            "subgraph cluster_1 {",
            "label=\"B\"",
            "B__h",
            "}",
        ])
    );
}

#[test]
fn writer_without_clusters_stops_the_walk() {
    let mut writer = ClusterWriter::new(Vec::new());
    assert!(!writer.open_cluster("A"));
    assert_eq!(writer.into_text(), "");
}

#[test]
fn members_are_written_in_their_order() {
    let members = vec![
        ClusterDataType::Single("a::b".to_string()),
        ClusterDataType::CallInfo(call("x-y", "z")),
    ];
    assert_eq!(write_members(&members), "a__b\nx_y -> z\n");
    assert_eq!(write_members(&Vec::new()), "");
}

#[test]
fn writer_counts_as_it_goes() {
    let mut writer = DotWriter::new();
    assert_eq!(writer.number(), 0);
    writer.start_cluster("a");
    assert_eq!(writer.number(), 1);
}

#[test]
fn statements_are_the_same_by_every_path() {
    assert_eq!(rust_gen_callgraph::dot_writer::start(), start());
    assert_eq!(rust_gen_callgraph::dot_writer::end(), end());
    assert_eq!(rust_gen_callgraph::dot_writer::node("a::b"), node("a::b"));
    assert_eq!(rust_gen_callgraph::dot_writer::edge("a", "b"), edge("a", "b"));
    assert_eq!(
        rust_gen_callgraph::create_graph::dot_writer::single_edge("a-b"),
        "a_b\n"
    );
    let mut writer = rust_gen_callgraph::create_graph::dot_writer::DotWriter::new();
    assert_eq!(writer.start_cluster("m"), "subgraph cluster_0 {\nlabel=\"m\"\n");
}

#[test]
fn edge_of_a_cluster_is_drawn_from_caller_to_callee() {
    let mut text = String::new();
    render_to(vec![call("a::f", "a::g")], &mut text);
    assert_eq!(
        text,
        concat_lines(&[
            "digraph G {",
            " rankdir=LR;",
            "a__g [label=\"g\"]",
            "a__f [label=\"f\"]",
            "subgraph cluster_0 {",
            "label=\"a\"",
            "a__f -> a__g",
            "}",
            "}",
        ])
    );
}
