use rust_gen_callgraph::call_data::CallInfo;
use rust_gen_callgraph::class_tree::ClassTree;
use rust_gen_callgraph::create_graph::create_dot_graph::CreateDotGraph;
use rust_gen_callgraph::module_tree::{ModuleTree, ModuleTreeInterface};
use rust_gen_callgraph::output::graph_creator::{ClusterData, ClusterDataType, DotGraphBuilder};
use rust_gen_callgraph::output::module_tree::ClassPathTreeInterface;
use rust_gen_callgraph::output::{make_classpath_tree, partition};
use rust_gen_callgraph::struct_tree::StructTree;

fn call(caller: &str, callee: &str) -> CallInfo {
    CallInfo {
        caller: caller.to_string(),
        callee: callee.to_string(),
    }
}

fn inside(caller: &str, callee: &str) -> ClusterDataType {
    ClusterDataType::CallInfo(call(caller, callee))
}

fn border(name: &str) -> ClusterDataType {
    ClusterDataType::Single(name.to_string())
}

fn shape(clusters: &[ClusterData]) -> Vec<(String, Vec<String>)> {
    clusters
        .iter()
        .map(|c| {
            let members = c
                .get_nodes()
                .iter()
                .map(|m| match m {
                    ClusterDataType::Single(name) => name.clone(),
                    ClusterDataType::CallInfo(e) => format!("{} -> {}", e.caller, e.callee),
                })
                .collect();
            (c.get_cluseter_name().to_string(), members)
        })
        .collect()
}

fn texts(list: &[&str]) -> Vec<String> {
    list.iter().map(|s| s.to_string()).collect()
}

#[test]
fn cluster_of_a_scope_takes_inner_edges_and_border_nodes() {
    let edges = vec![call("A::B::f", "A::B::g"), call("A::B::f", "C::h")];
    let mut builder = DotGraphBuilder::new(edges);
    assert!(ClassPathTreeInterface::exec_search_before(&mut builder, "A::B"));

    let clusters = builder.borrow_result();
    assert_eq!(clusters.len(), 1);
    assert_eq!(clusters[0].get_cluseter_name(), "A::B");
    assert_eq!(
        clusters[0].get_nodes(),
        &vec![inside("A::B::f", "A::B::g"), border("A::B::f")]
    );
    assert_eq!(builder.get_left_over(), vec![call("A::B::f", "C::h")]);
    assert_eq!(builder.write_callinfo(), "A__B__f -> C__h\n");
}

#[test]
fn unclaimed_end_shows_up_in_its_own_cluster() {
    let edges = vec![call("A::B::f", "A::B::g"), call("A::B::f", "C::h")];
    let parts = partition(edges);
    assert_eq!(
        shape(&parts.clusters),
        vec![
            (
                "A".to_string(),
                texts(&["A::B::f -> A::B::g", "A::B::f"])
            ),
            ("A::B".to_string(), texts(&["A::B::f"])),
            ("C".to_string(), texts(&["C::h"])),
        ]
    );
    assert_eq!(parts.rest, vec![call("A::B::f", "C::h")]);
}

#[test]
fn shallowest_scope_claims_the_edge() {
    let edges = vec![call("A::B::C::f", "A::B::C::g")];
    let parts = partition(edges);
    assert_eq!(
        shape(&parts.clusters),
        vec![
            ("A".to_string(), texts(&["A::B::C::f -> A::B::C::g"])),
            ("A::B".to_string(), Vec::new()),
            ("A::B::C".to_string(), Vec::new()),
        ]
    );
    assert!(parts.rest.is_empty());
}

#[test]
fn every_edge_is_drawn_exactly_once() {
    let edges = vec![
        call("p::a::f", "p::a::g"),
        call("p::a::f", "p::b::h"),
        call("p::b::h", "q::k"),
        call("q::k", "q::k"),
        call("main", "p::a::f"),
        call("r::s::t::u", "r::s::v"),
        call("x", "y"),
        call("pp::a", "p::a::f"),
    ];
    let parts = partition(edges.clone());
    let mut drawn: Vec<CallInfo> = parts.rest.clone();
    for cluster in &parts.clusters {
        for member in cluster.get_nodes() {
            if let ClusterDataType::CallInfo(e) = member {
                drawn.push(e.clone());
            }
        }
    }
    let mut expect = edges.clone();
    expect.sort();
    drawn.sort();
    assert_eq!(drawn, expect);
    assert_eq!(
        parts.rest,
        vec![
            call("p::b::h", "q::k"),
            call("main", "p::a::f"),
            call("x", "y"),
            call("pp::a", "p::a::f"),
        ]
    );
}

#[test]
fn scope_is_a_matter_of_whole_segments() {
    let edges = vec![call("AB::f", "AB::g"), call("A::f", "AB::g")];
    let mut builder = DotGraphBuilder::new(edges);
    builder.enter_scope("A");
    assert_eq!(builder.borrow_result()[0].get_nodes(), &vec![border("A::f")]);
    assert_eq!(builder.get_left_over().len(), 2);
}

#[test]
fn members_of_a_cluster_are_listed_once() {
    let edges = vec![
        call("A::f", "X::a"),
        call("A::f", "X::b"),
        call("A::f", "A::g"),
        call("A::f", "A::g"),
        call("Y::c", "A::f"),
    ];
    let mut builder = DotGraphBuilder::new(edges);
    builder.enter_scope("A");
    assert_eq!(
        builder.borrow_result()[0].get_nodes(),
        &vec![border("A::f"), inside("A::f", "A::g")]
    );
    assert!(builder
        .get_left_over()
        .iter()
        .all(|e| e.callee != "A::g"));
}

#[test]
fn scope_is_entered_under_the_name_given() {
    let edges = vec![call("A::B::f", "A::C::g"), call("A::C::g", "A::C::h")];
    let mut builder = DotGraphBuilder::new(edges);
    builder.enter_scope("Z");
    builder.leave_scope("Z");
    builder.enter_scope("A::C");
    builder.leave_scope("A::C");
    builder.enter_scope("A");
    builder.enter_scope("A::C");
    assert_eq!(
        shape(builder.borrow_result()),
        vec![
            ("Z".to_string(), Vec::new()),
            (
                "A::C".to_string(),
                texts(&["A::C::g", "A::C::g -> A::C::h"])
            ),
            ("A".to_string(), texts(&["A::B::f -> A::C::g"])),
            ("A::C".to_string(), Vec::new()),
        ]
    );
    assert!(builder.get_left_over().is_empty());
}

#[test]
fn builder_names_every_node_once() {
    let edges = vec![call("a", "b"), call("b", "c"), call("a", "c")];
    let builder = DotGraphBuilder::new(edges);
    assert_eq!(builder.get_all_node(), texts(&["b", "a", "c"]));
    assert_eq!(
        builder.write_node_label(),
        "b [label=\"b\"]\na [label=\"a\"]\nc [label=\"c\"]\n"
    );
}

#[test]
fn result_can_be_changed_and_taken() {
    let mut builder = DotGraphBuilder::new(vec![call("A::f", "A::g")]);
    builder.enter_scope("A");
    builder.enter_scope("A::B");
    assert_eq!(builder.borrow_result().len(), 2);
    builder.borrow_mut_result().pop();
    assert_eq!(builder.borrow_result().len(), 1);
    builder.borrow_mut_result().clear();
    assert!(builder.borrow_result().is_empty());
    assert!(builder.into_result().is_empty());
}

#[test]
fn tree_of_scopes_holds_what_encloses_each_end() {
    let edges = vec![call("A::B::f", "C::h"), call("main", "A::g")];
    let tree = make_classpath_tree(&edges);
    let mut builder = DotGraphBuilder::new(edges);
    assert!(tree.search_preorder(&mut builder));
    let names: Vec<&str> = builder
        .borrow_result()
        .iter()
        .map(|c| c.get_cluseter_name())
        .collect();
    assert_eq!(names, vec!["A", "A::B", "C"]);
}

#[test]
fn builder_walks_a_tree_of_modules_too() {
    let mut tree = ModuleTree::new();
    tree.push(&["A", "B"]);
    tree.push(&["C"]);
    let mut builder = CreateDotGraph::new(vec![call("A::B::f", "A::B::g"), call("C::x", "D::y")]);
    assert!(tree.search_preorder(&mut builder));
    assert_eq!(
        shape(builder.borrow_result()),
        vec![
            ("A".to_string(), texts(&["A::B::f -> A::B::g"])),
            ("A::B".to_string(), Vec::new()),
            ("C".to_string(), texts(&["C::x"])),
        ]
    );
    assert!(ModuleTreeInterface::exec_search_after(&mut builder, "C"));
}

#[test]
fn partition_of_nothing_is_nothing() {
    let parts = partition(Vec::new());
    assert!(parts.clusters.is_empty());
    assert!(parts.rest.is_empty());
}

#[test]
fn builder_walks_a_tree_of_classes_too() {
    let mut tree = ClassTree::new();
    tree.push(&["A"]);
    let mut builder =
        rust_gen_callgraph::create_dot_graph::CreateDotGraph::new(vec![call("A::f", "A::g")]);
    assert!(tree.search_preorder(&mut builder));
    assert_eq!(
        shape(builder.borrow_result()),
        vec![("A".to_string(), texts(&["A::f -> A::g"]))]
    );
    assert_eq!(builder.write_callinfo(), "");
}

#[test]
fn builder_walks_a_tree_of_structs_too() {
    let mut tree = StructTree::new();
    tree.push(&["S", "T"]);
    let mut builder = DotGraphBuilder::new(vec![call("S::T::f", "S::g"), call("S::T::f", "x")]);
    assert!(tree.search_preorder(&mut builder));
    assert_eq!(
        shape(builder.borrow_result()),
        vec![
            ("S".to_string(), texts(&["S::T::f -> S::g", "S::T::f"])),
            ("S::T".to_string(), texts(&["S::T::f"])),
        ]
    );
}
