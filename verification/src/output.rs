//! The diagram: the tree of scopes, the clusters, and the text.

pub mod cluster_writer;
pub mod dot_writer;
pub mod graph_creator;
pub mod module_tree;

use crate::call_data::{edges_of, CallInfo, Edge};
use crate::clustering::{
    all_nodes, clustered_edges, clusters_after, distinct_edges, drawn_after, left_over,
    lemma_partition_multiset,
};
use crate::output::cluster_writer::{
    block_text, lemma_cluster_for_each_enter, lemma_writer_done, ClusterWriter,
};
use crate::output::dot_writer::{end_text, start_text};
use crate::output::graph_creator::{
    clusters_of, edge_lines, node_lines, ClusterData, DotGraphBuilder,
};
use crate::output::module_tree::{ClassPathTree, ClassPathTreeInterface};
use crate::path_tree::{events, go_on_calls, insert, leaf, texts, Call, PathTree};
use crate::qualified_name::{lemma_split_nonempty, split, split_segments, views};
use vstd::prelude::*;
use vstd::string::*;

verus! {

/// The tree of the scopes of the first `count` edges: for each edge the
/// scope that encloses its caller, then the one that encloses its callee. The
/// scope that encloses a name is the name without its last segment.
pub open spec fn scope_tree(edges: Seq<Edge>, count: nat) -> PathTree
    decreases count,
{
    if count == 0 {
        leaf(Seq::empty())
    } else {
        let before = scope_tree(edges, (count - 1) as nat);
        insert(
            insert(before, split(edges[count - 1].caller).drop_last()),
            split(edges[count - 1].callee).drop_last(),
        )
    }
}

/// The text of the diagram of a call graph: the head; a label for each
/// node; a block for each scope, nested as the scopes are in the tree of
/// scopes; the edges that no cluster has drawn; the foot.
pub open spec fn diagram(edges: Seq<Edge>) -> Seq<char> {
    let history = scope_walk(edges);
    start_text() + node_lines(all_nodes(edges, edges.len())) + block_text(
        clusters_after(edges, history),
        history,
    ) + edge_lines(left_over(edges, drawn_after(edges, history), edges.len())) + end_text()
}

/// A call graph in parts: the clusters, and the edges that lie in none.
pub struct Partition {
    pub clusters: Vec<ClusterData>,
    pub rest: Vec<CallInfo>,
}

/// The calls that a full walk over the tree of scopes of a call graph
/// makes.
pub open spec fn scope_walk(edges: Seq<Edge>) -> Seq<Call> {
    go_on_calls(events(scope_tree(edges, edges.len())))
}

/// Walks the tree of the scopes of a call graph with a builder for it.
fn walk_scopes(callinfos: Vec<CallInfo>) -> (walk: (ClassPathTree, DotGraphBuilder))
    ensures
        walk.0@ == scope_tree(edges_of(callinfos@), callinfos@.len()),
        walk.1.edges() == edges_of(callinfos@),
        walk.1.received() == scope_walk(edges_of(callinfos@)),
        walk.1.drawn() == drawn_after(walk.1.edges(), walk.1.received()),
        walk.1.clusters() == clusters_after(walk.1.edges(), walk.1.received()),
{
    let classpath_tree = make_classpath_tree(callinfos.as_slice());
    let mut create_dot_graph = DotGraphBuilder::new(callinfos);
    let ghost origin = create_dot_graph;
    assert(create_dot_graph.follows(origin));
    let _ = classpath_tree.search_preorder(&mut create_dot_graph);
    proof {
        let history = create_dot_graph.received();
        assert(create_dot_graph.follows(origin));
        assert(history.skip(0) =~= history);
        assert(history =~= go_on_calls(events(classpath_tree@)));
    }
    (classpath_tree, create_dot_graph)
}

/// Parts a call graph into clusters. The tree of the scopes of its ends
/// is walked in preorder; each scope claims the edges that lie in it with
/// both ends and that no scope before it has claimed, so that an edge falls
/// to the shallowest scope that holds it. Where no edge stands twice in the
/// call graph, every edge is drawn exactly once, in one cluster or among the
/// rest: the edges of the clusters and the rest are, as a multiset, the
/// edges of the call graph.
pub fn partition(callinfos: Vec<CallInfo>) -> (parts: Partition)
    ensures
        clusters_of(parts.clusters@) == clusters_after(
            edges_of(callinfos@),
            scope_walk(edges_of(callinfos@)),
        ),
        edges_of(parts.rest@) == left_over(
            edges_of(callinfos@),
            drawn_after(edges_of(callinfos@), scope_walk(edges_of(callinfos@))),
            callinfos@.len(),
        ),
        distinct_edges(edges_of(callinfos@)) ==> (clustered_edges(clusters_of(parts.clusters@))
            + edges_of(parts.rest@)).to_multiset() =~= edges_of(callinfos@).to_multiset(),
{
    let ghost edges = edges_of(callinfos@);
    let (_, builder) = walk_scopes(callinfos);
    let rest = builder.get_left_over();
    let clusters = builder.into_result();
    proof {
        if distinct_edges(edges) {
            lemma_partition_multiset(edges, scope_walk(edges));
        }
    }
    Partition { clusters, rest }
}

/// Writes the diagram of a call graph behind what `output` holds.
pub fn render_to(callinfos: Vec<CallInfo>, output: &mut String)
    ensures
        final(output)@ == old(output)@ + diagram(edges_of(callinfos@)),
{
    let ghost edges = edges_of(callinfos@);
    let ghost history = scope_walk(edges);
    let (classpath_tree, create_dot_graph) = walk_scopes(callinfos);

    let mut text = dot_writer::start();
    let labels = create_dot_graph.write_node_label();
    text.append(labels.as_str());
    let rest = create_dot_graph.write_callinfo();

    let mut cluster_writer = ClusterWriter::new(create_dot_graph.into_result());
    let ghost origin = cluster_writer;
    assert(cluster_writer.follows(origin));
    let done = classpath_tree.search_preorder(&mut cluster_writer);
    proof {
        assert(cluster_writer.follows(origin));
        lemma_cluster_for_each_enter(edges, history);
        lemma_writer_done(
            clusters_after(edges, history),
            events(classpath_tree@),
            cluster_writer.received(),
            done,
        );
    }
    let blocks = cluster_writer.into_text();
    text.append(blocks.as_str());

    text.append(rest.as_str());
    let foot = dot_writer::end();
    text.append(foot.as_str());
    output.append(text.as_str());
    assert(output@ =~= old(output)@ + diagram(edges));
}

/// The list of string slices of a list of strings.
fn as_slices(list: &Vec<String>) -> (slices: Vec<&str>)
    ensures
        texts(slices@) == views(list@),
{
    let mut slices: Vec<&str> = Vec::new();
    let mut i: usize = 0;
    while i < list.len()
        invariant
            i <= list.len(),
            slices.len() == i,
            forall|k: int| 0 <= k < i ==> slices@[k]@ == list@[k]@,
        decreases list.len() - i,
    {
        slices.push(list[i].as_str());
        i = i + 1;
    }
    assert(texts(slices@) =~= views(list@));
    slices
}

/// The tree of the scopes that enclose the ends of the edges.
pub fn make_classpath_tree(callinfo: &[CallInfo]) -> (tree: ClassPathTree)
    ensures
        tree@ == scope_tree(edges_of(callinfo@), callinfo@.len()),
{
    let mut module_tree = ClassPathTree::new();
    let mut i: usize = 0;
    while i < callinfo.len()
        invariant
            i <= callinfo.len(),
            module_tree@ == scope_tree(edges_of(callinfo@), i as nat),
        decreases callinfo.len() - i,
    {
        let c = &callinfo[i];
        assert(edges_of(callinfo@)[i as int] == c@);
        proof {
            lemma_split_nonempty(c.caller@);
            lemma_split_nonempty(c.callee@);
        }
        let mut fn_names_caller = split_segments(c.caller.as_str());
        let _ = fn_names_caller.pop();
        assert(views(fn_names_caller@) =~= split(c.caller@).drop_last());
        module_tree.push(as_slices(&fn_names_caller).as_slice());

        let mut fn_names_callee = split_segments(c.callee.as_str());
        let _ = fn_names_callee.pop();
        assert(views(fn_names_callee@) =~= split(c.callee@).drop_last());
        module_tree.push(as_slices(&fn_names_callee).as_slice());
        i = i + 1;
    }
    module_tree
}

} // verus!
