//! Static call-graph extraction and hierarchical clustering.
//!
//! The crate turns the syntax of source files into a flat list of
//! caller/callee edges, filters that list, groups the edges by the scopes of
//! their endpoints and lays the result out as the text of a clustered
//! directed graph.

pub mod analyzer;
pub mod call_data;
pub mod class_name;
pub mod class_tree;
pub mod clustering;
pub mod create_dot_graph;
pub mod create_graph;
pub mod dot_writer;
pub mod filter;
pub mod module_tree;
pub mod output;
pub mod path_tree;
pub mod qualified_name;
pub mod struct_name;
pub mod struct_tree;

use crate::analyzer::{edges_found, SourceUnit};
use crate::call_data::{edges_of, Edge};
use crate::filter::{ascending, lemma_ascending_unique, stays};
use crate::output::diagram;
use vstd::prelude::*;

verus! {

/// The list is what filtering leaves of a call graph: the edges that stay,
/// each once, in the order of edges.
pub open spec fn is_filtered(list: Seq<Edge>, given: Seq<Edge>, print_data_type: bool) -> bool {
    ascending(list) && forall|edge: Edge| #[trigger]
        list.contains(edge) <==> stays(given, print_data_type, edge)
}

/// What filtering leaves of a call graph.
pub open spec fn filtered(given: Seq<Edge>, print_data_type: bool) -> Seq<Edge> {
    choose|list: Seq<Edge>| is_filtered(list, given, print_data_type)
}

/// The diagram of the call graph of a list of source files: the files are
/// analysed, the edges filtered, and what is left is drawn.
pub fn run(files: &Vec<SourceUnit>, print_data_type: bool) -> (text: String)
    ensures
        text@ == diagram(filtered(edges_found(files@, files@.len()), print_data_type)),
{
    let callinfo_list = analyzer::analyze(files);
    let ghost found = edges_of(callinfo_list@);

    let filter_options = filter::Options::new(print_data_type);
    let callinfo_list = filter::filterling(callinfo_list, &filter_options);
    proof {
        let left = edges_of(callinfo_list@);
        assert(is_filtered(left, found, print_data_type));
        lemma_ascending_unique(left, filtered(found, print_data_type));
    }

    let mut text = String::new();
    output::render_to(callinfo_list, &mut text);
    assert(text@ =~= diagram(filtered(found, print_data_type)));
    text
}

} // verus!
