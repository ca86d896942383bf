//! The clusters of a diagram, made while the tree of modules is walked.

use crate::clustering::{cluster_for, mark};
use crate::module_tree::ModuleTreeInterface;
pub use crate::output::graph_creator::{ClusterData, ClusterDataType};
use crate::output::graph_creator::DotGraphBuilder;
use crate::path_tree::Call;
use vstd::prelude::*;

verus! {

/// The builder of the clusters of a diagram.
pub type CreateDotGraph = DotGraphBuilder;

/// The builder as a visitor of a tree of modules: entering a node enters the
/// scope of that name, leaving a node leaves it, and the walk always goes on.
impl ModuleTreeInterface for DotGraphBuilder {
    open spec fn recording(&self) -> bool {
        true
    }

    open spec fn history(&self) -> Seq<Call> {
        self.received()
    }

    open spec fn follows(&self, origin: Self) -> bool {
        self.grown_from(origin)
    }

    fn exec_search_before(&mut self, fn_name: &str) -> (go_on: bool)
        ensures
            go_on,
            final(self).edges() == old(self).edges(),
            final(self).drawn() == mark(old(self).edges(), old(self).drawn(), fn_name@),
            final(self).clusters() == old(self).clusters().push(
                cluster_for(old(self).edges(), old(self).drawn(), fn_name@),
            ),
    {
        self.enter_scope(fn_name);
        true
    }

    fn exec_search_after(&mut self, fn_name: &str) -> (go_on: bool)
        ensures
            go_on,
            final(self).edges() == old(self).edges(),
            final(self).drawn() == old(self).drawn(),
            final(self).clusters() == old(self).clusters(),
    {
        self.leave_scope(fn_name);
        true
    }
}

} // verus!
