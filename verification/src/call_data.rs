//! The edges of a call graph.

use vstd::prelude::*;

verus! {

/// An edge of a call graph as mathematics: the texts of its two ends.
pub ghost struct Edge {
    pub callee: Seq<char>,
    pub caller: Seq<char>,
}

/// One call: the qualified names of the function that is called and of the
/// function that calls it, such as `Project::Class::Func`. A call graph is a
/// list of these.
#[derive(Debug, Eq, Hash, PartialEq, PartialOrd, Ord, Clone)]
pub struct CallInfo {
    pub callee: String,
    pub caller: String,
}

impl View for CallInfo {
    type V = Edge;

    open spec fn view(&self) -> Edge {
        Edge { callee: self.callee@, caller: self.caller@ }
    }
}

/// The edges of a list of calls.
pub open spec fn edges_of(calls: Seq<CallInfo>) -> Seq<Edge> {
    Seq::new(calls.len(), |i: int| calls[i]@)
}

impl CallInfo {
    /// A copy of the call.
    pub fn duplicate(&self) -> (copy: CallInfo)
        ensures
            copy@ == self@,
    {
        CallInfo { callee: self.callee.clone(), caller: self.caller.clone() }
    }

    /// Whether two calls have the same ends.
    pub fn same_as(&self, other: &CallInfo) -> (same: bool)
        ensures
            same == (self@ == other@),
    {
        self.callee == other.callee && self.caller == other.caller
    }
}

} // verus!
