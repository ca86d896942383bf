//! The clusters of a diagram, made while the tree of scopes is walked.

use crate::call_data::{edges_of, CallInfo, Edge};
use crate::clustering::{
    add_once, all_nodes, cluster_for, clusters_after, drawn_after, left_over,
    lemma_after_enter, lemma_after_leave, mark, member_list, none_drawn, Cluster, Member,
};
use crate::output::dot_writer::{edge, edge_text, node, node_text};
use crate::output::module_tree::ClassPathTreeInterface;
use crate::path_tree::{all_go_on, Call, Step};
use crate::qualified_name::{has_scope, views};
use vstd::prelude::*;
use vstd::string::*;

verus! {

struct CallInfoWithWrited {
    callinfo: CallInfo,
    writed: bool,
}

/// A member of a cluster: a node at its border, or an edge inside it.
#[derive(Debug, Eq, PartialEq, Hash)]
pub enum ClusterDataType {
    Single(String),
    CallInfo(CallInfo),
}

impl View for ClusterDataType {
    type V = Member;

    open spec fn view(&self) -> Member {
        match self {
            ClusterDataType::Single(name) => Member::Single(name@),
            ClusterDataType::CallInfo(call) => Member::CallInfo(call@),
        }
    }
}

/// The views of a list of members.
pub open spec fn members_of(nodes: Seq<ClusterDataType>) -> Seq<Member> {
    Seq::new(nodes.len(), |i: int| nodes[i]@)
}

/// The views of a list of clusters.
pub open spec fn clusters_of(list: Seq<ClusterData>) -> Seq<Cluster> {
    Seq::new(list.len(), |i: int| list[i]@)
}

/// The statements that label the nodes.
pub open spec fn node_lines(names: Seq<Seq<char>>) -> Seq<char>
    decreases names.len(),
{
    if names.len() == 0 {
        Seq::empty()
    } else {
        node_lines(names.drop_last()) + node_text(names.last())
    }
}

/// The statements of a list of edges, each drawn from its caller to its
/// callee.
pub open spec fn edge_lines(list: Seq<Edge>) -> Seq<char>
    decreases list.len(),
{
    if list.len() == 0 {
        Seq::empty()
    } else {
        edge_lines(list.drop_last()) + edge_text(list.last().caller, list.last().callee)
    }
}

impl ClusterDataType {
    /// Whether two members are the same.
    pub fn same_as(&self, other: &ClusterDataType) -> (same: bool)
        ensures
            same == (self@ == other@),
    {
        match self {
            ClusterDataType::Single(name) => match other {
                ClusterDataType::Single(other_name) => *name == *other_name,
                ClusterDataType::CallInfo(_) => false,
            },
            ClusterDataType::CallInfo(call) => match other {
                ClusterDataType::Single(_) => false,
                ClusterDataType::CallInfo(other_call) => call.same_as(other_call),
            },
        }
    }
}

/// A cluster of the diagram: the name of a scope, and what the diagram
/// shows inside it.
#[derive(Debug, PartialEq, Eq)]
pub struct ClusterData {
    cluster_name: String,
    nodes: Vec<ClusterDataType>,
}

impl View for ClusterData {
    type V = Cluster;

    closed spec fn view(&self) -> Cluster {
        Cluster { name: self.cluster_name@, members: members_of(self.nodes@) }
    }
}

impl ClusterData {
    /// The name of the cluster's scope.
    pub fn get_cluseter_name(&self) -> (name: &str)
        ensures
            name@ == self@.name,
    {
        self.cluster_name.as_str()
    }

    /// The members of the cluster.
    pub fn get_nodes(&self) -> (nodes: &Vec<ClusterDataType>)
        ensures
            members_of(nodes@) == self@.members,
    {
        &self.nodes
    }
}

/// Puts a member behind a list unless the list has it.
fn add_member(nodes: &mut Vec<ClusterDataType>, member: ClusterDataType)
    ensures
        members_of(final(nodes)@) == add_once(members_of(old(nodes)@), member@),
{
    let ghost before = members_of(nodes@);
    let mut i: usize = 0;
    while i < nodes.len()
        invariant
            *nodes == *old(nodes),
            before == members_of(nodes@),
            i <= nodes.len(),
            forall|k: int| 0 <= k < i ==> before[k] != member@,
        decreases nodes.len() - i,
    {
        if nodes[i].same_as(&member) {
            assert(before[i as int] == member@);
            return ;
        }
        i = i + 1;
    }
    nodes.push(member);
    assert(members_of(nodes@) =~= before.push(member@));
}

/// The visitor that makes the clusters. It holds the edges of the call
/// graph, and for each whether a cluster has drawn it, and the clusters made
/// so far.
pub struct DotGraphBuilder {
    callinfos: Vec<CallInfoWithWrited>,
    result: Vec<ClusterData>,
    calls: Ghost<Seq<Call>>,
}

impl DotGraphBuilder {
    /// The edges of the call graph.
    pub closed spec fn edges(&self) -> Seq<Edge> {
        Seq::new(self.callinfos@.len(), |i: int| self.callinfos@[i].callinfo@)
    }

    /// For each edge, whether a cluster has drawn it.
    pub closed spec fn drawn(&self) -> Seq<bool> {
        Seq::new(self.callinfos@.len(), |i: int| self.callinfos@[i].writed)
    }

    /// The list of clusters as it stands.
    pub closed spec fn result_list(&self) -> Vec<ClusterData> {
        self.result
    }

    /// The clusters made so far.
    pub open spec fn clusters(&self) -> Seq<Cluster> {
        clusters_of(self.result_list()@)
    }

    /// A builder for a call graph: no edge is drawn and no cluster made.
    pub fn new(callinfos: Vec<CallInfo>) -> (builder: DotGraphBuilder)
        ensures
            builder.edges() == edges_of(callinfos@),
            builder.drawn() == none_drawn(callinfos@.len()),
            builder.clusters() == Seq::<Cluster>::empty(),
            builder.received() == Seq::<Call>::empty(),
            builder.grown_from(builder),
    {
        let mut callinfos_with_writed: Vec<CallInfoWithWrited> = Vec::new();
        let mut i: usize = 0;
        while i < callinfos.len()
            invariant
                i <= callinfos.len(),
                callinfos_with_writed.len() == i,
                forall|k: int|
                    0 <= k < i ==> callinfos_with_writed@[k].callinfo@ == callinfos@[k]@
                        && !callinfos_with_writed@[k].writed,
            decreases callinfos.len() - i,
        {
            let cww = CallInfoWithWrited { callinfo: callinfos[i].duplicate(), writed: false };
            callinfos_with_writed.push(cww);
            i = i + 1;
        }
        let builder = DotGraphBuilder {
            callinfos: callinfos_with_writed,
            result: Vec::new(),
            calls: Ghost(Seq::empty()),
        };
        assert(builder.edges() =~= edges_of(callinfos@));
        assert(builder.drawn() =~= none_drawn(callinfos@.len()));
        assert(builder.clusters() =~= Seq::<Cluster>::empty());
        builder
    }

    /// The statements of the edges that no cluster has drawn, each from its
    /// caller to its callee, in the order of the call graph.
    pub fn write_callinfo(&self) -> (text: String)
        ensures
            text@ == edge_lines(left_over(self.edges(), self.drawn(), self.edges().len())),
    {
        let mut result = String::new();
        let mut i: usize = 0;
        while i < self.callinfos.len()
            invariant
                i <= self.callinfos.len(),
                result@ == edge_lines(left_over(self.edges(), self.drawn(), i as nat)),
            decreases self.callinfos.len() - i,
        {
            let ghost before = left_over(self.edges(), self.drawn(), i as nat);
            let item = &self.callinfos[i];
            if !item.writed {
                let line = edge(item.callinfo.caller.as_str(), item.callinfo.callee.as_str());
                result.append(line.as_str());
                assert(before.push(self.edges()[i as int]).drop_last() =~= before);
            }
            i = i + 1;
        }
        result
    }

    /// The edges that no cluster has drawn, in the order of the call graph.
    pub fn get_left_over(&self) -> (rest: Vec<CallInfo>)
        ensures
            edges_of(rest@) == left_over(self.edges(), self.drawn(), self.edges().len()),
    {
        let mut rest: Vec<CallInfo> = Vec::new();
        let mut i: usize = 0;
        assert(edges_of(rest@) =~= left_over(self.edges(), self.drawn(), 0));
        while i < self.callinfos.len()
            invariant
                i <= self.callinfos.len(),
                edges_of(rest@) == left_over(self.edges(), self.drawn(), i as nat),
            decreases self.callinfos.len() - i,
        {
            let ghost before = edges_of(rest@);
            let item = &self.callinfos[i];
            if !item.writed {
                rest.push(item.callinfo.duplicate());
                assert(edges_of(rest@) =~= before.push(self.edges()[i as int]));
            }
            i = i + 1;
        }
        rest
    }

    /// The clusters made, taken out of the builder.
    pub fn into_result(self) -> (list: Vec<ClusterData>)
        ensures
            clusters_of(list@) == self.clusters(),
    {
        self.result
    }

    /// The names of all nodes of the call graph, each once, in the order in
    /// which the edges name them.
    pub fn get_all_node(&self) -> (names: Vec<String>)
        ensures
            views(names@) == all_nodes(self.edges(), self.edges().len()),
    {
        let mut names: Vec<String> = Vec::new();
        let mut i: usize = 0;
        while i < self.callinfos.len()
            invariant
                i <= self.callinfos.len(),
                views(names@) == all_nodes(self.edges(), i as nat),
            decreases self.callinfos.len() - i,
        {
            let item = &self.callinfos[i];
            add_name(&mut names, &item.callinfo.callee);
            add_name(&mut names, &item.callinfo.caller);
            i = i + 1;
        }
        names
    }

    /// The statements that label the nodes of the call graph.
    pub fn write_node_label(&self) -> (text: String)
        ensures
            text@ == node_lines(all_nodes(self.edges(), self.edges().len())),
    {
        let names = self.get_all_node();
        let mut text = String::new();
        let mut i: usize = 0;
        assert(views(names@).take(0) =~= Seq::<Seq<char>>::empty());
        while i < names.len()
            invariant
                i <= names.len(),
                text@ == node_lines(views(names@).take(i as int)),
            decreases names.len() - i,
        {
            let line = node(names[i].as_str());
            text.append(line.as_str());
            proof {
                let shown = views(names@).take(i + 1);
                assert(shown.drop_last() =~= views(names@).take(
                    i as int,
                ));
                assert(shown.last() == names@[i as int]@);
            }
            i = i + 1;
        }
        assert(views(names@).take(names.len() as int)
            =~= views(names@));
        text
    }

    /// The clusters made so far.
    pub fn borrow_result(&self) -> (list: &Vec<ClusterData>)
        ensures
            *list == self.result_list(),
    {
        &self.result
    }

    /// The list of clusters, to change it. The edges and their flags stay
    /// as they are.
    pub fn borrow_mut_result(&mut self) -> (list: &mut Vec<ClusterData>)
        ensures
            *list == old(self).result_list(),
            final(self).result_list() == *final(list),
            final(self).edges() == old(self).edges(),
            final(self).drawn() == old(self).drawn(),
            final(self).received() == old(self).received(),
    {
        &mut self.result
    }
}

/// Puts a name behind a list unless the list has it.
fn add_name(names: &mut Vec<String>, name: &String)
    ensures
        views(final(names)@) == add_once(
            views(old(names)@),
            name@,
        ),
{
    let ghost before = views(names@);
    let mut i: usize = 0;
    while i < names.len()
        invariant
            *names == *old(names),
            before == views(names@),
            i <= names.len(),
            forall|k: int| 0 <= k < i ==> before[k] != name@,
        decreases names.len() - i,
    {
        if names[i] == *name {
            assert(before[i as int] == name@);
            return ;
        }
        i = i + 1;
    }
    names.push(name.clone());
    assert(views(names@) =~= before.push(name@));
}

impl DotGraphBuilder {
    /// The calls that the builder has received as a visitor, oldest first.
    pub closed spec fn received(&self) -> Seq<Call> {
        self.calls@
    }

    /// The builder is what the calls that it has received have made of a
    /// new builder for the edges of `origin`: the edges are those of
    /// `origin`; the flags and the clusters are what the calls make; and no
    /// call was answered with a stop.
    pub open spec fn grown_from(&self, origin: Self) -> bool {
        &&& self.edges() == origin.edges()
        &&& self.drawn() == drawn_after(self.edges(), self.received())
        &&& self.clusters() == clusters_after(self.edges(), self.received())
        &&& all_go_on(self.received())
    }

    /// Enters the scope `prefix` and makes its cluster. Of the edges that
    /// no cluster has drawn yet, those with both ends in the scope become
    /// members and are drawn from now on; of those with one end in it, that
    /// end becomes a member.
    pub fn enter_scope(&mut self, prefix: &str)
        ensures
            final(self).received() == old(self).received().push(
                Call { step: Step::Enter(prefix@), answer: true },
            ),
            forall|origin: Self| old(self).grown_from(origin) ==> final(self).grown_from(origin),
            final(self).edges() == old(self).edges(),
            final(self).drawn() == mark(old(self).edges(), old(self).drawn(), prefix@),
            final(self).clusters() == old(self).clusters().push(
                cluster_for(old(self).edges(), old(self).drawn(), prefix@),
            ),
    {
        let ghost edges = self.edges();
        let ghost drawn = self.drawn();
        let mut nodes: Vec<ClusterDataType> = Vec::new();
        let mut i: usize = 0;
        assert(members_of(nodes@) =~= member_list(edges, drawn, prefix@, 0));
        while i < self.callinfos.len()
            invariant
                i <= self.callinfos.len(),
                self.edges() == edges,
                edges == old(self).edges(),
                drawn == old(self).drawn(),
                drawn.len() == edges.len(),
                self.callinfos.len() == edges.len(),
                self.result == old(self).result,
                self.calls == old(self).calls,
                members_of(nodes@) == member_list(edges, drawn, prefix@, i as nat),
                forall|k: int| 0 <= k < i ==> self.drawn()[k] == mark(edges, drawn, prefix@)[k],
                forall|k: int| i <= k < edges.len() ==> self.drawn()[k] == drawn[k],
            decreases self.callinfos.len() - i,
        {
            let ghost flags = self.drawn();
            assert(flags[i as int] == drawn[i as int]);
            assert(edges[i as int] == self.callinfos@[i as int].callinfo@);
            if !self.callinfos[i].writed {
                let callee_inside = has_scope(self.callinfos[i].callinfo.callee.as_str(), prefix);
                let caller_inside = has_scope(self.callinfos[i].callinfo.caller.as_str(), prefix);
                if callee_inside {
                    if caller_inside {
                        let member = ClusterDataType::CallInfo(
                            self.callinfos[i].callinfo.duplicate(),
                        );
                        add_member(&mut nodes, member);
                        self.callinfos[i].writed = true;
                    } else {
                        let member = ClusterDataType::Single(
                            self.callinfos[i].callinfo.callee.clone(),
                        );
                        add_member(&mut nodes, member);
                    }
                } else if caller_inside {
                    let member = ClusterDataType::Single(
                        self.callinfos[i].callinfo.caller.clone(),
                    );
                    add_member(&mut nodes, member);
                }
            }
            proof {
                assert(self.edges() =~= edges);
                assert forall|k: int| 0 <= k < i + 1 implies self.drawn()[k] == mark(
                    edges,
                    drawn,
                    prefix@,
                )[k] by {
                    if k < i {
                        assert(self.drawn()[k] == flags[k]);
                    }
                }
                assert forall|k: int| i + 1 <= k < edges.len() implies self.drawn()[k]
                    == drawn[k] by {
                    assert(self.drawn()[k] == flags[k]);
                }
            }
            i = i + 1;
        }
        let ghost cluster = cluster_for(edges, drawn, prefix@);
        assert(self.drawn() =~= mark(edges, drawn, prefix@));
        let data = ClusterData { cluster_name: prefix.to_owned(), nodes };
        assert(data@ == cluster);
        self.result.push(data);
        proof {
            let call = Call { step: Step::Enter(prefix@), answer: true };
            self.calls@ = self.calls@.push(call);
            assert(self.drawn() =~= mark(edges, drawn, prefix@));
            assert(self.clusters() =~= old(self).clusters().push(cluster));
            lemma_after_enter(old(self).edges(), old(self).received(), prefix@, true);
        }
    }

    /// Leaves the scope `prefix`. No cluster is made and no edge drawn.
    pub fn leave_scope(&mut self, prefix: &str)
        ensures
            final(self).received() == old(self).received().push(
                Call { step: Step::Leave(prefix@), answer: true },
            ),
            forall|origin: Self| old(self).grown_from(origin) ==> final(self).grown_from(origin),
            final(self).edges() == old(self).edges(),
            final(self).drawn() == old(self).drawn(),
            final(self).clusters() == old(self).clusters(),
    {
        proof {
            let call = Call { step: Step::Leave(prefix@), answer: true };
            self.calls@ = self.calls@.push(call);
            lemma_after_leave(old(self).edges(), old(self).received(), prefix@, true);
        }
    }
}

/// The builder as a visitor of a tree of scopes: entering a node enters the
/// scope of that name, leaving a node leaves it, and the walk always goes on.
impl ClassPathTreeInterface for DotGraphBuilder {
    open spec fn recording(&self) -> bool {
        true
    }

    open spec fn history(&self) -> Seq<Call> {
        self.received()
    }

    open spec fn follows(&self, origin: Self) -> bool {
        self.grown_from(origin)
    }

    fn exec_search_before(&mut self, fn_name: &str) -> (go_on: bool)
        ensures
            go_on,
            final(self).edges() == old(self).edges(),
            final(self).drawn() == mark(old(self).edges(), old(self).drawn(), fn_name@),
            final(self).clusters() == old(self).clusters().push(
                cluster_for(old(self).edges(), old(self).drawn(), fn_name@),
            ),
    {
        self.enter_scope(fn_name);
        true
    }

    fn exec_search_after(&mut self, fn_name: &str) -> (go_on: bool)
        ensures
            go_on,
            final(self).edges() == old(self).edges(),
            final(self).drawn() == old(self).drawn(),
            final(self).clusters() == old(self).clusters(),
    {
        self.leave_scope(fn_name);
        true
    }
}

} // verus!
