//! The blocks of the clusters in the diagram's text, written while the tree
//! of scopes is walked a second time.
//!
//! The blocks are nested as the scopes are: the block of a scope is opened
//! when the walk enters the scope and closed when the walk leaves it, so that
//! the blocks of the scopes inside it stand inside it.

use crate::call_data::Edge;
use crate::clustering::{clusters_after, Cluster, Member};
use crate::output::dot_writer::{
    cluster_start_text, edge, edge_text, end_text, single_edge, single_edge_text, DotWriter,
};
use crate::output::graph_creator::{clusters_of, members_of, ClusterData, ClusterDataType};
use crate::output::module_tree::ClassPathTreeInterface;
use crate::path_tree::{go_on_calls, walked, Call, Step};
use vstd::prelude::*;
use vstd::string::*;

verus! {

/// The statement of a member of a cluster. A node is placed; an edge is
/// drawn from its caller to its callee.
pub open spec fn member_text(member: Member) -> Seq<char> {
    match member {
        Member::Single(name) => single_edge_text(name),
        Member::CallInfo(edge) => edge_text(edge.caller, edge.callee),
    }
}

/// The statements of the members of a cluster.
pub open spec fn member_lines(members: Seq<Member>) -> Seq<char>
    decreases members.len(),
{
    if members.len() == 0 {
        Seq::empty()
    } else {
        member_lines(members.drop_last()) + member_text(members.last())
    }
}

/// How many of the calls enter a scope.
pub open spec fn enters(history: Seq<Call>) -> nat
    decreases history.len(),
{
    if history.len() == 0 {
        0
    } else {
        enters(history.drop_last()) + if history.last().step is Enter {
            1nat
        } else {
            0nat
        }
    }
}

/// What a call adds to the text, after the calls of `before`. Entering a
/// scope opens the block of the next cluster: its head, with the number of
/// the cluster and its name, and its members. Leaving a scope closes a
/// block. Once the clusters are used up, entering adds nothing.
pub open spec fn call_text(clusters: Seq<Cluster>, before: Seq<Call>, step: Step) -> Seq<char> {
    match step {
        Step::Enter(_) => {
            let number = enters(before);
            if number < clusters.len() {
                cluster_start_text(number, clusters[number as int].name) + member_lines(
                    clusters[number as int].members,
                )
            } else {
                Seq::empty()
            }
        },
        Step::Leave(_) => end_text(),
    }
}

/// The text that the calls of a walk have written.
pub open spec fn block_text(clusters: Seq<Cluster>, history: Seq<Call>) -> Seq<char>
    decreases history.len(),
{
    if history.len() == 0 {
        Seq::empty()
    } else {
        block_text(clusters, history.drop_last()) + call_text(
            clusters,
            history.drop_last(),
            history.last().step,
        )
    }
}

/// The answer of a writer to a call: the walk goes on, unless it enters a
/// scope for which no cluster is left.
pub open spec fn answer_to(clusters: Seq<Cluster>, before: Seq<Call>, step: Step) -> bool {
    step is Leave || enters(before) < clusters.len()
}

/// Every call of the history was answered as a writer answers.
pub open spec fn answered(clusters: Seq<Cluster>, history: Seq<Call>) -> bool {
    forall|i: int|
        0 <= i < history.len() ==> (#[trigger] history[i]).answer == answer_to(
            clusters,
            history.take(i),
            history[i].step,
        )
}

/// A longer history enters at least as often.
pub proof fn lemma_enters_grow(history: Seq<Call>, count: int)
    requires
        0 <= count <= history.len(),
    ensures
        enters(history.take(count)) <= enters(history),
    decreases history.len() - count,
{
    if count < history.len() {
        lemma_enters_grow(history, count + 1);
        assert(history.take(count + 1).drop_last() =~= history.take(count));
    } else {
        assert(history.take(count) =~= history);
    }
}

/// Each scope that is entered gets one cluster.
pub proof fn lemma_cluster_for_each_enter(edges: Seq<Edge>, history: Seq<Call>)
    ensures
        clusters_after(edges, history).len() == enters(history),
    decreases history.len(),
{
    if history.len() > 0 {
        lemma_cluster_for_each_enter(edges, history.drop_last());
    }
}

/// A writer that has a cluster for each scope of a walk is not stopped:
/// the walk makes all its calls.
pub proof fn lemma_writer_done(
    clusters: Seq<Cluster>,
    steps: Seq<Step>,
    history: Seq<Call>,
    done: bool,
)
    requires
        walked(steps, Seq::empty(), history, done),
        answered(clusters, history),
        clusters.len() == enters(go_on_calls(steps)),
    ensures
        done,
        history == go_on_calls(steps),
{
    let all = go_on_calls(steps);
    assert(history.skip(0) =~= history);
    if !done {
        let last = history.len() - 1;
        let made = history.take(last);
        assert(made =~= history.drop_last());
        assert(made =~= all.take(last)) by {
            assert forall|i: int| 0 <= i < last implies made[i] == all.take(last)[i] by {
                assert(made[i] == history.drop_last()[i]);
                assert(history[i].step == steps[i]);
            }
        }
        assert(history[last].step == steps[last]);
        assert(!history[last].answer);
        assert(history[last].step is Enter);
        assert(all.take(last + 1).drop_last() =~= all.take(last));
        assert(enters(all.take(last + 1)) == enters(all.take(last)) + 1);
        lemma_enters_grow(all, last + 1);
    }
    assert(history =~= all);
}

/// The statements of the members of a cluster.
pub fn write_members(nodes: &Vec<ClusterDataType>) -> (text: String)
    ensures
        text@ == member_lines(members_of(nodes@)),
{
    let ghost members = members_of(nodes@);
    let mut text = String::new();
    let mut j: usize = 0;
    assert(members.take(0) =~= Seq::<Member>::empty());
    while j < nodes.len()
        invariant
            j <= nodes.len(),
            members == members_of(nodes@),
            text@ == member_lines(members.take(j as int)),
        decreases nodes.len() - j,
    {
        let line = match &nodes[j] {
            ClusterDataType::Single(single) => single_edge(single.as_str()),
            ClusterDataType::CallInfo(callinfo) => edge(
                callinfo.caller.as_str(),
                callinfo.callee.as_str(),
            ),
        };
        text.append(line.as_str());
        proof {
            let listed = members.take(j + 1);
            assert(listed.drop_last() =~= members.take(j as int));
            assert(listed.last() == nodes@[j as int]@);
        }
        j = j + 1;
    }
    assert(members.take(nodes.len() as int) =~= members);
    text
}

/// The visitor that writes the blocks of the clusters. It holds the
/// clusters in the order in which their scopes are entered, and the text
/// written so far.
pub struct ClusterWriter {
    clusters: Vec<ClusterData>,
    dot_writer: DotWriter,
    text: String,
    calls: Ghost<Seq<Call>>,
}

impl ClusterWriter {
    /// The clusters to write.
    pub closed spec fn clusters(&self) -> Seq<Cluster> {
        clusters_of(self.clusters@)
    }

    /// The text written so far.
    pub closed spec fn written(&self) -> Seq<char> {
        self.text@
    }

    /// The calls that the writer has received as a visitor, oldest first.
    pub closed spec fn received(&self) -> Seq<Call> {
        self.calls@
    }

    /// The number of the next cluster is in step with the calls received.
    pub closed spec fn in_step(&self) -> bool {
        self.dot_writer.next_number() == if enters(self.received()) < self.clusters@.len() {
            enters(self.received())
        } else {
            self.clusters@.len() as nat
        }
    }

    /// The writer is what the calls that it has received have made of a
    /// new writer for the clusters of `origin`.
    pub open spec fn grown_from(&self, origin: Self) -> bool {
        &&& self.clusters() == origin.clusters()
        &&& self.written() == block_text(self.clusters(), self.received())
        &&& answered(self.clusters(), self.received())
        &&& self.in_step()
    }

    /// A writer that has written nothing.
    pub fn new(clusters: Vec<ClusterData>) -> (writer: ClusterWriter)
        ensures
            writer.clusters() == clusters_of(clusters@),
            writer.written() == Seq::<char>::empty(),
            writer.received() == Seq::<Call>::empty(),
            writer.grown_from(writer),
    {
        ClusterWriter {
            clusters,
            dot_writer: DotWriter::new(),
            text: String::new(),
            calls: Ghost(Seq::empty()),
        }
    }

    /// Opens the block of the next cluster and writes its members. Where
    /// no cluster is left nothing is written, and the answer is `false`.
    pub fn open_cluster(&mut self, fn_name: &str) -> (go_on: bool)
        ensures
            final(self).received() == old(self).received().push(
                Call { step: Step::Enter(fn_name@), answer: go_on },
            ),
            final(self).clusters() == old(self).clusters(),
            old(self).in_step() ==> final(self).in_step() && go_on == answer_to(
                old(self).clusters(),
                old(self).received(),
                Step::Enter(fn_name@),
            ) && final(self).written() == old(self).written() + call_text(
                old(self).clusters(),
                old(self).received(),
                Step::Enter(fn_name@),
            ),
            forall|origin: Self| old(self).grown_from(origin) ==> final(self).grown_from(origin),
    {
        let ghost before = self.calls@;
        let ghost clusters = self.clusters();
        let next = self.dot_writer.number();
        let go_on = next < self.clusters.len();
        if go_on {
            let cluster_data = &self.clusters[next];
            assert(clusters[next as int] == cluster_data@);
            let head = self.dot_writer.start_cluster(cluster_data.get_cluseter_name());
            let members = write_members(cluster_data.get_nodes());
            self.text.append(head.as_str());
            self.text.append(members.as_str());
        }
        proof {
            let call = Call { step: Step::Enter(fn_name@), answer: go_on };
            self.calls@ = before.push(call);
            assert(self.calls@.drop_last() =~= before);
            if old(self).in_step() {
                assert(self.text@ =~= old(self).text@ + call_text(
                    clusters,
                    before,
                    Step::Enter(fn_name@),
                ));
            }
            assert forall|origin: Self| old(self).grown_from(origin) implies self.grown_from(
                origin,
            ) by {
                lemma_answered_push(clusters, before, call);
            }
        }
        go_on
    }

    /// Closes a block.
    pub fn close_cluster(&mut self, fn_name: &str) -> (go_on: bool)
        ensures
            go_on,
            final(self).received() == old(self).received().push(
                Call { step: Step::Leave(fn_name@), answer: true },
            ),
            final(self).clusters() == old(self).clusters(),
            final(self).written() == old(self).written() + end_text(),
            old(self).in_step() ==> final(self).in_step(),
            forall|origin: Self| old(self).grown_from(origin) ==> final(self).grown_from(origin),
    {
        let ghost before = self.calls@;
        let foot = self.dot_writer.end_cluster();
        self.text.append(foot.as_str());
        proof {
            let call = Call { step: Step::Leave(fn_name@), answer: true };
            self.calls@ = before.push(call);
            assert(self.calls@.drop_last() =~= before);
            assert forall|origin: Self| old(self).grown_from(origin) implies self.grown_from(
                origin,
            ) by {
                lemma_answered_push(self.clusters(), before, call);
            }
        }
        true
    }

    /// The text written, taken out of the writer.
    pub fn into_text(self) -> (text: String)
        ensures
            text@ == self.written(),
    {
        self.text
    }
}

/// One more call, answered as a writer answers, keeps a history answered.
pub proof fn lemma_answered_push(clusters: Seq<Cluster>, history: Seq<Call>, call: Call)
    requires
        answered(clusters, history),
        call.answer == answer_to(clusters, history, call.step),
    ensures
        answered(clusters, history.push(call)),
{
    let longer = history.push(call);
    assert forall|i: int| 0 <= i < longer.len() implies (#[trigger] longer[i]).answer
        == answer_to(clusters, longer.take(i), longer[i].step) by {
        if i < history.len() {
            assert(longer.take(i) =~= history.take(i));
            assert(longer[i] == history[i]);
        } else {
            assert(longer.take(i) =~= history);
        }
    }
}

/// The writer as a visitor of the tree of scopes: entering a node opens a
/// block, leaving a node closes one.
impl ClassPathTreeInterface for ClusterWriter {
    open spec fn recording(&self) -> bool {
        true
    }

    open spec fn history(&self) -> Seq<Call> {
        self.received()
    }

    open spec fn follows(&self, origin: Self) -> bool {
        self.grown_from(origin)
    }

    fn exec_search_before(&mut self, fn_name: &str) -> (go_on: bool)
        ensures
            final(self).clusters() == old(self).clusters(),
    {
        self.open_cluster(fn_name)
    }

    fn exec_search_after(&mut self, fn_name: &str) -> (go_on: bool)
        ensures
            go_on,
            final(self).clusters() == old(self).clusters(),
            final(self).written() == old(self).written() + end_text(),
    {
        self.close_cluster(fn_name)
    }
}

} // verus!
