//! The rules by which the edges of a call graph fall into clusters.
//!
//! A cluster belongs to a scope. While the tree of scopes is walked, every
//! scope that is entered claims the edges that lie in it with both ends and
//! that no scope before it has claimed; of an unclaimed edge that lies in it
//! with one end it shows that end. An edge that no scope claims is left for
//! the top level of the diagram.

use crate::call_data::Edge;
use crate::path_tree::{Call, Step};
use crate::qualified_name::in_scope;
use vstd::prelude::*;

verus! {

/// What a cluster holds: a node at its border, or an edge inside it.
pub ghost enum Member {
    Single(Seq<char>),
    CallInfo(Edge),
}

/// A cluster: the name of its scope and its members, each once, in the
/// order in which the list of edges gives them.
pub ghost struct Cluster {
    pub name: Seq<char>,
    pub members: Seq<Member>,
}

/// Both ends of the edge lie in the scope.
pub open spec fn both_inside(edge: Edge, scope: Seq<char>) -> bool {
    in_scope(edge.callee, scope) && in_scope(edge.caller, scope)
}

/// What an edge gives to the cluster of a scope: nothing if it is drawn
/// already; itself if both ends lie in the scope; the end that lies in the
/// scope if only one does.
pub open spec fn member_for(edge: Edge, drawn: bool, scope: Seq<char>) -> Option<Member> {
    if drawn {
        None
    } else if in_scope(edge.callee, scope) {
        if in_scope(edge.caller, scope) {
            Some(Member::CallInfo(edge))
        } else {
            Some(Member::Single(edge.callee))
        }
    } else if in_scope(edge.caller, scope) {
        Some(Member::Single(edge.caller))
    } else {
        None
    }
}

/// The members that the first `count` edges give to the cluster of a scope.
pub open spec fn member_list(
    edges: Seq<Edge>,
    drawn: Seq<bool>,
    scope: Seq<char>,
    count: nat,
) -> Seq<Member>
    decreases count,
{
    if count == 0 {
        Seq::empty()
    } else {
        let before = member_list(edges, drawn, scope, (count - 1) as nat);
        match member_for(edges[count - 1], drawn[count - 1], scope) {
            Some(member) => add_once(before, member),
            None => before,
        }
    }
}

/// The cluster of a scope.
pub open spec fn cluster_for(edges: Seq<Edge>, drawn: Seq<bool>, scope: Seq<char>) -> Cluster {
    Cluster { name: scope, members: member_list(edges, drawn, scope, edges.len()) }
}

/// The edges that are drawn once the cluster of a scope has been made.
pub open spec fn mark(edges: Seq<Edge>, drawn: Seq<bool>, scope: Seq<char>) -> Seq<bool> {
    Seq::new(edges.len(), |i: int| drawn[i] || both_inside(edges[i], scope))
}

/// No edge is drawn.
pub open spec fn none_drawn(count: nat) -> Seq<bool> {
    Seq::new(count, |i: int| false)
}

/// The edges that are drawn in clusters after the calls of `history`:
/// each scope that is entered draws the edges that lie in it with both ends.
pub open spec fn drawn_after(edges: Seq<Edge>, history: Seq<Call>) -> Seq<bool>
    decreases history.len(),
{
    if history.len() == 0 {
        none_drawn(edges.len())
    } else {
        let before = drawn_after(edges, history.drop_last());
        match history.last().step {
            Step::Enter(scope) => mark(edges, before, scope),
            Step::Leave(_) => before,
        }
    }
}

/// The clusters that the calls of `history` have made: one for each scope
/// that was entered, in that order, under the name with which the scope was
/// entered.
pub open spec fn clusters_after(edges: Seq<Edge>, history: Seq<Call>) -> Seq<Cluster>
    decreases history.len(),
{
    if history.len() == 0 {
        Seq::empty()
    } else {
        let before = clusters_after(edges, history.drop_last());
        match history.last().step {
            Step::Enter(scope) => before.push(
                cluster_for(edges, drawn_after(edges, history.drop_last()), scope),
            ),
            Step::Leave(_) => before,
        }
    }
}

/// The names of the scopes that the calls of `history` enter, in their
/// order.
pub open spec fn entered(history: Seq<Call>) -> Seq<Seq<char>>
    decreases history.len(),
{
    if history.len() == 0 {
        Seq::empty()
    } else {
        let before = entered(history.drop_last());
        match history.last().step {
            Step::Enter(scope) => before.push(scope),
            Step::Leave(_) => before,
        }
    }
}

/// Those of the first `count` edges that are not drawn in any cluster, in
/// their order.
pub open spec fn left_over(edges: Seq<Edge>, drawn: Seq<bool>, count: nat) -> Seq<Edge>
    decreases count,
{
    if count == 0 {
        Seq::empty()
    } else {
        let before = left_over(edges, drawn, (count - 1) as nat);
        if drawn[count - 1] {
            before
        } else {
            before.push(edges[count - 1])
        }
    }
}

/// How often an edge stands in a list.
pub open spec fn occurrences(list: Seq<Edge>, edge: Edge) -> nat
    decreases list.len(),
{
    if list.len() == 0 {
        0
    } else {
        occurrences(list.drop_last(), edge) + if list.last() == edge {
            1nat
        } else {
            0nat
        }
    }
}

/// In how many clusters an edge is drawn.
pub open spec fn times_clustered(clusters: Seq<Cluster>, edge: Edge) -> nat
    decreases clusters.len(),
{
    if clusters.len() == 0 {
        0
    } else {
        times_clustered(clusters.drop_last(), edge) + if clusters.last().members.contains(
            Member::CallInfo(edge),
        ) {
            1nat
        } else {
            0nat
        }
    }
}

/// No edge stands twice in the list.
pub open spec fn distinct_edges(edges: Seq<Edge>) -> bool {
    forall|i: int, j: int| 0 <= i < j < edges.len() ==> edges[i] != edges[j]
}

/// The edge stands at `i`, and is not drawn.
pub open spec fn pending_at(edges: Seq<Edge>, drawn: Seq<bool>, edge: Edge, i: int) -> bool {
    0 <= i < edges.len() && !drawn[i] && edges[i] == edge
}

/// The list of flags after any history is as long as the list of edges.
pub proof fn lemma_drawn_len(edges: Seq<Edge>, history: Seq<Call>)
    ensures
        drawn_after(edges, history).len() == edges.len(),
    decreases history.len(),
{
    if history.len() > 0 {
        lemma_drawn_len(edges, history.drop_last());
    }
}

/// One more scope is entered: what that does to the flags and the
/// clusters.
pub proof fn lemma_after_enter(edges: Seq<Edge>, history: Seq<Call>, scope: Seq<char>, go: bool)
    ensures
        ({
            let next = history.push(Call { step: Step::Enter(scope), answer: go });
            &&& drawn_after(edges, next) == mark(edges, drawn_after(edges, history), scope)
            &&& clusters_after(edges, next) == clusters_after(edges, history).push(
                cluster_for(edges, drawn_after(edges, history), scope),
            )
        }),
{
    let next = history.push(Call { step: Step::Enter(scope), answer: go });
    assert(next.drop_last() =~= history);
}

/// A scope is left: the flags and the clusters stay.
pub proof fn lemma_after_leave(edges: Seq<Edge>, history: Seq<Call>, scope: Seq<char>, go: bool)
    ensures
        ({
            let next = history.push(Call { step: Step::Leave(scope), answer: go });
            &&& drawn_after(edges, next) == drawn_after(edges, history)
            &&& clusters_after(edges, next) == clusters_after(edges, history)
        }),
{
    let next = history.push(Call { step: Step::Leave(scope), answer: go });
    assert(next.drop_last() =~= history);
}

/// The members of a cluster are listed once each, and they are what the
/// edges give.
pub proof fn lemma_member_list(edges: Seq<Edge>, drawn: Seq<bool>, scope: Seq<char>, count: nat)
    ensures
        member_list(edges, drawn, scope, count).no_duplicates(),
        forall|member: Member|
            member_list(edges, drawn, scope, count).contains(member) <==> exists|i: int|
                0 <= i < count && #[trigger] member_for(edges[i], drawn[i], scope) == Some(
                    member,
                ),
    decreases count,
{
    let list = member_list(edges, drawn, scope, count);
    if count > 0 {
        let before = member_list(edges, drawn, scope, (count - 1) as nat);
        lemma_member_list(edges, drawn, scope, (count - 1) as nat);
        let given = member_for(edges[count - 1], drawn[count - 1], scope);
        assert forall|member: Member| list.contains(member) <==> exists|i: int|
            0 <= i < count && #[trigger] member_for(edges[i], drawn[i], scope) == Some(
                member,
            ) by {
            if list.contains(member) {
                if before.contains(member) {
                    let i = choose|i: int|
                        0 <= i < count - 1 && #[trigger] member_for(edges[i], drawn[i], scope)
                            == Some(member);
                    assert(0 <= i < count && member_for(edges[i], drawn[i], scope) == Some(
                        member,
                    ));
                } else {
                    let at = choose|at: int| 0 <= at < list.len() && list[at] == member;
                    assert(given == Some(member));
                    assert(member_for(edges[count - 1], drawn[count - 1], scope) == Some(
                        member,
                    ));
                }
            }
            if exists|i: int|
                0 <= i < count && #[trigger] member_for(edges[i], drawn[i], scope) == Some(
                    member,
                ) {
                let i = choose|i: int|
                    0 <= i < count && #[trigger] member_for(edges[i], drawn[i], scope) == Some(
                        member,
                    );
                if i < count - 1 {
                    assert(before.contains(member));
                    let at = choose|at: int| 0 <= at < before.len() && before[at] == member;
                    assert(list[at] == member);
                } else {
                    if !before.contains(member) {
                        assert(list[before.len() as int] == member);
                    } else {
                        let at = choose|at: int| 0 <= at < before.len() && before[at] == member;
                        assert(list[at] == member);
                    }
                }
            }
        }
    }
}

/// One more edge behind a list: it is counted if it is the edge asked for.
pub proof fn lemma_occurrences_push(list: Seq<Edge>, last: Edge, edge: Edge)
    ensures
        occurrences(list.push(last), edge) == occurrences(list, edge) + if last == edge {
            1nat
        } else {
            0nat
        },
{
    assert(list.push(last).drop_last() =~= list);
}

/// Where no edge stands twice, an edge is left over once if it is pending
/// somewhere, and not at all otherwise.
pub proof fn lemma_left_over_once(edges: Seq<Edge>, drawn: Seq<bool>, edge: Edge, count: nat)
    requires
        distinct_edges(edges),
        count <= edges.len(),
    ensures
        occurrences(left_over(edges, drawn, count), edge) == if exists|i: int|
            i < count && #[trigger] pending_at(edges, drawn, edge, i) {
            1nat
        } else {
            0nat
        },
    decreases count,
{
    if count > 0 {
        let fewer = (count - 1) as nat;
        lemma_left_over_once(edges, drawn, edge, fewer);
        let before = left_over(edges, drawn, fewer);
        if drawn[count - 1] {
            if exists|i: int| i < count && #[trigger] pending_at(edges, drawn, edge, i) {
                let i = choose|i: int| i < count && #[trigger] pending_at(edges, drawn, edge, i);
                assert(i < fewer && pending_at(edges, drawn, edge, i));
            }
        } else {
            lemma_occurrences_push(before, edges[count - 1], edge);
            if edges[count - 1] == edge {
                assert(pending_at(edges, drawn, edge, count - 1));
                if exists|i: int| i < fewer && #[trigger] pending_at(edges, drawn, edge, i) {
                    let i = choose|i: int|
                        i < fewer && #[trigger] pending_at(edges, drawn, edge, i);
                    assert(edges[i] != edges[count - 1]);
                }
            } else {
                if exists|i: int| i < count && #[trigger] pending_at(edges, drawn, edge, i) {
                    let i = choose|i: int|
                        i < count && #[trigger] pending_at(edges, drawn, edge, i);
                    assert(i < fewer && pending_at(edges, drawn, edge, i));
                }
            }
        }
    }
}

/// While nothing is drawn, every edge is left over.
pub proof fn lemma_left_over_all(edges: Seq<Edge>, count: nat)
    requires
        count <= edges.len(),
    ensures
        left_over(edges, none_drawn(edges.len()), count) == edges.take(count as int),
    decreases count,
{
    if count > 0 {
        lemma_left_over_all(edges, (count - 1) as nat);
        assert(edges.take(count as int) =~= edges.take(count - 1).push(edges[count - 1]));
    } else {
        assert(edges.take(0) =~= Seq::<Edge>::empty());
    }
}

/// Entering one scope moves an edge from the top level into the new
/// cluster, or leaves it where it is.
pub proof fn lemma_claim(edges: Seq<Edge>, drawn: Seq<bool>, scope: Seq<char>, edge: Edge)
    requires
        distinct_edges(edges),
        drawn.len() == edges.len(),
    ensures
        occurrences(left_over(edges, mark(edges, drawn, scope), edges.len()), edge) + if cluster_for(
            edges,
            drawn,
            scope,
        ).members.contains(Member::CallInfo(edge)) {
            1nat
        } else {
            0nat
        } == occurrences(left_over(edges, drawn, edges.len()), edge),
{
    let marked = mark(edges, drawn, scope);
    let n = edges.len();
    lemma_left_over_once(edges, drawn, edge, n);
    lemma_left_over_once(edges, marked, edge, n);
    lemma_member_list(edges, drawn, scope, n);
    let claimed = cluster_for(edges, drawn, scope).members.contains(Member::CallInfo(edge));
    if exists|i: int| i < n && #[trigger] pending_at(edges, drawn, edge, i) {
        let i = choose|i: int| i < n && #[trigger] pending_at(edges, drawn, edge, i);
        if both_inside(edge, scope) {
            assert(member_for(edges[i], drawn[i], scope) == Some(Member::CallInfo(edge)));
            assert(claimed);
            if exists|k: int| k < n && #[trigger] pending_at(edges, marked, edge, k) {
                let k = choose|k: int| k < n && #[trigger] pending_at(edges, marked, edge, k);
                assert(marked[k]);
            }
        } else {
            assert(pending_at(edges, marked, edge, i));
            if claimed {
                let k = choose|k: int|
                    0 <= k < n && #[trigger] member_for(edges[k], drawn[k], scope) == Some(
                        Member::CallInfo(edge),
                    );
                assert(edges[k] == edge);
            }
        }
    } else {
        if claimed {
            let k = choose|k: int|
                0 <= k < n && #[trigger] member_for(edges[k], drawn[k], scope) == Some(
                    Member::CallInfo(edge),
                );
            assert(pending_at(edges, drawn, edge, k));
        }
        if exists|k: int| k < n && #[trigger] pending_at(edges, marked, edge, k) {
            let k = choose|k: int| k < n && #[trigger] pending_at(edges, marked, edge, k);
            assert(pending_at(edges, drawn, edge, k));
        }
    }
}

/// Every edge is drawn exactly once. Whatever scopes have been entered and
/// left, the clusters and the edges left for the top level hold, counted
/// together, each edge as often as the list of edges holds it: no edge is
/// drawn twice and none is lost. This is stated of a list in which no edge
/// stands twice.
pub proof fn lemma_partition_exact(edges: Seq<Edge>, history: Seq<Call>, edge: Edge)
    requires
        distinct_edges(edges),
    ensures
        times_clustered(clusters_after(edges, history), edge) + occurrences(
            left_over(edges, drawn_after(edges, history), edges.len()),
            edge,
        ) == occurrences(edges, edge),
    decreases history.len(),
{
    if history.len() == 0 {
        lemma_left_over_all(edges, edges.len());
        assert(edges.take(edges.len() as int) =~= edges);
    } else {
        let earlier = history.drop_last();
        lemma_partition_exact(edges, earlier, edge);
        lemma_drawn_len(edges, earlier);
        match history.last().step {
            Step::Enter(scope) => {
                let drawn = drawn_after(edges, earlier);
                lemma_claim(edges, drawn, scope, edge);
                let clusters = clusters_after(edges, history);
                assert(clusters.drop_last() =~= clusters_after(edges, earlier));
                assert(clusters.last() == cluster_for(edges, drawn, scope));
            },
            Step::Leave(_) => {},
        }
    }
}

/// The edges among the first `count` members of a cluster, in their order.
pub open spec fn inner_edges(members: Seq<Member>, count: nat) -> Seq<Edge>
    decreases count,
{
    if count == 0 {
        Seq::empty()
    } else {
        let before = inner_edges(members, (count - 1) as nat);
        match members[count - 1] {
            Member::CallInfo(edge) => before.push(edge),
            Member::Single(_) => before,
        }
    }
}

/// The edges that the clusters draw, cluster after cluster.
pub open spec fn clustered_edges(clusters: Seq<Cluster>) -> Seq<Edge>
    decreases clusters.len(),
{
    if clusters.len() == 0 {
        Seq::empty()
    } else {
        clustered_edges(clusters.drop_last()) + inner_edges(
            clusters.last().members,
            clusters.last().members.len(),
        )
    }
}

/// An edge stands in a list as often as the multiset of the list holds it.
pub proof fn lemma_occurrences_count(list: Seq<Edge>, edge: Edge)
    ensures
        occurrences(list, edge) == list.to_multiset().count(edge),
    decreases list.len(),
{
    broadcast use vstd::multiset::group_multiset_axioms;

    if list.len() == 0 {
        assert(list =~= Seq::<Edge>::empty());
        assert(Seq::<Edge>::empty().to_multiset() =~= vstd::multiset::Multiset::<Edge>::empty())
            by {
            Seq::<Edge>::empty().to_multiset_ensures();
            vstd::multiset::lemma_multiset_empty_len(Seq::<Edge>::empty().to_multiset());
        }
    } else {
        let front = list.drop_last();
        lemma_occurrences_count(front, edge);
        vstd::seq_lib::to_multiset_build(front, list.last());
        assert(front.push(list.last()) =~= list);
    }
}

/// An edge stands in two lists in a row as often as in both together.
pub proof fn lemma_occurrences_add(first: Seq<Edge>, second: Seq<Edge>, edge: Edge)
    ensures
        occurrences(first + second, edge) == occurrences(first, edge) + occurrences(second, edge),
    decreases second.len(),
{
    if second.len() == 0 {
        assert(first + second =~= first);
    } else {
        lemma_occurrences_add(first, second.drop_last(), edge);
        assert((first + second).drop_last() =~= first + second.drop_last());
    }
}

/// Where no member is listed twice, an edge stands once among the edges of
/// the members if it is one of them, and not at all otherwise.
pub proof fn lemma_inner_edges_once(members: Seq<Member>, edge: Edge, count: nat)
    requires
        members.no_duplicates(),
        count <= members.len(),
    ensures
        occurrences(inner_edges(members, count), edge) == if exists|i: int|
            0 <= i < count && #[trigger] members[i] == Member::CallInfo(edge) {
            1nat
        } else {
            0nat
        },
    decreases count,
{
    if count > 0 {
        let fewer = (count - 1) as nat;
        let before = inner_edges(members, fewer);
        lemma_inner_edges_once(members, edge, fewer);
        match members[count - 1] {
            Member::CallInfo(last) => {
                lemma_occurrences_push(before, last, edge);
                if last == edge {
                    if exists|i: int|
                        0 <= i < fewer && #[trigger] members[i] == Member::CallInfo(edge) {
                        let i = choose|i: int|
                            0 <= i < fewer && #[trigger] members[i] == Member::CallInfo(edge);
                        assert(members[i] == members[count - 1]);
                    }
                } else {
                    if exists|i: int|
                        0 <= i < count && #[trigger] members[i] == Member::CallInfo(edge) {
                        let i = choose|i: int|
                            0 <= i < count && #[trigger] members[i] == Member::CallInfo(edge);
                        assert(i < fewer);
                    }
                }
            },
            Member::Single(_) => {
                if exists|i: int|
                    0 <= i < count && #[trigger] members[i] == Member::CallInfo(edge) {
                    let i = choose|i: int|
                        0 <= i < count && #[trigger] members[i] == Member::CallInfo(edge);
                    assert(i < fewer);
                }
            },
        }
    }
}

/// The clusters of a walk draw an edge as often as it is counted as
/// clustered.
pub proof fn lemma_clustered_edges_count(edges: Seq<Edge>, history: Seq<Call>, edge: Edge)
    ensures
        occurrences(clustered_edges(clusters_after(edges, history)), edge) == times_clustered(
            clusters_after(edges, history),
            edge,
        ),
    decreases history.len(),
{
    if history.len() > 0 {
        let earlier = history.drop_last();
        lemma_clustered_edges_count(edges, earlier, edge);
        match history.last().step {
            Step::Enter(scope) => {
                let clusters = clusters_after(edges, history);
                let members = clusters.last().members;
                assert(clusters.drop_last() =~= clusters_after(edges, earlier));
                lemma_member_list(edges, drawn_after(edges, earlier), scope, edges.len());
                lemma_inner_edges_once(members, edge, members.len());
                lemma_occurrences_add(
                    clustered_edges(clusters.drop_last()),
                    inner_edges(members, members.len()),
                    edge,
                );
                if members.contains(Member::CallInfo(edge)) {
                    let i = choose|i: int|
                        0 <= i < members.len() && members[i] == Member::CallInfo(edge);
                    assert(members[i] == Member::CallInfo(edge));
                }
            },
            Step::Leave(_) => {},
        }
    }
}

/// The clusters and the top level together draw the call graph, as
/// multisets: the edges that the clusters draw and the edges left over are,
/// with their multiplicities, the edges of the call graph. This is stated of
/// a list in which no edge stands twice.
pub proof fn lemma_partition_multiset(edges: Seq<Edge>, history: Seq<Call>)
    requires
        distinct_edges(edges),
    ensures
        (clustered_edges(clusters_after(edges, history)) + left_over(
            edges,
            drawn_after(edges, history),
            edges.len(),
        )).to_multiset() =~= edges.to_multiset(),
{
    let clustered = clustered_edges(clusters_after(edges, history));
    let rest = left_over(edges, drawn_after(edges, history), edges.len());
    assert forall|edge: Edge|
        (clustered + rest).to_multiset().count(edge) == edges.to_multiset().count(edge) by {
        lemma_partition_exact(edges, history, edge);
        lemma_clustered_edges_count(edges, history, edge);
        lemma_occurrences_add(clustered, rest, edge);
        lemma_occurrences_count(clustered + rest, edge);
        lemma_occurrences_count(edges, edge);
    }
}

/// The shallowest scope wins: an edge that lies with both ends in a scope
/// that is entered is drawn from then on, so that no scope entered later
/// can claim it or show one of its ends.
pub proof fn lemma_claimed_stays(edges: Seq<Edge>, history: Seq<Call>, later: Seq<Call>, i: int)
    requires
        0 <= i < edges.len(),
        drawn_after(edges, history)[i],
    ensures
        drawn_after(edges, history + later)[i],
    decreases later.len(),
{
    if later.len() == 0 {
        assert(history + later =~= history);
    } else {
        let all = history + later;
        assert(all.drop_last() =~= history + later.drop_last());
        lemma_claimed_stays(edges, history, later.drop_last(), i);
        lemma_drawn_len(edges, all.drop_last());
    }
}

/// A list with one more item behind it, unless the list has the item.
pub open spec fn add_once<A>(list: Seq<A>, item: A) -> Seq<A> {
    if list.contains(item) {
        list
    } else {
        list.push(item)
    }
}

/// The names of the ends of the first `count` edges, each once, in the
/// order in which the edges give them: the callee of an edge, then its
/// caller.
pub open spec fn all_nodes(edges: Seq<Edge>, count: nat) -> Seq<Seq<char>>
    decreases count,
{
    if count == 0 {
        Seq::empty()
    } else {
        let before = all_nodes(edges, (count - 1) as nat);
        add_once(add_once(before, edges[count - 1].callee), edges[count - 1].caller)
    }
}

/// Adding once keeps a list free of repetitions, and adds the item to what
/// the list holds.
pub proof fn lemma_add_once<A>(list: Seq<A>, item: A)
    requires
        list.no_duplicates(),
    ensures
        add_once(list, item).no_duplicates(),
        forall|other: A| add_once(list, item).contains(other) <==> list.contains(other) || other == item,
{
    let added = add_once(list, item);
    assert forall|other: A| added.contains(other) <==> list.contains(other) || other
        == item by {
        if added.contains(other) {
            let at = choose|at: int| 0 <= at < added.len() && added[at] == other;
            if at < list.len() {
                assert(list[at] == other);
            }
        }
        if list.contains(other) {
            let at = choose|at: int| 0 <= at < list.len() && list[at] == other;
            assert(added[at] == other);
        }
        if other == item && !list.contains(item) {
            assert(added[list.len() as int] == item);
        }
    }
}

/// The list of nodes names every end of every edge, and each once.
pub proof fn lemma_all_nodes(edges: Seq<Edge>, count: nat)
    ensures
        all_nodes(edges, count).no_duplicates(),
        forall|name: Seq<char>|
            all_nodes(edges, count).contains(name) <==> exists|i: int|
                0 <= i < count && (#[trigger] edges[i]).callee == name || 0 <= i < count
                    && edges[i].caller == name,
    decreases count,
{
    if count > 0 {
        let before = all_nodes(edges, (count - 1) as nat);
        let last = edges[count - 1];
        lemma_all_nodes(edges, (count - 1) as nat);
        lemma_add_once(before, last.callee);
        lemma_add_once(add_once(before, last.callee), last.caller);
        assert forall|name: Seq<char>|
            all_nodes(edges, count).contains(name) <==> exists|i: int|
                0 <= i < count && (#[trigger] edges[i]).callee == name || 0 <= i < count
                    && edges[i].caller == name by {
            if before.contains(name) {
                let i = choose|i: int|
                    0 <= i < count - 1 && (#[trigger] edges[i]).callee == name || 0 <= i < count
                        - 1 && edges[i].caller == name;
                assert(0 <= i < count && edges[i].callee == name || 0 <= i < count
                    && edges[i].caller == name);
            }
            if exists|i: int|
                0 <= i < count && (#[trigger] edges[i]).callee == name || 0 <= i < count
                    && edges[i].caller == name {
                let i = choose|i: int|
                    0 <= i < count && (#[trigger] edges[i]).callee == name || 0 <= i < count
                        && edges[i].caller == name;
                if i < count - 1 {
                    assert(0 <= i < count - 1 && edges[i].callee == name || 0 <= i < count - 1
                        && edges[i].caller == name);
                }
            }
        }
    }
}

/// The names of a list of clusters.
pub open spec fn cluster_names(clusters: Seq<Cluster>) -> Seq<Seq<char>> {
    Seq::new(clusters.len(), |i: int| clusters[i].name)
}

/// The clusters are named by the scopes that were entered, in the order
/// in which they were entered. After a full walk over a tree these are the
/// full names of the nodes below its root, in preorder.
pub proof fn lemma_cluster_names(edges: Seq<Edge>, history: Seq<Call>)
    ensures
        cluster_names(clusters_after(edges, history)) == entered(history),
    decreases history.len(),
{
    if history.len() > 0 {
        lemma_cluster_names(edges, history.drop_last());
        assert(cluster_names(clusters_after(edges, history)) =~= entered(history));
    } else {
        assert(cluster_names(clusters_after(edges, history)) =~= entered(history));
    }
}

} // verus!
