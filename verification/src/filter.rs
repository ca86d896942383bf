//! What is taken out of a call graph before it is drawn.

use crate::call_data::{edges_of, CallInfo, Edge};
use crate::qualified_name::{chars_of, label_of, last_segment, same_text};
use vstd::prelude::*;

verus! {

/// What to filter.
pub struct Options {
    /// Whether calls from and to the built-in data types stay in the graph.
    pub print_data_type: bool,
}

impl Options {
    /// Options that keep the built-in data types, or drop them.
    pub fn new(print_data_type: bool) -> (options: Options)
        ensures
            options.print_data_type == print_data_type,
    {
        Options { print_data_type }
    }
}

/// The name is that of a built-in data type: its last segment is `String`
/// or `Vec`.
pub open spec fn data_type_name(name: Seq<char>) -> bool {
    last_segment(name) == "String"@ || last_segment(name) == "Vec"@
}

/// One of the ends of the edge is a built-in data type.
pub open spec fn touches_data_type(edge: Edge) -> bool {
    data_type_name(edge.callee) || data_type_name(edge.caller)
}

/// The edge stays in the graph: the graph has it, and it does not touch a
/// built-in data type unless those are kept.
pub open spec fn stays(given: Seq<Edge>, keep_data_types: bool, edge: Edge) -> bool {
    given.contains(edge) && (keep_data_types || !touches_data_type(edge))
}

/// `left` comes before `right` in the order of texts, both compared from
/// position `from` on: at the first position where they differ `left` has
/// the smaller character, or `left` ends there and `right` goes on.
pub open spec fn text_before_from(left: Seq<char>, right: Seq<char>, from: int) -> bool
    decreases left.len() - from,
{
    if from < 0 || from >= left.len() {
        from < right.len()
    } else if from >= right.len() {
        false
    } else if left[from] != right[from] {
        (left[from] as int) < (right[from] as int)
    } else {
        text_before_from(left, right, from + 1)
    }
}

/// `left` comes before `right` in the order of texts.
pub open spec fn text_before(left: Seq<char>, right: Seq<char>) -> bool {
    text_before_from(left, right, 0)
}

/// `left` comes before `right` in the order of edges: by the callee, and
/// among edges with one callee by the caller.
pub open spec fn edge_before(left: Edge, right: Edge) -> bool {
    text_before(left.callee, right.callee) || (left.callee == right.callee && text_before(
        left.caller,
        right.caller,
    ))
}

/// The list goes up strictly in the order of edges, so that no edge stands
/// in it twice.
pub open spec fn ascending(list: Seq<Edge>) -> bool {
    forall|i: int, j: int| 0 <= i < j < list.len() ==> edge_before(list[i], list[j])
}

/// The order of texts is transitive.
pub proof fn lemma_text_before_trans(a: Seq<char>, b: Seq<char>, c: Seq<char>, from: int)
    requires
        0 <= from,
        text_before_from(a, b, from),
        text_before_from(b, c, from),
    ensures
        text_before_from(a, c, from),
    decreases a.len() - from,
{
    if from < a.len() && from < b.len() && from < c.len() {
        if a[from] == b[from] && b[from] == c[from] {
            lemma_text_before_trans(a, b, c, from + 1);
        }
    }
}

/// Of two texts that agree before `from`, one comes before the other or
/// they are the same.
pub proof fn lemma_text_before_total(a: Seq<char>, b: Seq<char>, from: int)
    requires
        0 <= from,
        from <= a.len(),
        from <= b.len(),
        forall|k: int| 0 <= k < from ==> a[k] == b[k],
    ensures
        text_before_from(a, b, from) || text_before_from(b, a, from) || a == b,
    decreases a.len() - from,
{
    if from < a.len() && from < b.len() {
        if a[from] == b[from] {
            lemma_text_before_total(a, b, from + 1);
        }
    } else if from == a.len() && from == b.len() {
        assert(a =~= b);
    }
}

/// No text comes before itself.
pub proof fn lemma_text_before_irreflexive(a: Seq<char>, from: int)
    requires
        0 <= from,
    ensures
        !text_before_from(a, a, from),
    decreases a.len() - from,
{
    if from < a.len() {
        lemma_text_before_irreflexive(a, from + 1);
    }
}

/// The order of edges is transitive.
pub proof fn lemma_edge_before_trans(a: Edge, b: Edge, c: Edge)
    requires
        edge_before(a, b),
        edge_before(b, c),
    ensures
        edge_before(a, c),
{
    lemma_text_before_irreflexive(a.callee, 0);
    lemma_text_before_irreflexive(b.callee, 0);
    if text_before(a.callee, b.callee) && text_before(b.callee, c.callee) {
        lemma_text_before_trans(a.callee, b.callee, c.callee, 0);
    }
    if a.callee == b.callee && b.callee == c.callee {
        lemma_text_before_trans(a.caller, b.caller, c.caller, 0);
    }
}

/// Of two edges one comes before the other, or they are the same.
pub proof fn lemma_edge_before_total(a: Edge, b: Edge)
    ensures
        edge_before(a, b) || edge_before(b, a) || a == b,
{
    lemma_text_before_total(a.callee, b.callee, 0);
    lemma_text_before_total(a.caller, b.caller, 0);
}

/// No edge comes before itself.
pub proof fn lemma_edge_before_irreflexive(a: Edge)
    ensures
        !edge_before(a, a),
{
    lemma_text_before_irreflexive(a.callee, 0);
    lemma_text_before_irreflexive(a.caller, 0);
}

/// A list that goes up strictly holds no edge twice.
pub proof fn lemma_ascending_distinct(list: Seq<Edge>)
    requires
        ascending(list),
    ensures
        list.no_duplicates(),
{
    assert forall|i: int, j: int| 0 <= i < list.len() && 0 <= j < list.len() && i != j implies list[i]
        != list[j] by {
        lemma_edge_before_irreflexive(list[i]);
        if i < j {
            assert(edge_before(list[i], list[j]));
        } else {
            assert(edge_before(list[j], list[i]));
        }
    }
}

/// Two lists that go up strictly and hold the same edges are the same
/// list: what `filterling` states of its result leaves no choice.
pub proof fn lemma_ascending_unique(first: Seq<Edge>, second: Seq<Edge>)
    requires
        ascending(first),
        ascending(second),
        forall|edge: Edge| first.contains(edge) <==> second.contains(edge),
    ensures
        first == second,
    decreases first.len(),
{
    if first.len() == 0 {
        if second.len() > 0 {
            assert(second.contains(second[0]));
            assert(first.contains(second[0]));
        }
        assert(first =~= second);
    } else if second.len() == 0 {
        assert(first.contains(first[0]));
        assert(second.contains(first[0]));
    } else {
        // Both lists end with their greatest edge, which is the same.
        let a = first.last();
        let b = second.last();
        assert(first.contains(a));
        assert(second.contains(b));
        let ia = choose|i: int| 0 <= i < second.len() && second[i] == a;
        let ib = choose|i: int| 0 <= i < first.len() && first[i] == b;
        lemma_edge_before_irreflexive(a);
        lemma_edge_before_irreflexive(b);
        if a != b {
            assert(ia < second.len() - 1);
            assert(ib < first.len() - 1);
            assert(edge_before(a, b));
            assert(edge_before(b, a));
            lemma_edge_before_trans(a, b, a);
        }
        let f = first.drop_last();
        let s = second.drop_last();
        assert forall|edge: Edge| f.contains(edge) <==> s.contains(edge) by {
            if f.contains(edge) {
                let i = choose|i: int| 0 <= i < f.len() && f[i] == edge;
                assert(first[i] == edge);
                assert(edge_before(edge, a));
                assert(first.contains(edge));
                let k = choose|k: int| 0 <= k < second.len() && second[k] == edge;
                if k == second.len() - 1 {
                    assert(edge == a);
                }
                assert(s[k] == edge);
            }
            if s.contains(edge) {
                let i = choose|i: int| 0 <= i < s.len() && s[i] == edge;
                assert(second[i] == edge);
                assert(edge_before(edge, b));
                assert(second.contains(edge));
                let k = choose|k: int| 0 <= k < first.len() && first[k] == edge;
                if k == first.len() - 1 {
                    assert(edge == a);
                }
                assert(f[k] == edge);
            }
        }
        assert(ascending(f)) by {
            assert forall|i: int, j: int| 0 <= i < j < f.len() implies edge_before(
                f[i],
                f[j],
            ) by {
                assert(f[i] == first[i] && f[j] == first[j]);
            }
        }
        assert(ascending(s)) by {
            assert forall|i: int, j: int| 0 <= i < j < s.len() implies edge_before(
                s[i],
                s[j],
            ) by {
                assert(s[i] == second[i] && s[j] == second[j]);
            }
        }
        lemma_ascending_unique(f, s);
        assert(first =~= f.push(a));
        assert(second =~= s.push(b));
    }
}

/// Whether `left` comes before `right` in the order of texts.
pub fn text_less(left: &str, right: &str) -> (less: bool)
    ensures
        less == text_before(left@, right@),
{
    let a = chars_of(left);
    let b = chars_of(right);
    let mut i: usize = 0;
    while i < a.len() && i < b.len()
        invariant
            a@ == left@,
            b@ == right@,
            i <= a.len(),
            i <= b.len(),
            text_before(left@, right@) == text_before_from(left@, right@, i as int),
        decreases a.len() - i,
    {
        if a[i] != b[i] {
            return a[i] < b[i];
        }
        i = i + 1;
    }
    i < b.len()
}

/// Whether `left` comes before `right` in the order of edges.
pub fn edge_less(left: &CallInfo, right: &CallInfo) -> (less: bool)
    ensures
        less == edge_before(left@, right@),
{
    if left.callee == right.callee {
        proof {
            lemma_text_before_irreflexive(left.callee@, 0);
        }
        text_less(left.caller.as_str(), right.caller.as_str())
    } else {
        text_less(left.callee.as_str(), right.callee.as_str())
    }
}

/// Whether the name is that of a built-in data type.
pub fn is_data_type(name: &str) -> (found: bool)
    ensures
        found == data_type_name(name@),
{
    let last = label_of(name);
    same_text(last.as_str(), "String") || same_text(last.as_str(), "Vec")
}

/// Puts an edge at its place in a list that goes up strictly, unless the
/// list has it.
fn insert_sorted(list: &mut Vec<CallInfo>, item: CallInfo)
    requires
        ascending(edges_of(old(list)@)),
    ensures
        ascending(edges_of(final(list)@)),
        forall|edge: Edge|
            edges_of(final(list)@).contains(edge) <==> edges_of(old(list)@).contains(edge)
                || edge == item@,
{
    let ghost before = edges_of(list@);
    let mut at: usize = 0;
    while at < list.len() && edge_less(&list[at], &item)
        invariant
            *list == *old(list),
            before == edges_of(list@),
            at <= list.len(),
            forall|k: int| 0 <= k < at ==> edge_before(before[k], item@),
        decreases list.len() - at,
    {
        assert(before[at as int] == list@[at as int]@);
        at = at + 1;
    }
    if at < list.len() && list[at].same_as(&item) {
        assert(before[at as int] == item@);
        return ;
    }
    list.insert(at, item);
    proof {
        let after = edges_of(list@);
        assert(after =~= before.insert(at as int, item@));
        assert forall|i: int, j: int| 0 <= i < j < after.len() implies edge_before(
            after[i],
            after[j],
        ) by {
            if j < at {
                assert(after[i] == before[i] && after[j] == before[j]);
            } else if j == at {
                assert(after[i] == before[i]);
            } else if i == at {
                // The first edge that does not come before the new one comes
                // behind it, and so does every later one.
                let next = before[at as int];
                lemma_edge_before_total(next, item@);
                if j - 1 > at {
                    lemma_edge_before_trans(item@, next, before[j - 1]);
                }
                assert(after[j] == before[j - 1]);
            } else if i < at {
                assert(after[i] == before[i] && after[j] == before[j - 1]);
            } else {
                assert(after[i] == before[i - 1] && after[j] == before[j - 1]);
            }
        }
        assert forall|edge: Edge|
            after.contains(edge) <==> before.contains(edge) || edge == item@ by {
            if after.contains(edge) {
                let k = choose|k: int| 0 <= k < after.len() && after[k] == edge;
                if k < at {
                    assert(before[k] == edge);
                } else if k > at {
                    assert(before[k - 1] == edge);
                }
            }
            if before.contains(edge) {
                let k = choose|k: int| 0 <= k < before.len() && before[k] == edge;
                if k < at {
                    assert(after[k] == edge);
                } else {
                    assert(after[k + 1] == edge);
                }
            }
            if edge == item@ {
                assert(after[at as int] == edge);
            }
        }
    }
}

/// The call graph in the order of its edges, each edge once; and, unless
/// the options keep them, without the edges that have a built-in data type
/// at one of their ends.
pub fn filterling(callinfo_list: Vec<CallInfo>, options: &Options) -> (filtered: Vec<CallInfo>)
    ensures
        ascending(edges_of(filtered@)),
        edges_of(filtered@).no_duplicates(),
        forall|edge: Edge| #[trigger]
            edges_of(filtered@).contains(edge) <==> stays(
                edges_of(callinfo_list@),
                options.print_data_type,
                edge,
            ),
{
    let ghost given = edges_of(callinfo_list@);
    let mut filtered: Vec<CallInfo> = Vec::new();
    let mut i: usize = 0;
    while i < callinfo_list.len()
        invariant
            i <= callinfo_list.len(),
            given == edges_of(callinfo_list@),
            ascending(edges_of(filtered@)),
            forall|edge: Edge| #[trigger]
                edges_of(filtered@).contains(edge) <==> stays(
                    given.take(i as int),
                    options.print_data_type,
                    edge,
                ),
        decreases callinfo_list.len() - i,
    {
        let ghost kept = edges_of(filtered@);
        let item = &callinfo_list[i];
        let ghost shorter = given.take(i as int);
        let ghost longer = given.take(i + 1);
        assert(given[i as int] == item@);
        assert(longer =~= shorter.push(item@));
        assert forall|edge: Edge| longer.contains(edge) <==> shorter.contains(edge) || edge
            == item@ by {
            if longer.contains(edge) {
                let k = choose|k: int| 0 <= k < longer.len() && longer[k] == edge;
                if k < i {
                    assert(shorter[k] == edge);
                }
            }
            if shorter.contains(edge) {
                let k = choose|k: int| 0 <= k < shorter.len() && shorter[k] == edge;
                assert(longer[k] == edge);
            }
            if edge == item@ {
                assert(longer[i as int] == edge);
            }
        }
        if options.print_data_type || !(is_data_type(item.callee.as_str()) || is_data_type(
            item.caller.as_str(),
        )) {
            insert_sorted(&mut filtered, item.duplicate());
        }
        proof {
            let now = edges_of(filtered@);
            assert forall|edge: Edge| #[trigger]
                now.contains(edge) <==> stays(longer, options.print_data_type, edge) by {
                assert(kept.contains(edge) <==> stays(shorter, options.print_data_type, edge));
                assert(longer.contains(edge) <==> shorter.contains(edge) || edge == item@);
            }
        }
        i = i + 1;
    }
    assert(given.take(callinfo_list.len() as int) =~= given);
    proof {
        lemma_ascending_distinct(edges_of(filtered@));
    }
    filtered
}

} // verus!
