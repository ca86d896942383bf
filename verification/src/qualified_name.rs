//! Qualified names as text: segments joined by `::`.
//!
//! Everything here is stated over `Seq<char>`, the view of `str` and
//! `String`: how a name splits into segments, how segments join into a
//! name, when a name lies in a scope, and how a name is written as an
//! identifier of the diagram.

use vstd::prelude::*;
use vstd::string::*;

verus! {

/// The separator between two segments of a qualified name.
pub open spec fn separator() -> Seq<char> {
    seq![':', ':']
}

/// The text of a qualified name: its segments with `::` between them.
pub open spec fn join(segments: Seq<Seq<char>>) -> Seq<char>
    decreases segments.len(),
{
    if segments.len() == 0 {
        Seq::empty()
    } else if segments.len() == 1 {
        segments[0]
    } else {
        join(segments.drop_last()) + separator() + segments.last()
    }
}

/// A separator starts at position `i` of `text`.
pub open spec fn separator_at(text: Seq<char>, i: int) -> bool {
    0 <= i && i + 1 < text.len() && text[i] == ':' && text[i + 1] == ':'
}

/// The position of the first separator at or after `from`, or the length of
/// `text` when there is none.
pub open spec fn first_separator(text: Seq<char>, from: int) -> int
    decreases text.len() - from,
{
    if from < 0 || from + 1 >= text.len() {
        text.len() as int
    } else if separator_at(text, from) {
        from
    } else {
        first_separator(text, from + 1)
    }
}

/// The segments of a qualified name. Separators are taken from left to right
/// and do not overlap; a text without separator is its own single segment.
pub open spec fn split(text: Seq<char>) -> Seq<Seq<char>>
    decreases text.len(),
{
    let at = first_separator(text, 0);
    if 0 <= at && at + 2 <= text.len() {
        seq![text.take(at)] + split(text.skip(at + 2))
    } else {
        seq![text]
    }
}

/// The last segment of a qualified name: what a diagram shows as its label.
pub open spec fn last_segment(text: Seq<char>) -> Seq<char> {
    split(text).last()
}

/// `name` lies in the scope `prefix`: it is `prefix` itself, or `prefix`
/// followed by a separator and more.
pub open spec fn in_scope(name: Seq<char>, prefix: Seq<char>) -> bool {
    name == prefix || (prefix + separator()).is_prefix_of(name)
}

/// The character that stands for `c` in an identifier of the diagram.
pub open spec fn escape_char(c: char) -> char {
    if c == ':' || c == '-' {
        '_'
    } else {
        c
    }
}

/// A name as an identifier of the diagram: `:` and `-` become `_`.
pub open spec fn escape(text: Seq<char>) -> Seq<char> {
    Seq::new(text.len(), |i: int| escape_char(text[i]))
}

/// The text of a string that may be missing.
pub open spec fn text_of(value: Option<String>) -> Option<Seq<char>> {
    match value {
        Some(text) => Some(text@),
        None => None,
    }
}

/// The views of a list of strings.
pub open spec fn views(list: Seq<String>) -> Seq<Seq<char>> {
    Seq::new(list.len(), |i: int| list[i]@)
}

/// The first separator lies at or behind `from`, a separator starts there,
/// and none starts between the two.
pub proof fn lemma_first_separator_bounds(text: Seq<char>, from: int)
    requires
        0 <= from,
    ensures
        from <= first_separator(text, from) || first_separator(text, from) == text.len(),
        first_separator(text, from) <= text.len(),
        first_separator(text, from) < text.len() ==> separator_at(
            text,
            first_separator(text, from),
        ),
        forall|k: int| from <= k < first_separator(text, from) ==> !separator_at(text, k),
    decreases text.len() - from,
{
    if from + 1 >= text.len() {
    } else if separator_at(text, from) {
    } else {
        lemma_first_separator_bounds(text, from + 1);
    }
}

/// The first separator is the one before which there is none.
pub proof fn lemma_first_separator_is(text: Seq<char>, from: int, at: int)
    requires
        0 <= from <= at,
        forall|k: int| from <= k < at ==> !separator_at(text, k),
        separator_at(text, at) || at + 1 >= text.len(),
    ensures
        first_separator(text, from) == if separator_at(text, at) {
            at
        } else {
            text.len() as int
        },
    decreases at - from,
{
    if from + 1 >= text.len() {
    } else if from == at {
    } else {
        lemma_first_separator_is(text, from + 1, at);
    }
}

/// Splitting yields at least one segment.
pub proof fn lemma_split_nonempty(text: Seq<char>)
    ensures
        split(text).len() >= 1,
    decreases text.len(),
{
    let at = first_separator(text, 0);
    if 0 <= at && at + 2 <= text.len() {
        lemma_split_nonempty(text.skip(at + 2));
    }
}

/// Joining behind a first segment: the segment, a separator, the rest joined.
pub proof fn lemma_join_first(first: Seq<char>, rest: Seq<Seq<char>>)
    requires
        rest.len() >= 1,
    ensures
        join(seq![first] + rest) == first + separator() + join(rest),
    decreases rest.len(),
{
    let all = seq![first] + rest;
    assert(all.last() == rest.last());
    if rest.len() == 1 {
        assert(all.drop_last() =~= seq![first]);
        assert(join(all.drop_last()) == first);
        assert(join(rest) == rest[0]);
    } else {
        assert(all.drop_last() =~= seq![first] + rest.drop_last());
        lemma_join_first(first, rest.drop_last());
        assert(join(all) =~= first + separator() + join(rest));
    }
}

/// Joining one more segment behind a name that has some.
pub proof fn lemma_join_push(segments: Seq<Seq<char>>, segment: Seq<char>)
    ensures
        join(segments.push(segment)) == if segments.len() == 0 {
            segment
        } else {
            join(segments) + separator() + segment
        },
{
    let all = segments.push(segment);
    assert(all.drop_last() =~= segments);
    assert(all.last() == segment);
}

/// A name is the join of its segments.
pub proof fn lemma_join_split(text: Seq<char>)
    ensures
        join(split(text)) == text,
    decreases text.len(),
{
    let at = first_separator(text, 0);
    lemma_first_separator_bounds(text, 0);
    if 0 <= at && at + 2 <= text.len() {
        let rest = text.skip(at + 2);
        lemma_join_split(rest);
        lemma_split_nonempty(rest);
        lemma_join_first(text.take(at), split(rest));
        assert(text.take(at) + separator() + rest =~= text);
    } else {
    }
}

/// Every name lies in its own scope.
pub proof fn lemma_in_scope_self(name: Seq<char>)
    ensures
        in_scope(name, name),
{
}

/// A scope within a scope: what lies in the inner one lies in the outer one.
pub proof fn lemma_in_scope_trans(name: Seq<char>, inner: Seq<char>, outer: Seq<char>)
    requires
        in_scope(name, inner),
        in_scope(inner, outer),
    ensures
        in_scope(name, outer),
{
    let o = outer + separator();
    let i = inner + separator();
    if inner == outer {
    } else if name == inner {
    } else {
        assert(o.is_prefix_of(inner));
        assert(i.is_prefix_of(name));
        assert forall|k: int| 0 <= k < o.len() implies o[k] == name[k] by {
            assert(o[k] == inner[k]);
            assert(inner[k] == i[k]);
        }
        assert(o =~= name.subrange(0, o.len() as int));
    }
}

/// The characters of a string, in order.
pub fn chars_of(text: &str) -> (chars: Vec<char>)
    ensures
        chars@ == text@,
{
    let mut chars: Vec<char> = Vec::new();
    for c in it: text.chars()
        invariant
            it.seq() == text@,
            chars@ =~= it.seq().take(it.index()),
    {
        chars.push(c);
    }
    assert(text@.take(text@.len() as int) =~= text@);
    chars
}

/// Whether two texts are the same.
pub fn same_text(left: &str, right: &str) -> (same: bool)
    ensures
        same == (left@ == right@),
{
    let a = chars_of(left);
    let b = chars_of(right);
    if a.len() != b.len() {
        return false;
    }
    let mut i: usize = 0;
    while i < a.len()
        invariant
            a@ == left@,
            b@ == right@,
            a.len() == b.len(),
            i <= a.len(),
            forall|k: int| 0 <= k < i ==> a@[k] == b@[k],
        decreases a.len() - i,
    {
        if a[i] != b[i] {
            return false;
        }
        i += 1;
    }
    assert(left@ =~= right@);
    true
}

/// Splitting behind a segment start: where the first separator at or after
/// `start` stands at `at`, the segment is what lies between them.
pub proof fn lemma_split_step(text: Seq<char>, start: int, at: int)
    requires
        0 <= start <= at,
        forall|k: int| start <= k < at ==> !separator_at(text, k),
        separator_at(text, at),
    ensures
        split(text.skip(start)) == seq![text.subrange(start, at)] + split(text.skip(at + 2)),
{
    let tail = text.skip(start);
    assert forall|k: int| 0 <= k < at - start implies !separator_at(tail, k) by {
        assert(!separator_at(text, start + k));
    }
    assert(separator_at(tail, at - start));
    lemma_first_separator_is(tail, 0, at - start);
    assert(tail.take(at - start) =~= text.subrange(start, at));
    assert(tail.skip(at - start + 2) =~= text.skip(at + 2));
}

/// Splitting behind a segment start after which no separator stands: the
/// rest is one segment.
pub proof fn lemma_split_last(text: Seq<char>, start: int)
    requires
        0 <= start <= text.len(),
        forall|k: int| start <= k < text.len() ==> !separator_at(text, k),
    ensures
        split(text.skip(start)) == seq![text.skip(start)],
{
    let tail = text.skip(start);
    let at: int = if tail.len() == 0 {
        0
    } else {
        tail.len() - 1
    };
    assert forall|k: int| 0 <= k < at implies !separator_at(tail, k) by {
        assert(!separator_at(text, start + k));
    }
    lemma_first_separator_is(tail, 0, at);
}

/// The segments of a qualified name, as strings of their own.
pub fn split_segments(text: &str) -> (segments: Vec<String>)
    ensures
        views(segments@) == split(text@),
{
    let chars = chars_of(text);
    let n = chars.len();
    let mut segments: Vec<String> = Vec::new();
    let mut start: usize = 0;
    let mut i: usize = 0;
    assert(text@.skip(0) =~= text@);
    assert(views(segments@) + split(text@) =~= split(text@));
    while i < n
        invariant
            chars@ == text@,
            n == chars.len(),
            start <= i <= n,
            forall|k: int| start <= k < i ==> !separator_at(text@, k),
            views(segments@) + split(text@.skip(start as int)) == split(text@),
        decreases n - i,
    {
        if chars[i] == ':' && i + 1 < n && chars[i + 1] == ':' {
            let piece = String::from_str(text.substring_char(start, i));
            proof {
                lemma_split_step(text@, start as int, i as int);
                assert(views(segments@.push(piece)) =~= views(segments@).push(piece@));
                assert(views(segments@).push(piece@) + split(text@.skip(i + 2)) =~= views(
                    segments@,
                ) + (seq![piece@] + split(text@.skip(i + 2))));
            }
            segments.push(piece);
            i = i + 2;
            start = i;
        } else {
            i = i + 1;
        }
    }
    let piece = String::from_str(text.substring_char(start, n));
    proof {
        lemma_split_last(text@, start as int);
        assert(text@.subrange(start as int, n as int) =~= text@.skip(start as int));
        assert(views(segments@.push(piece)) =~= views(segments@) + seq![piece@]);
    }
    segments.push(piece);
    segments
}

/// The text of a qualified name, from its segments.
pub fn join_segments(segments: &Vec<String>) -> (text: String)
    ensures
        text@ == join(views(segments@)),
{
    let mut text = String::new();
    let mut i: usize = 0;
    assert(views(segments@).take(0) =~= Seq::<Seq<char>>::empty());
    while i < segments.len()
        invariant
            i <= segments.len(),
            text@ == join(views(segments@).take(i as int)),
        decreases segments.len() - i,
    {
        if i > 0 {
            text.append("::");
        }
        text.append(segments[i].as_str());
        proof {
            reveal_strlit("::");
            assert("::"@ =~= separator());
            let before = views(segments@).take(i as int);
            lemma_join_push(before, segments[i as int]@);
            assert(views(segments@).take(i + 1) =~= before.push(segments[i as int]@));
        }
        i = i + 1;
    }
    assert(views(segments@).take(segments.len() as int) =~= views(segments@));
    text
}

/// Whether `name` lies in the scope `prefix`.
pub fn has_scope(name: &str, prefix: &str) -> (inside: bool)
    ensures
        inside == in_scope(name@, prefix@),
{
    let a = chars_of(name);
    let p = chars_of(prefix);
    let n = p.len();
    if a.len() < n {
        return false;
    }
    let mut i: usize = 0;
    while i < n
        invariant
            a@ == name@,
            p@ == prefix@,
            n == p.len(),
            n <= a.len(),
            i <= n,
            forall|k: int| 0 <= k < i ==> a@[k] == p@[k],
        decreases n - i,
    {
        if a[i] != p[i] {
            proof {
                let with_sep = prefix@ + separator();
                if with_sep.is_prefix_of(name@) {
                    assert(with_sep[i as int] == name@[i as int]);
                }
            }
            return false;
        }
        i = i + 1;
    }
    if a.len() == n {
        assert(name@ =~= prefix@);
        return true;
    }
    let with_sep = Ghost(prefix@ + separator());
    if a.len() - n >= 2 && a[n] == ':' && a[n + 1] == ':' {
        assert(with_sep@ =~= name@.subrange(0, with_sep@.len() as int));
        true
    } else {
        proof {
            if with_sep@.is_prefix_of(name@) {
                assert(with_sep@[n as int] == name@[n as int]);
                assert(with_sep@[n + 1] == name@[n + 1]);
            }
        }
        false
    }
}

/// A name as an identifier of the diagram.
pub fn escape_for_id(name: &str) -> (id: String)
    ensures
        id@ == escape(name@),
{
    let chars = chars_of(name);
    let mut id = String::new();
    let mut i: usize = 0;
    while i < chars.len()
        invariant
            chars@ == name@,
            i <= chars.len(),
            id@ == escape(name@).take(i as int),
        decreases chars.len() - i,
    {
        let c = chars[i];
        if c == ':' || c == '-' {
            proof {
                reveal_strlit("_");
            }
            id.append("_");
        } else {
            id.append(name.substring_char(i, i + 1));
        }
        assert(id@ =~= escape(name@).take(i + 1));
        i = i + 1;
    }
    assert(escape(name@).take(chars.len() as int) =~= escape(name@));
    id
}

/// The last segment of a qualified name.
pub fn label_of(name: &str) -> (label: String)
    ensures
        label@ == last_segment(name@),
{
    let mut segments = split_segments(name);
    proof {
        lemma_split_nonempty(name@);
    }
    let last = segments.pop();
    match last {
        Some(label) => label,
        None => String::new(),
    }
}

} // verus!
