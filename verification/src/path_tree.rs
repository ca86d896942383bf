//! The mathematical model of a tree of scopes, and of a walk over it.
//!
//! A tree of scopes is a trie over the segments of qualified names. Its
//! children are ordered by the time of their first insertion. A walk visits
//! the nodes below the root in preorder and calls a visitor when it enters
//! and when it leaves a node, each time with the full name of the node; the
//! visitor may stop the walk.

use crate::qualified_name::join;
use vstd::prelude::*;

verus! {

/// A node of a tree of scopes, with its own segment for a name. The root
/// stands for no scope.
pub ghost struct PathTree {
    pub name: Seq<char>,
    pub children: Seq<PathTree>,
}

/// What a walk tells its visitor: that it enters a node, or that it leaves
/// one, with the full name of the node.
pub ghost enum Step {
    Enter(Seq<char>),
    Leave(Seq<char>),
}

/// A call that a visitor received, with its answer: `true` to go on,
/// `false` to stop.
pub ghost struct Call {
    pub step: Step,
    pub answer: bool,
}

/// A node without children.
pub open spec fn leaf(name: Seq<char>) -> PathTree {
    PathTree { name, children: Seq::empty() }
}

/// The index of the first child at or after `from` that is called `name`,
/// or the number of children when there is none.
pub open spec fn child_index(children: Seq<PathTree>, name: Seq<char>, from: int) -> int
    decreases children.len() - from,
{
    if from < 0 || from >= children.len() {
        children.len() as int
    } else if children[from].name == name {
        from
    } else {
        child_index(children, name, from + 1)
    }
}

/// The tree after a path of segments has been merged into it: the walk down
/// follows the first child of the right name, and where there is none a new
/// last child is made.
pub open spec fn insert(tree: PathTree, path: Seq<Seq<char>>) -> PathTree
    decreases path.len(),
{
    if path.len() == 0 {
        tree
    } else {
        let at = child_index(tree.children, path[0], 0);
        if 0 <= at < tree.children.len() {
            PathTree {
                name: tree.name,
                children: tree.children.update(at, insert(tree.children[at], path.skip(1))),
            }
        } else {
            PathTree {
                name: tree.name,
                children: tree.children.push(insert(leaf(path[0]), path.skip(1))),
            }
        }
    }
}

/// The tree has a node at the end of `path`, each step taking the first
/// child of the right name.
pub open spec fn has_path(tree: PathTree, path: Seq<Seq<char>>) -> bool
    decreases path.len(),
{
    if path.len() == 0 {
        true
    } else {
        let at = child_index(tree.children, path[0], 0);
        0 <= at < tree.children.len() && has_path(tree.children[at], path.skip(1))
    }
}

/// The number of nodes of a tree, the root included.
pub open spec fn size(tree: PathTree) -> nat
    decreases tree, tree.children.len() + 1,
{
    1 + size_below(tree, tree.children.len())
}

/// The number of nodes under the first `count` children of a tree.
pub open spec fn size_below(tree: PathTree, count: nat) -> nat
    decreases tree, count,
{
    if count == 0 || count > tree.children.len() {
        0
    } else {
        size_below(tree, (count - 1) as nat) + size(tree.children[count - 1])
    }
}

/// The steps of a full walk over a tree. The root is neither entered nor
/// left; every node below it is entered, its children are walked in their
/// order, and it is left. A step names its node in full: by the join of the
/// segments on the way from the root down to the node.
pub open spec fn events(tree: PathTree) -> Seq<Step> {
    events_below(tree, Seq::empty(), tree.children.len())
}

/// The steps of a full walk over a node that lies under the scope `above`:
/// the node is entered, its children are walked, and it is left.
pub open spec fn node_events(tree: PathTree, above: Seq<Seq<char>>) -> Seq<Step>
    decreases tree, tree.children.len() + 1,
{
    let scope = above.push(tree.name);
    seq![Step::Enter(join(scope))] + events_below(tree, scope, tree.children.len()) + seq![
        Step::Leave(join(scope)),
    ]
}

/// The steps of a full walk over the first `count` children of a tree, the
/// children lying under `scope`.
pub open spec fn events_below(tree: PathTree, scope: Seq<Seq<char>>, count: nat) -> Seq<Step>
    decreases tree, count,
{
    if count == 0 || count > tree.children.len() {
        Seq::empty()
    } else {
        events_below(tree, scope, (count - 1) as nat) + node_events(
            tree.children[count - 1],
            scope,
        )
    }
}

/// All answers of a list of calls say to go on.
pub open spec fn all_go_on(calls: Seq<Call>) -> bool {
    forall|i: int| 0 <= i < calls.len() ==> (#[trigger] calls[i]).answer
}

/// The calls of a walk that is never stopped.
pub open spec fn go_on_calls(steps: Seq<Step>) -> Seq<Call> {
    Seq::new(steps.len(), |i: int| Call { step: steps[i], answer: true })
}

/// What a walk over `steps` does to a visitor that had received `before`:
/// it makes the calls in order, up to and with the first that is answered
/// with a stop, and it is `done` if none was.
pub open spec fn walked(steps: Seq<Step>, before: Seq<Call>, after: Seq<Call>, done: bool) -> bool {
    let made = after.skip(before.len() as int);
    &&& before.is_prefix_of(after)
    &&& made.len() <= steps.len()
    &&& forall|i: int| 0 <= i < made.len() ==> (#[trigger] made[i]).step == steps[i]
    &&& done ==> made.len() == steps.len() && all_go_on(made)
    &&& !done ==> made.len() >= 1 && !made.last().answer && all_go_on(made.drop_last())
}

/// A walk over nothing calls nobody.
pub proof fn lemma_walked_nothing(before: Seq<Call>)
    ensures
        walked(Seq::empty(), before, before, true),
{
    assert(before.skip(before.len() as int) =~= Seq::<Call>::empty());
}

/// A walk of one step makes one call, and is done if the answer says so.
pub proof fn lemma_walked_one(step: Step, before: Seq<Call>, answer: bool)
    ensures
        walked(seq![step], before, before.push(Call { step, answer }), answer),
{
    let after = before.push(Call { step, answer });
    assert(after.skip(before.len() as int) =~= seq![Call { step, answer }]);
}

/// Two walks in a row, the first of them done, are one walk over both lists
/// of steps.
pub proof fn lemma_walked_then(
    first: Seq<Step>,
    second: Seq<Step>,
    before: Seq<Call>,
    between: Seq<Call>,
    after: Seq<Call>,
    done: bool,
)
    requires
        walked(first, before, between, true),
        walked(second, between, after, done),
    ensures
        walked(first + second, before, after, done),
{
    let made_first = between.skip(before.len() as int);
    let made_second = after.skip(between.len() as int);
    let made = after.skip(before.len() as int);
    assert(made =~= made_first + made_second);
    assert forall|i: int| 0 <= i < made.len() implies (#[trigger] made[i]).step == (first
        + second)[i] by {
        if i < made_first.len() {
            assert(made[i] == made_first[i]);
        } else {
            assert(made[i] == made_second[i - made_first.len()]);
        }
    }
    if done {
        assert forall|i: int| 0 <= i < made.len() implies (#[trigger] made[i]).answer by {
            if i < made_first.len() {
                assert(made[i] == made_first[i]);
            } else {
                assert(made[i] == made_second[i - made_first.len()]);
            }
        }
    } else {
        let most = made.drop_last();
        assert forall|i: int| 0 <= i < most.len() implies (#[trigger] most[i]).answer by {
            if i < made_first.len() {
                assert(most[i] == made_first[i]);
            } else {
                assert(most[i] == made_second.drop_last()[i - made_first.len()]);
            }
        }
    }
}

/// A walk that was stopped is a stopped walk over any longer list of steps.
pub proof fn lemma_walked_stopped(
    steps: Seq<Step>,
    more: Seq<Step>,
    before: Seq<Call>,
    after: Seq<Call>,
)
    requires
        walked(steps, before, after, false),
    ensures
        walked(steps + more, before, after, false),
{
}

/// The first child of a name is the one before which none has it.
pub proof fn lemma_child_index_is(children: Seq<PathTree>, name: Seq<char>, from: int, at: int)
    requires
        0 <= from <= at <= children.len(),
        forall|k: int| from <= k < at ==> children[k].name != name,
        at < children.len() ==> children[at].name == name,
    ensures
        child_index(children, name, from) == at,
    decreases at - from,
{
    if from < at {
        lemma_child_index_is(children, name, from + 1, at);
    }
}

/// Before the first child of a name none has it, and the index that is
/// found has it.
pub proof fn lemma_child_index_first(children: Seq<PathTree>, name: Seq<char>, from: int)
    requires
        0 <= from,
    ensures
        from <= child_index(children, name, from) || child_index(children, name, from)
            == children.len(),
        child_index(children, name, from) <= children.len(),
        child_index(children, name, from) < children.len() ==> children[child_index(
            children,
            name,
            from,
        )].name == name,
        forall|k: int|
            from <= k < child_index(children, name, from) ==> children[k].name != name,
    decreases children.len() - from,
{
    if from < children.len() && children[from].name != name {
        lemma_child_index_first(children, name, from + 1);
    }
}

/// Inserting a path leaves the name of the node alone.
pub proof fn lemma_insert_keeps_name(tree: PathTree, path: Seq<Seq<char>>)
    ensures
        insert(tree, path).name == tree.name,
{
}

/// Inserting a path a second time changes nothing: every node that the
/// path needs is there after the first time.
pub proof fn lemma_insert_idempotent(tree: PathTree, path: Seq<Seq<char>>)
    ensures
        insert(insert(tree, path), path) == insert(tree, path),
        size(insert(insert(tree, path), path)) == size(insert(tree, path)),
    decreases path.len(),
{
    if path.len() > 0 {
        let rest = path.skip(1);
        let once = insert(tree, path);
        let at = child_index(tree.children, path[0], 0);
        lemma_child_index_first(tree.children, path[0], 0);
        if 0 <= at < tree.children.len() {
            let child = tree.children[at];
            lemma_insert_idempotent(child, rest);
            lemma_insert_keeps_name(child, rest);
            lemma_child_index_is(once.children, path[0], 0, at);
            assert(once.children.update(at, insert(once.children[at], rest))
                =~= once.children);
        } else {
            let child = leaf(path[0]);
            let end = tree.children.len() as int;
            lemma_insert_idempotent(child, rest);
            lemma_insert_keeps_name(child, rest);
            lemma_child_index_is(once.children, path[0], 0, end);
            assert(once.children.update(end, insert(once.children[end], rest))
                =~= once.children);
        }
    }
}

/// After a path has been inserted, the tree has it.
pub proof fn lemma_insert_has_path(tree: PathTree, path: Seq<Seq<char>>)
    ensures
        has_path(insert(tree, path), path),
    decreases path.len(),
{
    if path.len() > 0 {
        let rest = path.skip(1);
        let once = insert(tree, path);
        let at = child_index(tree.children, path[0], 0);
        lemma_child_index_first(tree.children, path[0], 0);
        if 0 <= at < tree.children.len() {
            let child = tree.children[at];
            lemma_insert_has_path(child, rest);
            lemma_insert_keeps_name(child, rest);
            lemma_child_index_is(once.children, path[0], 0, at);
        } else {
            let child = leaf(path[0]);
            let end = tree.children.len() as int;
            lemma_insert_has_path(child, rest);
            lemma_insert_keeps_name(child, rest);
            lemma_child_index_is(once.children, path[0], 0, end);
        }
    }
}

/// A tree that has a path is not changed by inserting it.
pub proof fn lemma_insert_present(tree: PathTree, path: Seq<Seq<char>>)
    requires
        has_path(tree, path),
    ensures
        insert(tree, path) == tree,
    decreases path.len(),
{
    if path.len() > 0 {
        let at = child_index(tree.children, path[0], 0);
        lemma_insert_present(tree.children[at], path.skip(1));
        assert(tree.children.update(at, tree.children[at]) =~= tree.children);
    }
}

/// The texts of a list of string slices.
pub open spec fn texts(names: Seq<&str>) -> Seq<Seq<char>> {
    Seq::new(names.len(), |i: int| names[i]@)
}

/// The steps of a full walk over the children of a tree behind the first
/// `count` of them, the children lying under `scope`.
pub open spec fn events_rest(tree: PathTree, scope: Seq<Seq<char>>, count: nat) -> Seq<Step>
    decreases tree.children.len() - count,
{
    if count >= tree.children.len() {
        Seq::empty()
    } else {
        node_events(tree.children[count as int], scope) + events_rest(tree, scope, count + 1)
    }
}

/// The walk over all children is the walk over the first of them and then
/// over the rest.
pub proof fn lemma_events_below_extends(tree: PathTree, scope: Seq<Seq<char>>, count: nat)
    requires
        count <= tree.children.len(),
    ensures
        events_below(tree, scope, tree.children.len()) == events_below(tree, scope, count)
            + events_rest(tree, scope, count),
    decreases tree.children.len() - count,
{
    if count < tree.children.len() {
        lemma_events_below_extends(tree, scope, count + 1);
        assert(events_below(tree, scope, count + 1) == events_below(tree, scope, count)
            + node_events(tree.children[count as int], scope));
        assert(events_below(tree, scope, count) + node_events(tree.children[count as int], scope)
            + events_rest(tree, scope, count + 1) =~= events_below(tree, scope, count)
            + events_rest(tree, scope, count));
    } else {
        assert(events_below(tree, scope, count) + events_rest(tree, scope, count)
            =~= events_below(tree, scope, count));
    }
}

} // verus!
