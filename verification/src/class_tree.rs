//! The tree of the classes that enclose the functions of a call graph.

use crate::path_tree::{
    events, events_below, events_rest, insert, leaf, lemma_child_index_is,
    lemma_events_below_extends, lemma_walked_nothing, lemma_walked_one, lemma_walked_stopped,
    lemma_walked_then, node_events, texts, walked, Call, PathTree, Step,
};
use crate::qualified_name::{join, lemma_join_push, same_text, separator};
use vstd::prelude::*;
use vstd::string::*;

verus! {

/// A visitor of a tree of classes. It is told when the walk enters a node and
/// when it leaves it, each time with the node's full name, and answers
/// whether the walk goes on.
///
/// A visitor may keep a record of the calls that it receives. Of one that
/// does, a walk can say which calls it made; one that does not leaves the
/// three functions below as they are.
pub trait ClassTreeInterface: Sized {
    /// The visitor keeps a record of the calls that it receives.
    open spec fn recording(&self) -> bool {
        false
    }

    /// The calls that the visitor has received, oldest first.
    open spec fn history(&self) -> Seq<Call> {
        Seq::empty()
    }

    /// The visitor is what the calls of its history have made of `origin`.
    /// What that means is for each visitor to say; a walk hands it on.
    open spec fn follows(&self, origin: Self) -> bool {
        false
    }

    fn exec_search_before(&mut self, fn_name: &str) -> (go_on: bool)
        ensures
            old(self).recording() ==> final(self).recording() && final(self).history() == old(
                self,
            ).history().push(Call { step: Step::Enter(fn_name@), answer: go_on }),
            forall|origin: Self| old(self).follows(origin) ==> final(self).follows(origin),
    ;

    fn exec_search_after(&mut self, fn_name: &str) -> (go_on: bool)
        ensures
            old(self).recording() ==> final(self).recording() && final(self).history() == old(
                self,
            ).history().push(Call { step: Step::Leave(fn_name@), answer: go_on }),
            forall|origin: Self| old(self).follows(origin) ==> final(self).follows(origin),
    ;
}

/// A tree of classes. A node holds its own segment; the full name of a
/// node is the join of the segments on the way from the root down to it. The
/// root has an empty segment and stands for no scope.
#[derive(Debug, PartialEq)]
pub struct ClassTree {
    pub fn_name: String,
    pub nodes: Vec<ClassTree>,
}

impl View for ClassTree {
    type V = PathTree;

    open spec fn view(&self) -> PathTree
        decreases self,
    {
        PathTree {
            name: self.fn_name@,
            children: Seq::new(
                self.nodes@.len(),
                |i: int|
                    if 0 <= i < self.nodes@.len() {
                        self.nodes@[i]@
                    } else {
                        leaf(Seq::empty())
                    },
            ),
        }
    }
}

impl ClassTree {
    /// The view of a node, one level down.
    proof fn lemma_view(&self)
        ensures
            self@.name == self.fn_name@,
            self@.children.len() == self.nodes@.len(),
            forall|i: int| 0 <= i < self.nodes@.len() ==> self@.children[i] == self.nodes@[i]@,
    {
    }

    /// An empty tree: a root without children.
    pub fn new() -> (tree: ClassTree)
        ensures
            tree@ == leaf(Seq::empty()),
    {
        ClassTree::create_root_node()
    }

    fn create_root_node() -> (tree: ClassTree)
        ensures
            tree@ == leaf(Seq::empty()),
    {
        let tree = ClassTree { fn_name: String::new(), nodes: Vec::new() };
        assert(tree@.children =~= Seq::empty());
        tree
    }

    fn create_node(name: &str) -> (tree: ClassTree)
        ensures
            tree@ == leaf(name@),
    {
        let tree = ClassTree { fn_name: name.to_owned(), nodes: Vec::new() };
        assert(tree@.children =~= Seq::empty());
        tree
    }

    /// Merges a path of segments into the tree. Only the nodes that are not
    /// there yet are made, each as the last child of its parent.
    pub fn push(&mut self, function_names: &[&str])
        ensures
            final(self)@ == insert(old(self)@, texts(function_names@)),
    {
        assert(texts(function_names@).skip(0) =~= texts(function_names@));
        self.push_from(function_names, 0);
    }

    fn push_from(&mut self, names: &[&str], from: usize)
        requires
            from <= names@.len(),
        ensures
            final(self)@ == insert(old(self)@, texts(names@).skip(from as int)),
        decreases names@.len() - from,
    {
        if from >= names.len() {
            return ;
        }
        let ghost path = texts(names@).skip(from as int);
        let ghost before = self@;
        let name: &str = names[from];
        assert(path[0] == name@);
        assert(path.skip(1) =~= texts(names@).skip(from + 1));
        let mut i: usize = 0;
        let mut found = false;
        while i < self.nodes.len() && !found
            invariant
                before == self@,
                i <= self.nodes.len(),
                forall|k: int| 0 <= k < i ==> before.children[k].name != name@,
                found ==> i < self.nodes.len() && before.children[i as int].name == name@,
            decreases self.nodes.len() - i + if found { 0int } else { 1int },
        {
            proof {
                self.lemma_view();
                self.nodes@[i as int].lemma_view();
            }
            if same_text(self.nodes[i].fn_name.as_str(), name) {
                found = true;
            } else {
                i = i + 1;
            }
        }
        proof {
            self.lemma_view();
            lemma_child_index_is(before.children, name@, 0, i as int);
        }
        if found {
            let child = &mut self.nodes[i];
            child.push_from(names, from + 1);
            proof {
                self.lemma_view();
                assert(self@.children =~= before.children.update(
                    i as int,
                    insert(before.children[i as int], path.skip(1)),
                ));
            }
        } else {
            let mut fresh = ClassTree::create_node(name);
            fresh.push_from(names, from + 1);
            self.nodes.push(fresh);
            proof {
                self.lemma_view();
                assert(self@.children =~= before.children.push(
                    insert(leaf(name@), path.skip(1)),
                ));
            }
        }
    }

    /// Walks the tree in preorder. Every node below the root is announced to
    /// the visitor before its children and again after them, each time by its
    /// full name: the join of the segments from the root down to it. The root
    /// itself is not announced. The walk ends with `false` at the first call
    /// that the visitor answers with `false`.
    pub fn search_preorder<V: ClassTreeInterface>(&self, interface: &mut V) -> (done: bool)
        ensures
            old(interface).recording() ==> final(interface).recording() && walked(
                events(self@),
                old(interface).history(),
                final(interface).history(),
                done,
            ),
            forall|origin: V| old(interface).follows(origin) ==> final(interface).follows(origin),
    {
        let above = String::new();
        self.search_below(above.as_str(), true, Ghost(Seq::empty()), interface)
    }

    /// Walks the children of a node. The node lies in the scope `scope`,
    /// whose name is `scope_name`; `top` says that the node is the root.
    fn search_below<V: ClassTreeInterface>(
        &self,
        scope_name: &str,
        top: bool,
        Ghost(scope): Ghost<Seq<Seq<char>>>,
        interface: &mut V,
    ) -> (done: bool)
        requires
            scope_name@ == join(scope),
            top == (scope.len() == 0),
        ensures
            old(interface).recording() ==> final(interface).recording() && walked(
                events_below(self@, scope, self@.children.len()),
                old(interface).history(),
                final(interface).history(),
                done,
            ),
            forall|origin: V| old(interface).follows(origin) ==> final(interface).follows(origin),
        decreases self, 0int,
    {
        let ghost start = interface.history();
        let ghost tree = self@;
        let mut i: usize = 0;
        proof {
            self.lemma_view();
            lemma_walked_nothing(start);
        }
        while i < self.nodes.len()
            invariant
                i <= self.nodes.len(),
                tree == self@,
                tree.children.len() == self.nodes.len(),
                start == old(interface).history(),
                scope_name@ == join(scope),
                top == (scope.len() == 0),
                old(interface).recording() ==> interface.recording() && walked(
                    events_below(tree, scope, i as nat),
                    start,
                    interface.history(),
                    true,
                ),
                forall|origin: V| old(interface).follows(origin) ==> interface.follows(origin),
            decreases self.nodes.len() - i,
        {
            let ghost between = interface.history();
            let done = self.nodes[i].search_node(scope_name, top, Ghost(scope), interface);
            proof {
                self.lemma_view();
                let so_far = events_below(tree, scope, i as nat);
                let child = node_events(tree.children[i as int], scope);
                assert(so_far + child == events_below(tree, scope, (i + 1) as nat));
                if old(interface).recording() {
                    lemma_walked_then(so_far, child, start, between, interface.history(), done);
                    if !done {
                        lemma_events_below_extends(tree, scope, (i + 1) as nat);
                        lemma_walked_stopped(
                            events_below(tree, scope, (i + 1) as nat),
                            events_rest(tree, scope, (i + 1) as nat),
                            start,
                            interface.history(),
                        );
                    }
                }
            }
            if !done {
                return false;
            }
            i = i + 1;
        }
        true
    }

    /// Walks a node that lies below the root: the node is announced by its
    /// full name, its children are walked, and it is announced again. The
    /// node lies in the scope `above`, whose name is `above_name`; `top` says
    /// that this scope is that of the root.
    fn search_node<V: ClassTreeInterface>(
        &self,
        above_name: &str,
        top: bool,
        Ghost(above): Ghost<Seq<Seq<char>>>,
        interface: &mut V,
    ) -> (done: bool)
        requires
            above_name@ == join(above),
            top == (above.len() == 0),
        ensures
            old(interface).recording() ==> final(interface).recording() && walked(
                node_events(self@, above),
                old(interface).history(),
                final(interface).history(),
                done,
            ),
            forall|origin: V| old(interface).follows(origin) ==> final(interface).follows(origin),
        decreases self, 1int,
    {
        let ghost start = interface.history();
        let ghost tree = self@;
        let ghost scope = above.push(tree.name);
        let ghost enter = seq![Step::Enter(join(scope))];
        let ghost inner = events_below(tree, scope, tree.children.len());
        let ghost leave = seq![Step::Leave(join(scope))];

        let mut full_name = String::from_str(above_name);
        if !top {
            full_name.append("::");
        }
        full_name.append(self.fn_name.as_str());
        proof {
            reveal_strlit("::");
            assert("::"@ =~= separator());
            lemma_join_push(above, tree.name);
            if top {
                assert(above =~= Seq::<Seq<char>>::empty());
                assert(full_name@ =~= tree.name);
            }
            assert(full_name@ == join(scope));
        }

        let go_on = interface.exec_search_before(full_name.as_str());
        proof {
            lemma_walked_one(Step::Enter(join(scope)), start, go_on);
        }
        if !go_on {
            proof {
                if old(interface).recording() {
                    lemma_walked_stopped(enter, inner + leave, start, interface.history());
                }
                assert(enter + (inner + leave) =~= node_events(tree, above));
            }
            return false;
        }
        let ghost entered = interface.history();
        let done = self.search_below(full_name.as_str(), false, Ghost(scope), interface);
        proof {
            if old(interface).recording() {
                lemma_walked_then(enter, inner, start, entered, interface.history(), done);
                if !done {
                    lemma_walked_stopped(enter + inner, leave, start, interface.history());
                }
            }
        }
        if !done {
            return false;
        }
        let ghost walked_through = interface.history();
        let go_on = interface.exec_search_after(full_name.as_str());
        proof {
            if old(interface).recording() {
                lemma_walked_one(Step::Leave(join(scope)), walked_through, go_on);
                lemma_walked_then(
                    enter + inner,
                    leave,
                    start,
                    walked_through,
                    interface.history(),
                    go_on,
                );
            }
        }
        go_on
    }
}

} // verus!
