//! A class name that grows and shrinks by segments.

use crate::qualified_name::{join, join_segments, split, split_segments, views};
use vstd::prelude::*;

verus! {

/// A qualified name held by its segments. It can follow a path through
/// nested scopes: a segment is pushed on the way into a scope and popped on
/// the way out.
#[derive(Debug, PartialEq)]
pub struct ClassName {
    names: Vec<String>,
}

impl View for ClassName {
    type V = Seq<Seq<char>>;

    closed spec fn view(&self) -> Seq<Seq<char>> {
        views(self.names@)
    }
}

impl ClassName {
    /// The name without segments.
    pub fn new() -> (name: ClassName)
        ensures
            name@ == Seq::<Seq<char>>::empty(),
    {
        let name = ClassName { names: Vec::new() };
        assert(name@ =~= Seq::<Seq<char>>::empty());
        name
    }

    /// The name that a text spells: its segments are what stands between
    /// the separators.
    pub fn new_for_str(name: &str) -> (parsed: ClassName)
        ensures
            parsed@ == split(name@),
    {
        ClassName { names: split_segments(name) }
    }

    /// The text of the name.
    pub fn name(&self) -> (text: String)
        ensures
            text@ == join(self@),
    {
        join_segments(&self.names)
    }

    /// Adds a last segment.
    pub fn push(&mut self, name: &str)
        ensures
            final(self)@ == old(self)@.push(name@),
    {
        self.names.push(name.to_owned());
        assert(self@ =~= old(self)@.push(name@));
    }

    /// Takes the last segment off, if there is one.
    pub fn pop(&mut self) -> (last: Option<String>)
        ensures
            old(self)@.len() == 0 ==> last is None && final(self)@ == old(self)@,
            old(self)@.len() > 0 ==> last is Some && last->0@ == old(self)@.last(),
            old(self)@.len() > 0 ==> final(self)@ == old(self)@.drop_last(),
    {
        let last = self.names.pop();
        assert(old(self)@.len() > 0 ==> self@ =~= old(self)@.drop_last());
        assert(old(self)@.len() == 0 ==> self@ =~= old(self)@);
        last
    }
}

} // verus!
