//! The full name of a struct.

use crate::qualified_name::{join, join_segments, views};
use vstd::prelude::*;

verus! {

/// The full name of a struct, held by its segments.
pub struct FullStrcutName {
    name: Vec<String>,
}

impl View for FullStrcutName {
    type V = Seq<Seq<char>>;

    closed spec fn view(&self) -> Seq<Seq<char>> {
        views(self.name@)
    }
}

impl FullStrcutName {
    /// The name without segments.
    pub fn new() -> (name: FullStrcutName)
        ensures
            name@ == Seq::<Seq<char>>::empty(),
    {
        let name = FullStrcutName { name: Vec::new() };
        assert(name@ =~= Seq::<Seq<char>>::empty());
        name
    }

    /// Adds a last segment.
    pub fn push(&mut self, input: &str)
        ensures
            final(self)@ == old(self)@.push(input@),
    {
        self.name.push(input.to_owned());
        assert(self@ =~= old(self)@.push(input@));
    }

    /// Adds a first segment.
    pub fn insert_first(&mut self, input: &str)
        ensures
            final(self)@ == seq![input@] + old(self)@,
    {
        self.name.insert(0, input.to_owned());
        assert(self@ =~= seq![input@] + old(self)@);
    }

    /// The text of the name: its segments joined by `::`.
    pub fn fullname(&self) -> (text: String)
        ensures
            text@ == join(self@),
    {
        join_segments(&self.name)
    }
}

} // verus!
