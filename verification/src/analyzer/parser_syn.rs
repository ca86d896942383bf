//! The name that a path of the source spells.

use crate::analyzer::datas::FullStrcutName;
use crate::analyzer::syntax::Path;
use crate::qualified_name::{join, views};
use vstd::prelude::*;

verus! {

/// The name of a struct, of a function or of a variable as a path of the
/// source spells it.
pub struct SynStructName {
    path: Path,
}

impl View for SynStructName {
    type V = Seq<Seq<char>>;

    /// The segments of the path.
    closed spec fn view(&self) -> Seq<Seq<char>> {
        views(self.path.segments@)
    }
}

impl SynStructName {
    /// The name that `path` spells.
    pub fn new(path: &Path) -> (name: SynStructName)
        ensures
            name@ == views(path.segments@),
    {
        let mut segments: Vec<String> = Vec::new();
        let mut i: usize = 0;
        while i < path.segments.len()
            invariant
                i <= path.segments.len(),
                segments.len() == i,
                forall|k: int| 0 <= k < i ==> segments@[k]@ == path.segments@[k]@,
            decreases path.segments.len() - i,
        {
            segments.push(path.segments[i].clone());
            i = i + 1;
        }
        let name = SynStructName { path: Path { segments } };
        assert(name@ =~= views(path.segments@));
        name
    }

    /// The name by its segments.
    pub fn name(&self) -> (name: FullStrcutName)
        ensures
            name@ == self@,
    {
        let mut name = FullStrcutName::new();
        let mut i: usize = 0;
        while i < self.path.segments.len()
            invariant
                i <= self.path.segments.len(),
                name@ == self@.take(i as int),
            decreases self.path.segments.len() - i,
        {
            name.push(self.path.segments[i].as_str());
            assert(self@.take(i + 1) =~= self@.take(i as int).push(self@[i as int]));
            i = i + 1;
        }
        assert(self@.take(self@.len() as int) =~= self@);
        name
    }

    /// The text of the name: the segments joined by `::`, and the empty
    /// text where there is none.
    pub fn to_string(&self) -> (text: String)
        ensures
            text@ == join(self@),
    {
        self.path.text()
    }
}

} // verus!
