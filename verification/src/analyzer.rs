//! The analysis of source files: from syntax to the edges of a call graph.

pub mod callgraph;
pub mod datas;
pub mod function;
pub mod name_resolver;
pub mod parser_syn;
pub mod project_infomation;
pub mod syntax;

use crate::analyzer::callgraph::{after_file, start_of, AnalyzerCallGraph};
use crate::analyzer::syntax::File;
use crate::call_data::{edges_of, CallInfo, Edge};
use vstd::prelude::*;

verus! {

/// A source file that has been read: the name of its module, and its
/// syntax.
pub struct SourceUnit {
    pub module_name: String,
    pub syntax: File,
}

/// The edges of a source file: what a walk over it finds, begun in its
/// module.
pub open spec fn edges_in(unit: SourceUnit) -> Seq<Edge> {
    after_file(start_of(unit.module_name@), unit.syntax).calls
}

/// The edges of the first `count` source files, file after file.
pub open spec fn edges_found(files: Seq<SourceUnit>, count: nat) -> Seq<Edge>
    decreases count,
{
    if count == 0 {
        Seq::empty()
    } else {
        edges_found(files, (count - 1) as nat) + edges_in(files[count - 1])
    }
}

/// The call graph of a list of source files: the edges of each file, in the
/// order of the files and of the source.
pub fn analyze(files: &Vec<SourceUnit>) -> (result: Vec<CallInfo>)
    ensures
        edges_of(result@) == edges_found(files@, files@.len()),
{
    let mut result: Vec<CallInfo> = Vec::new();
    let mut i: usize = 0;
    assert(edges_of(result@) =~= edges_found(files@, 0));
    while i < files.len()
        invariant
            i <= files.len(),
            edges_of(result@) == edges_found(files@, i as nat),
        decreases files.len() - i,
    {
        let unit = &files[i];
        let mut analyzer = AnalyzerCallGraph::new(unit.module_name.clone());
        analyzer.visit_file(&unit.syntax);
        let mut calls = analyzer.get_callinfo();
        let ghost before = edges_of(result@);
        let ghost found = edges_of(calls@);
        result.append(&mut calls);
        assert(edges_of(result@) =~= before + found);
        i = i + 1;
    }
    result
}

} // verus!
