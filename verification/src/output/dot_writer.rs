//! The statements of the diagram's text.

use crate::qualified_name::{escape, escape_for_id, label_of, last_segment};
use vstd::prelude::*;
use vstd::string::*;

verus! {

/// The head of a diagram.
pub open spec fn start_text() -> Seq<char> {
    "digraph G {\n rankdir=LR;\n"@
}

/// The foot of a diagram, and of a cluster.
pub open spec fn end_text() -> Seq<char> {
    "}\n"@
}

/// The statement that gives a node its label: the identifier that stands
/// for the name, and the name's last segment as the label.
pub open spec fn node_text(name: Seq<char>) -> Seq<char> {
    escape(name) + " [label=\""@ + last_segment(name) + "\"]\n"@
}

/// The statement that draws an edge.
pub open spec fn edge_text(source: Seq<char>, dest: Seq<char>) -> Seq<char> {
    escape(source) + " -> "@ + escape(dest) + "\n"@
}

/// The statement that places a node.
pub open spec fn single_edge_text(source: Seq<char>) -> Seq<char> {
    escape(source) + "\n"@
}

/// The character of a decimal digit.
pub open spec fn digit(value: nat) -> char {
    if value == 0 {
        '0'
    } else if value == 1 {
        '1'
    } else if value == 2 {
        '2'
    } else if value == 3 {
        '3'
    } else if value == 4 {
        '4'
    } else if value == 5 {
        '5'
    } else if value == 6 {
        '6'
    } else if value == 7 {
        '7'
    } else if value == 8 {
        '8'
    } else {
        '9'
    }
}

/// A number in decimal digits, without leading zeros.
pub open spec fn decimal(value: nat) -> Seq<char>
    decreases value,
{
    if value < 10 {
        seq![digit(value)]
    } else {
        decimal(value / 10).push(digit(value % 10))
    }
}

/// The head of a cluster: its number and its label.
pub open spec fn cluster_start_text(number: nat, name: Seq<char>) -> Seq<char> {
    "subgraph cluster_"@ + decimal(number) + " {\nlabel=\""@ + name + "\"\n"@
}

fn digit_text(value: usize) -> (text: &'static str)
    requires
        value < 10,
    ensures
        text@ == seq![digit(value as nat)],
{
    proof {
        reveal_strlit("0");
        reveal_strlit("1");
        reveal_strlit("2");
        reveal_strlit("3");
        reveal_strlit("4");
        reveal_strlit("5");
        reveal_strlit("6");
        reveal_strlit("7");
        reveal_strlit("8");
        reveal_strlit("9");
    }
    let text = if value == 0 {
        "0"
    } else if value == 1 {
        "1"
    } else if value == 2 {
        "2"
    } else if value == 3 {
        "3"
    } else if value == 4 {
        "4"
    } else if value == 5 {
        "5"
    } else if value == 6 {
        "6"
    } else if value == 7 {
        "7"
    } else if value == 8 {
        "8"
    } else {
        "9"
    };
    assert(text@ =~= seq![digit(value as nat)]);
    text
}

/// A number in decimal digits.
pub fn decimal_text(value: usize) -> (text: String)
    ensures
        text@ == decimal(value as nat),
    decreases value,
{
    if value < 10 {
        String::from_str(digit_text(value))
    } else {
        let mut text = decimal_text(value / 10);
        text.append(digit_text(value % 10));
        assert(text@ =~= decimal(value as nat));
        text
    }
}

/// Numbers the clusters of a diagram.
pub struct DotWriter {
    cluster_counter: usize,
}

impl DotWriter {
    /// The number that the next cluster gets.
    pub closed spec fn next_number(&self) -> nat {
        self.cluster_counter as nat
    }

    /// A writer whose first cluster gets the number 0.
    pub fn new() -> (writer: DotWriter)
        ensures
            writer.next_number() == 0,
    {
        DotWriter { cluster_counter: 0 }
    }

    /// The number that the next cluster gets.
    pub fn number(&self) -> (number: usize)
        ensures
            number == self.next_number(),
    {
        self.cluster_counter
    }

    /// The head of the next cluster.
    pub fn start_cluster(&mut self, cluster_name: &str) -> (text: String)
        requires
            old(self).next_number() < usize::MAX,
        ensures
            text@ == cluster_start_text(old(self).next_number(), cluster_name@),
            final(self).next_number() == old(self).next_number() + 1,
    {
        let mut result = String::from_str("subgraph cluster_");
        let number = decimal_text(self.cluster_counter);
        result.append(number.as_str());
        result.append(" {\nlabel=\"");
        result.append(cluster_name);
        result.append("\"\n");
        self.cluster_counter = self.cluster_counter + 1;
        result
    }

    /// The foot of a cluster.
    pub fn end_cluster(&self) -> (text: String)
        ensures
            text@ == end_text(),
    {
        String::from_str("}\n")
    }
}

/// The head of a diagram.
pub fn start() -> (text: String)
    ensures
        text@ == start_text(),
{
    String::from_str("digraph G {\n rankdir=LR;\n")
}

/// The foot of a diagram.
pub fn end() -> (text: String)
    ensures
        text@ == end_text(),
{
    String::from_str("}\n")
}

/// The statement that gives a node its label.
pub fn node(name: &str) -> (text: String)
    ensures
        text@ == node_text(name@),
{
    let mut text = escape_for_id(name);
    let label = label_of(name);
    text.append(" [label=\"");
    text.append(label.as_str());
    text.append("\"]\n");
    text
}

/// The statement that draws an edge from `source` to `dest`.
pub fn edge(source: &str, dest: &str) -> (text: String)
    ensures
        text@ == edge_text(source@, dest@),
{
    let mut text = escape_for_id(source);
    let to = escape_for_id(dest);
    text.append(" -> ");
    text.append(to.as_str());
    text.append("\n");
    text
}

/// The statement that places a node.
pub fn single_edge(source: &str) -> (text: String)
    ensures
        text@ == single_edge_text(source@),
{
    let mut text = escape_for_id(source);
    text.append("\n");
    text
}

} // verus!
