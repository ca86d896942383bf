//! The diagram of a call graph whose clusters are its modules.

pub mod create_dot_graph;
pub mod dot_writer;
