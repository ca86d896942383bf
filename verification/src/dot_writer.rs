//! The statements of the diagram's text.

pub use crate::output::dot_writer::{edge, end, node, start};
