//! Error values surfaced by the hypergraph operations.

use vstd::prelude::*;

verus! {

/// A structural precondition failure, surfaced to the caller immediately.
///
/// Search misses are not errors; they appear as an absent result value.
#[derive(Debug, Clone, Copy, PartialEq, Eq, Structural)]
pub enum HypergraphError {
    /// A referenced vertex index is absent from the graph.
    VertexNotFound(usize),
    /// An insertion was given zero child indices.
    EmptyPattern,
    /// A split was requested at offset zero or at/after the vertex's end.
    InvalidSplitPosition,
}

} // verus!
