//! An in-memory hierarchical sequence index: a hypergraph that stores
//! variable-length token sequences as a directed acyclic structure of
//! composite vertices, each carrying one or more alternative decompositions
//! ("patterns") into smaller vertices.  The graph supports bottom-up
//! insertion of atomic tokens and composite patterns, a climbing search for
//! sub-sequences, and splitting a vertex at an arbitrary token offset.

pub mod assoc;
pub mod currency;
pub mod error;
pub mod graph;
pub mod insert;
pub mod search;
pub mod split;
pub mod text;
pub mod vertex;
