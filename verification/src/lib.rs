//! Half-edge surface meshes with verified topology.
//!
//! The crate holds the combinatorial core of a discrete-differential-geometry
//! toolkit: the half-edge structure, its traversals, its construction from raw
//! index arrays, and the graph algorithms that schedule work over it.  Numeric
//! payloads (positions, lengths, areas) are carried as opaque attributes and
//! are combined only through functions that the caller supplies.

pub mod algorithms;
pub mod error;
pub mod mesh;
pub mod queue;
