//! The mesh data structure and the queries on it.

pub mod attributes;
pub mod built;
pub mod half_edge;
pub mod orbit;
pub mod raw;
