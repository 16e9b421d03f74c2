//! Algorithms that traverse or rewrite the mesh.

pub mod geodesic;
pub mod harmonic_parameterization;
pub mod simplification;
pub mod smoothing;
pub mod subdivision;
