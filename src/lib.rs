//! Two-dimensional collision geometry on fixed-point integer coordinates: vertex lists,
//! Minkowski differences and support points for GJK, and swept rectangle tests by the slab
//! method with exact rational times of impact.
pub mod gjk;
pub mod point;
pub mod shape;
pub mod support;
pub mod sweep;
