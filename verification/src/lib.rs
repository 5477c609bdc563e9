//! Geometric and algebraic primitives: numeric vectors with component-wise
//! arithmetic and metric operations, 2-D half-plane tests, polygons with
//! cyclic vertex indexing and a turning-sign self-intersection heuristic,
//! and an indexed-face polyhedron container.

pub mod base;
