//! Combinatorial core of a symmetric polyhedron folding model: vertices,
//! edges between them (possibly reaching into a rotated copy of the model),
//! and the operations that grow the model polygon by polygon.

pub mod windows;
pub mod graph;
pub mod labels;
pub mod model;
pub mod render;
pub mod controls;
