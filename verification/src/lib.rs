//! Hexagonal terrain grid of a ski-resort builder: cell heights and surfaces,
//! placed objects, the editing tools that change them, and the whole-number
//! side of building cell meshes.

pub mod hex;
pub mod object;
pub mod grid;
pub mod grid_entity;
pub mod hex_mesh;
