//! A verified geometric engine for a terminal-rendered pseudo-3D game.
//!
//! World quantities (positions, velocities, colors, times) are held in a
//! fixed-point representation: an `i64` counts thousandths of a world unit.
//! On top of that scalar the crate builds 3D vector math, triangle meshes,
//! ray-triangle intersection, a raycasting renderer and a swept axis-aligned
//! box collision resolver.

pub mod camera;
pub mod collider;
pub mod collision;
pub mod enemies;
pub mod fx;
pub mod loader;
pub mod mesh;
pub mod render;
pub mod score;
pub mod tri;
pub mod vec3;
