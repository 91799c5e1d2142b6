//! A Barnes-Hut gravity simulation core: point masses, a quadtree spatial
//! index with far-field force approximation, a semi-implicit Euler
//! integrator, a proximity-based collision resolver, and a galaxy seeder.
//!
//! All state is held in plain integers (fixed-point world units), so every
//! tick of the simulation is an exact, verified function of the previous
//! state and the configured constants.

pub mod circle;
pub mod config;
pub mod particle;
pub mod quadtree;
pub mod rectangle;
pub mod utils;
pub mod vec2;
