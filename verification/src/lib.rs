//! Procedural terrain with verified hydraulic erosion.
//!
//! All physical quantities (coordinates, heights, water depths, rates and
//! simulation time) are signed 64-bit fixed-point numbers with a scale of
//! one million units per whole unit, so every arithmetic step in the model
//! has an exact, machine-checked description.

pub mod fixed;
pub mod point;
pub mod point_gen;
mod rng;
pub mod terrain;
pub mod flow;
pub mod default_flow;
pub mod laws;
