//! A sphere-marching renderer over fixed-point arithmetic.
//!
//! Lengths, colours and angles are signed 64-bit integers counted in
//! millionths of a unit, so every frame is a pure function of its inputs and
//! comes out the same on every machine.
pub mod fixed;
pub mod math;
pub mod color;
pub mod primitives;
pub mod utils;
pub mod scene;
pub mod marcher;
pub mod accuracy;
pub mod convergence;
