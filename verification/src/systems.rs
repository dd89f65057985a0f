//! The systems that run once per frame.

pub mod input;
pub mod transform;

pub use crate::systems::transform::TransformSystem;
