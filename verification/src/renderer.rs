//! The decisions that the renderer takes on plain values: which device and
//! which queue families it picks, how it sets up its swapchain, and what it
//! makes of the events and messages that reach it.

pub mod camera;
pub mod debug;
pub mod device;
pub mod events;
pub mod geometry;
pub mod queues;
pub mod swapchain;

pub use crate::renderer::events::RenderEvent;
