//! Core of a small 3D engine: scene-graph transform synchronisation and the
//! plain decision rules of its renderer and input layers.

pub mod bitset;
pub mod components;
pub mod hierarchy;
pub mod renderer;
pub mod resources;
pub mod storage;
pub mod systems;
pub mod theorems;
