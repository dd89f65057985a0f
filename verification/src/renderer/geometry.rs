//! Descriptions of the meshes that the renderer can build.

use vstd::prelude::*;

verus! {

/// Primitive shapes
#[derive(Clone, Copy, Debug, PartialEq, Eq, Structural)]
pub enum Shape {
    /// Sphere, number of points around the equator, number of points pole to pole
    Sphere(u32, u32),
    /// Cone, number of subdivisions around the radius, must be > 1
    Cone(u32),
    /// Cube
    Cube,
    /// Cylinder, number of points across the radius
    Cylinder(u32),
    /// Plane, number of subdivisions along x and y axis if given
    Quad(u32, u32),
    /// Capsule, number of subdivides around and across the capsule
    Capsule(u32, u32),
}

} // verus!
