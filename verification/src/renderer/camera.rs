//! Camera markers.

use vstd::prelude::*;

verus! {

/// Marks the camera that the scene is drawn from.
#[derive(Clone, Copy, Debug, PartialEq, Eq, Structural)]
pub struct ActiveCamera;

impl Default for ActiveCamera {
    fn default() -> (marker: Self)
        ensures
            marker == ActiveCamera,
    {
        ActiveCamera
    }
}

} // verus!
