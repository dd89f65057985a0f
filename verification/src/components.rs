//! Scene components that the engine's logic reads.

use vstd::prelude::*;

verus! {

/// Handle of a scene object: the slot it occupies in every component storage.
pub type Entity = u32;

/// Component defining a link in a hierarchy of components: the object that
/// carries it is a child of `parent`.
#[derive(Debug, Copy, Clone, PartialEq, Eq, Structural)]
pub struct Link {
    parent: Entity,
}

impl Link {
    /// The parent that this link points at.
    pub closed spec fn target(self) -> Entity {
        self.parent
    }

    pub fn new(parent: Entity) -> (link: Self)
        ensures
            link.target() == parent,
    {
        Self { parent }
    }

    pub fn parent_entity(&self) -> (parent: Entity)
        ensures
            parent == self.target(),
    {
        self.parent
    }
}

} // verus!
