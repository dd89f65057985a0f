//! Resources shared between the systems of a frame.

use vstd::prelude::*;
use hibitset::BitSet;
use crate::bitset;
use crate::bitset::{index_limit, members};
use crate::components::Entity;

verus! {

/// Resource for signaling that the user has asked to close the game.
#[derive(Debug)]
pub struct ShouldClose(pub bool);

impl Default for ShouldClose {
    fn default() -> (flag: Self)
        ensures
            !flag.0,
    {
        ShouldClose(false)
    }
}

/// Is the main window focused?
#[derive(Debug)]
pub struct FocusGained(pub bool);

impl Default for FocusGained {
    fn default() -> (flag: Self)
        ensures
            !flag.0,
    {
        FocusGained(false)
    }
}

/// The objects whose world transform is out of date.
pub struct DirtyEntities {
    pub dirty: BitSet,
}

impl View for DirtyEntities {
    type V = Set<Entity>;

    open spec fn view(&self) -> Set<Entity> {
        members(self.dirty)
    }
}

impl Default for DirtyEntities {
    fn default() -> (resource: Self)
        ensures
            resource@ == Set::<Entity>::empty(),
    {
        DirtyEntities { dirty: bitset::empty() }
    }
}

impl DirtyEntities {
    /// Marks `entity` as out of date, and says whether it could: a slot at or
    /// beyond the index limit holds no object and cannot be marked.
    pub fn mark(&mut self, entity: Entity) -> (marked: bool)
        ensures
            marked == (entity < index_limit()),
            final(self)@ == if marked {
                old(self)@.insert(entity)
            } else {
                old(self)@
            },
    {
        if entity < index_limit() {
            bitset::add(&mut self.dirty, entity);
            true
        } else {
            false
        }
    }

    /// Whether `entity` is marked.
    pub fn contains(&self, entity: Entity) -> (marked: bool)
        ensures
            marked == self@.contains(entity),
    {
        bitset::contains(&self.dirty, entity)
    }

    /// Unmarks every object.
    pub fn clear(&mut self)
        ensures
            final(self)@ == Set::<Entity>::empty(),
    {
        bitset::clear(&mut self.dirty);
    }
}

} // verus!
