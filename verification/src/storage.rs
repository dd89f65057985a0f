//! Component storages: one value per object slot, with or without a log of
//! the changes made to it.

use vstd::prelude::*;
use crate::bitset::index_limit;
use crate::components::Entity;

verus! {

/// A change to a tracked storage, tagged with the slot it happened in.
#[derive(Clone, Copy, Debug, PartialEq, Eq, Structural)]
pub enum ComponentEvent {
    /// A value was stored where there was none.
    Inserted(Entity),
    /// The stored value was replaced.
    Modified(Entity),
    /// The stored value was taken away.
    Removed(Entity),
}

/// Why a storage refused a value.
#[derive(Clone, Copy, Debug, PartialEq, Eq, Structural)]
pub enum StorageError {
    /// The slot lies at or beyond the index limit.
    OutOfRange,
}

/// The extent of a storage that had `extent` slots and has made room for slot
/// `entity`.
pub open spec fn extent_with(extent: usize, entity: Entity) -> int {
    if extent <= entity {
        entity + 1
    } else {
        extent as int
    }
}

/// Vector storage: the component of the object in slot `i`, if it has one,
/// sits at index `i`.
pub struct VecStorage<T> {
    slots: Vec<Option<T>>,
}

impl<T> View for VecStorage<T> {
    type V = Map<Entity, T>;

    /// The stored components by slot.
    closed spec fn view(&self) -> Map<Entity, T> {
        Map::new(
            |e: Entity| (e as int) < self.slots@.len() && self.slots@[e as int].is_some(),
            |e: Entity| self.slots@[e as int].unwrap(),
        )
    }
}

impl<T: Copy> VecStorage<T> {
    /// One past the largest slot that holds a component, or ever did.
    pub closed spec fn spec_extent(&self) -> usize {
        self.slots.len()
    }

    /// Every occupied slot lies below the extent, and the extent within
    /// the index limit.
    pub open spec fn wf(&self) -> bool {
        &&& self.spec_extent() <= index_limit()
        &&& forall|e: Entity| #[trigger] self@.contains_key(e) ==> e < self.spec_extent()
    }

    /// The component in slot `entity`, if there is one.
    pub open spec fn value(&self, entity: Entity) -> Option<T> {
        if self@.contains_key(entity) {
            Some(self@[entity])
        } else {
            None
        }
    }

    /// A storage that holds nothing.
    pub fn new() -> (storage: Self)
        ensures
            storage.wf(),
            storage@ == Map::<Entity, T>::empty(),
            storage.spec_extent() == 0,
    {
        let storage = VecStorage { slots: Vec::new() };
        assert(storage@ =~= Map::<Entity, T>::empty());
        storage
    }

    /// One past the largest slot that holds a component, or ever did.
    #[verifier::when_used_as_spec(spec_extent)]
    pub fn extent(&self) -> (extent: usize)
        ensures
            extent == self.spec_extent(),
    {
        self.slots.len()
    }

    /// Whether slot `entity` holds a component.
    pub fn contains(&self, entity: Entity) -> (present: bool)
        ensures
            present == self@.contains_key(entity),
    {
        (entity as usize) < self.slots.len() && self.slots[entity as usize].is_some()
    }

    /// The component in slot `entity`.
    pub fn get(&self, entity: Entity) -> (component: Option<T>)
        ensures
            component == self.value(entity),
    {
        if (entity as usize) < self.slots.len() {
            self.slots[entity as usize]
        } else {
            None
        }
    }

    /// Stores `component` in slot `entity` and hands back what the slot held.
    /// A slot at or beyond the index limit is refused.
    pub fn insert(&mut self, entity: Entity, component: T) -> (result: Result<
        Option<T>,
        StorageError,
    >)
        requires
            old(self).wf(),
        ensures
            final(self).wf(),
            if entity < index_limit() {
                &&& result == Ok::<Option<T>, StorageError>(old(self).value(entity))
                &&& final(self)@ == old(self)@.insert(entity, component)
                &&& final(self).spec_extent() == extent_with(old(self).spec_extent(), entity)
            } else {
                &&& result == Err::<Option<T>, StorageError>(StorageError::OutOfRange)
                &&& *final(self) == *old(self)
            },
    {
        if entity >= index_limit() {
            return Err(StorageError::OutOfRange);
        }
        let previous = self.get(entity);
        while self.slots.len() <= entity as usize
            invariant
                entity < index_limit(),
                self.slots@.len() <= index_limit(),
                self.slots@.len() >= old(self).slots@.len(),
                self.slots@.len() <= entity + 1 || self.slots@.len() == old(self).slots@.len(),
                self@ =~= old(self)@,
            decreases entity + 1 - self.slots.len(),
        {
            self.slots.push(None);
        }
        self.slots.set(entity as usize, Some(component));
        assert(self@ =~= old(self)@.insert(entity, component));
        Ok(previous)
    }

    /// Empties slot `entity` and hands back what it held.
    pub fn remove(&mut self, entity: Entity) -> (component: Option<T>)
        requires
            old(self).wf(),
        ensures
            final(self).wf(),
            component == old(self).value(entity),
            final(self)@ == old(self)@.remove(entity),
            final(self).spec_extent() == old(self).spec_extent(),
    {
        let previous = self.get(entity);
        if (entity as usize) < self.slots.len() {
            self.slots.set(entity as usize, None);
        }
        assert(self@ =~= old(self)@.remove(entity));
        previous
    }
}

/// Wrapper storage that tracks modifications, insertions, and removals of
/// components, in the order in which they were made.
pub struct FlaggedStorage<T> {
    inner: VecStorage<T>,
    channel: Vec<ComponentEvent>,
}

impl<T> View for FlaggedStorage<T> {
    type V = Map<Entity, T>;

    /// The stored components by slot. The log is not part of the view: it is
    /// `events()`.
    closed spec fn view(&self) -> Map<Entity, T> {
        self.inner@
    }
}

impl<T: Copy> FlaggedStorage<T> {
    /// Every change made so far, oldest first.
    pub closed spec fn events(&self) -> Seq<ComponentEvent> {
        self.channel@
    }

    /// One past the largest slot that holds a component, or ever did.
    pub closed spec fn spec_extent(&self) -> usize {
        self.inner.spec_extent()
    }

    /// Every occupied slot lies below the extent, and the extent within
    /// the index limit.
    pub open spec fn wf(&self) -> bool {
        &&& self.spec_extent() <= index_limit()
        &&& forall|e: Entity| #[trigger] self@.contains_key(e) ==> e < self.spec_extent()
    }

    /// The component in slot `entity`, if there is one.
    pub open spec fn value(&self, entity: Entity) -> Option<T> {
        if self@.contains_key(entity) {
            Some(self@[entity])
        } else {
            None
        }
    }

    /// A storage that holds nothing and has logged nothing.
    pub fn new() -> (storage: Self)
        ensures
            storage.wf(),
            storage@ == Map::<Entity, T>::empty(),
            storage.events() == Seq::<ComponentEvent>::empty(),
            storage.spec_extent() == 0,
    {
        FlaggedStorage { inner: VecStorage::new(), channel: Vec::new() }
    }

    /// One past the largest slot that holds a component, or ever did.
    #[verifier::when_used_as_spec(spec_extent)]
    pub fn extent(&self) -> (extent: usize)
        ensures
            extent == self.spec_extent(),
    {
        self.inner.extent()
    }

    /// Whether slot `entity` holds a component.
    pub fn contains(&self, entity: Entity) -> (present: bool)
        ensures
            present == self@.contains_key(entity),
    {
        self.inner.contains(entity)
    }

    /// The component in slot `entity`.
    pub fn get(&self, entity: Entity) -> (component: Option<T>)
        ensures
            component == self.value(entity),
    {
        self.inner.get(entity)
    }

    /// The log of changes, for reading from a cursor.
    pub fn channel(&self) -> (log: &Vec<ComponentEvent>)
        ensures
            log@ == self.events(),
    {
        &self.channel
    }

    /// Stores `component` in slot `entity` and hands back what the slot held.
    /// The log gains `Inserted` where the slot was empty and `Modified` where
    /// it was not. A slot at or beyond the index limit is refused.
    pub fn insert(&mut self, entity: Entity, component: T) -> (result: Result<
        Option<T>,
        StorageError,
    >)
        requires
            old(self).wf(),
        ensures
            final(self).wf(),
            if entity < index_limit() {
                &&& result == Ok::<Option<T>, StorageError>(old(self).value(entity))
                &&& final(self)@ == old(self)@.insert(entity, component)
                &&& final(self).spec_extent() == extent_with(old(self).spec_extent(), entity)
                &&& final(self).events() == old(self).events().push(
                    if old(self)@.contains_key(entity) {
                        ComponentEvent::Modified(entity)
                    } else {
                        ComponentEvent::Inserted(entity)
                    },
                )
            } else {
                &&& result == Err::<Option<T>, StorageError>(StorageError::OutOfRange)
                &&& *final(self) == *old(self)
            },
    {
        let result = self.inner.insert(entity, component);
        match result {
            Ok(Some(_)) => {
                self.channel.push(ComponentEvent::Modified(entity));
            },
            Ok(None) => {
                self.channel.push(ComponentEvent::Inserted(entity));
            },
            Err(_) => {},
        }
        result
    }

    /// Empties slot `entity` and hands back what it held. The log gains
    /// `Removed` where the slot held a component.
    pub fn remove(&mut self, entity: Entity) -> (component: Option<T>)
        requires
            old(self).wf(),
        ensures
            final(self).wf(),
            component == old(self).value(entity),
            final(self)@ == old(self)@.remove(entity),
            final(self).spec_extent() == old(self).spec_extent(),
            final(self).events() == if old(self)@.contains_key(entity) {
                old(self).events().push(ComponentEvent::Removed(entity))
            } else {
                old(self).events()
            },
    {
        let previous = self.inner.remove(entity);
        if previous.is_some() {
            self.channel.push(ComponentEvent::Removed(entity));
        }
        previous
    }
}

} // verus!
