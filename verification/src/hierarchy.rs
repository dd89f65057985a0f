//! The hierarchy index: for every object its current parent and, derived from
//! that, its ancestors and descendants, together with a log of every change.
//!
//! The parent links always form a forest. Operations that would close a cycle
//! are rejected, and a rank that strictly decreases from child to parent is
//! carried along as the witness.

use vstd::prelude::*;
use hibitset::BitSet;
use crate::bitset;
use crate::bitset::{index_limit, intact, members};
use crate::components::{Entity, Link};

verus! {

/// Hierarchy events, in the order in which the index recorded them.
#[derive(Clone, Copy, Debug, PartialEq, Eq, Structural)]
pub enum HierarchyEvent {
    /// The object was linked to a parent, moved to another one, or detached.
    Modified(Entity),
    /// The object has left the scene.
    Removed(Entity),
}

/// Why the index refused a link.
#[derive(Clone, Copy, Debug, PartialEq, Eq, Structural)]
pub enum HierarchyError {
    /// The child or the parent lies at or beyond the index limit.
    OutOfRange,
    /// The parent is the child itself or one of its descendants.
    Cycle,
}

/// Scene graph hierarchy.
pub struct Hierarchy {
    parents: Vec<Option<Entity>>,
    changed: Vec<HierarchyEvent>,
    rank: Ghost<Seq<nat>>,
}

impl Hierarchy {
    /// The current parent of `entity`, if it has one.
    pub closed spec fn parent_of(&self, entity: Entity) -> Option<Entity> {
        if (entity as int) < self.parents@.len() {
            self.parents@[entity as int]
        } else {
            None
        }
    }

    /// A measure that is strictly smaller for a parent than for its child.
    pub closed spec fn rank(&self, entity: Entity) -> nat {
        if (entity as int) < self.rank@.len() {
            self.rank@[entity as int]
        } else {
            0
        }
    }

    /// Every change recorded so far, oldest first.
    pub closed spec fn events(&self) -> Seq<HierarchyEvent> {
        self.changed@
    }

    /// One past the largest slot that takes part in a link, or ever did.
    pub closed spec fn spec_extent(&self) -> usize {
        self.parents.len()
    }

    /// What the representation maintains besides the forest shape.
    pub closed spec fn inv(&self) -> bool {
        self.rank@.len() == self.parents@.len()
    }

    /// The links form a forest over slots below the index limit.
    pub open spec fn wf(&self) -> bool {
        &&& self.inv()
        &&& self.spec_extent() <= index_limit()
        &&& forall|e: Entity| #[trigger]
            self.parent_of(e).is_some() ==> {
                &&& e < self.spec_extent()
                &&& self.parent_of(e).unwrap() < self.spec_extent()
                &&& self.rank(self.parent_of(e).unwrap()) < self.rank(e)
            }
    }

    /// The chain of ancestors of `entity`, nearest first.
    pub open spec fn ancestors(&self, entity: Entity) -> Seq<Entity>
        decreases self.rank(entity),
        when self.wf()
    {
        match self.parent_of(entity) {
            Some(parent) => seq![parent] + self.ancestors(parent),
            None => Seq::empty(),
        }
    }

    /// Whether `ancestor` lies on the chain from `entity` up to its root.
    pub open spec fn is_ancestor(&self, ancestor: Entity, entity: Entity) -> bool {
        self.ancestors(entity).contains(ancestor)
    }

    /// Every object below `entity`, at any depth. `entity` itself is not one.
    pub open spec fn descendants(&self, entity: Entity) -> Set<Entity> {
        Set::new(|e: Entity| self.is_ancestor(entity, e))
    }

    /// An index without links and with an empty log.
    pub fn new() -> (hierarchy: Self)
        ensures
            hierarchy.wf(),
            hierarchy.events() == Seq::<HierarchyEvent>::empty(),
            hierarchy.spec_extent() == 0,
            forall|e: Entity| hierarchy.parent_of(e).is_none(),
    {
        Hierarchy { parents: Vec::new(), changed: Vec::new(), rank: Ghost(Seq::empty()) }
    }

    /// One past the largest slot that takes part in a link, or ever did.
    #[verifier::when_used_as_spec(spec_extent)]
    pub fn extent(&self) -> (extent: usize)
        ensures
            extent == self.spec_extent(),
    {
        self.parents.len()
    }

    /// Get the parent of a specific entity.
    pub fn parent(&self, entity: Entity) -> (parent: Option<Entity>)
        ensures
            parent == self.parent_of(entity),
    {
        if (entity as usize) < self.parents.len() {
            self.parents[entity as usize]
        } else {
            None
        }
    }

    /// The log of modification events, for reading from a cursor.
    pub fn changed(&self) -> (log: &Vec<HierarchyEvent>)
        ensures
            log@ == self.events(),
    {
        &self.changed
    }
}


impl Hierarchy {
    /// Whether `ancestor` is the parent of `entity`, or the parent of its
    /// parent, and so on up to the root.
    pub fn has_ancestor(&self, entity: Entity, ancestor: Entity) -> (found: bool)
        requires
            self.wf(),
        ensures
            found == self.is_ancestor(ancestor, entity),
    {
        let mut current = entity;
        loop
            invariant
                self.wf(),
                self.is_ancestor(ancestor, entity) == self.is_ancestor(ancestor, current),
            decreases self.rank(current),
        {
            match self.parent(current) {
                None => {
                    return false;
                },
                Some(parent) => {
                    proof {
                        lemma_contains_prepended(parent, self.ancestors(parent), ancestor);
                    }
                    if parent == ancestor {
                        return true;
                    }
                    current = parent;
                },
            }
        }
    }

    /// Get all children of this entity recursively as a `BitSet`.
    ///
    /// This does not include the parent entity you pass in.
    pub fn all_children(&self, entity: Entity) -> (children: BitSet)
        requires
            self.wf(),
        ensures
            members(children) == self.descendants(entity),
            intact(children),
    {
        let mut children = bitset::empty();
        let count = self.parents.len();
        let mut slot: usize = 0;
        while slot < count
            invariant
                self.wf(),
                count == self.parents@.len(),
                slot <= count,
                intact(children),
                members(children) =~= Set::new(
                    |e: Entity| (e as int) < slot && self.is_ancestor(entity, e),
                ),
            decreases count - slot,
        {
            if self.has_ancestor(slot as Entity, entity) {
                bitset::add(&mut children, slot as Entity);
            }
            slot += 1;
        }
        assert(members(children) =~= self.descendants(entity)) by {
            assert forall|e: Entity| self.is_ancestor(entity, e) implies (e as int) < count by {
                if (e as int) >= count {
                    assert(self.parent_of(e).is_none());
                    assert(self.ancestors(e) =~= Seq::<Entity>::empty());
                }
            }
        }
        children
    }
}

impl Hierarchy {
    /// Why linking `child` below `parent` is refused, if it is.
    pub open spec fn refusal(&self, child: Entity, parent: Entity) -> Option<HierarchyError> {
        if child >= index_limit() || parent >= index_limit() {
            Some(HierarchyError::OutOfRange)
        } else if child == parent || self.is_ancestor(child, parent) {
            Some(HierarchyError::Cycle)
        } else {
            None
        }
    }

    /// `self` is `before` with the parent of `child` replaced by `parent`, and
    /// with that change recorded.
    pub open spec fn relinked(
        &self,
        before: &Hierarchy,
        child: Entity,
        parent: Option<Entity>,
    ) -> bool {
        &&& forall|e: Entity| #[trigger]
            self.parent_of(e) == if e == child {
                parent
            } else {
                before.parent_of(e)
            }
        &&& self.events() == before.events().push(HierarchyEvent::Modified(child))
    }

    /// Makes room for every slot below `extent`.
    fn grow(&mut self, extent: usize)
        requires
            old(self).wf(),
            extent <= index_limit(),
        ensures
            final(self).wf(),
            final(self).spec_extent() == if old(self).spec_extent() < extent {
                extent
            } else {
                old(self).spec_extent()
            },
            final(self).events() == old(self).events(),
            forall|e: Entity| final(self).parent_of(e) == old(self).parent_of(e),
            forall|e: Entity| final(self).rank(e) == old(self).rank(e),
    {
        while self.parents.len() < extent
            invariant
                self.inv(),
                self.spec_extent() <= index_limit(),
                self.spec_extent() >= old(self).spec_extent(),
                self.spec_extent() <= extent || self.spec_extent() == old(self).spec_extent(),
                extent <= index_limit(),
                self.events() == old(self).events(),
                forall|e: Entity| self.parent_of(e) == old(self).parent_of(e),
                forall|e: Entity| self.rank(e) == old(self).rank(e),
            decreases extent - self.parents.len(),
        {
            self.parents.push(None);
            self.rank = Ghost(self.rank@.push(0));
        }
        proof {
            lemma_forest_outlives_dropped_links(old(self), self);
        }
    }

    /// Links `child` below the parent that `link` names, replacing any link
    /// that `child` had, and records the change. A link that would close a
    /// cycle, or that names a slot at or beyond the index limit, is refused and
    /// leaves the index as it was.
    pub fn insert(&mut self, child: Entity, link: Link) -> (result: Result<(), HierarchyError>)
        requires
            old(self).wf(),
        ensures
            final(self).wf(),
            match old(self).refusal(child, link.target()) {
                Some(error) => {
                    &&& result == Err::<(), HierarchyError>(error)
                    &&& *final(self) == *old(self)
                },
                None => {
                    &&& result.is_ok()
                    &&& final(self).relinked(old(self), child, Some(link.target()))
                    &&& final(self).spec_extent() == grown(
                        old(self).spec_extent(),
                        child,
                        link.target(),
                    )
                },
            },
    {
        let parent = link.parent_entity();
        if child >= index_limit() || parent >= index_limit() {
            return Err(HierarchyError::OutOfRange);
        }
        if child == parent || self.has_ancestor(parent, child) {
            return Err(HierarchyError::Cycle);
        }
        let needed = if child > parent {
            child as usize + 1
        } else {
            parent as usize + 1
        };
        self.grow(needed);
        let ghost before = *self;
        proof {
            lemma_same_links_same_ancestors(old(self), &before, parent);
            assert(!before.is_ancestor(child, parent));
        }
        self.parents.set(child as usize, Some(parent));
        self.changed.push(HierarchyEvent::Modified(child));
        let ghost lift = before.rank(parent) + 1;
        self.rank = Ghost(
            Seq::new(
                before.rank@.len(),
                |i: int|
                    if i == child || before.is_ancestor(child, i as Entity) {
                        before.rank@[i] + lift
                    } else {
                        before.rank@[i]
                    },
            ),
        );
        proof {
            assert forall|e: Entity| #[trigger] self.parent_of(e).is_some() implies {
                &&& e < self.spec_extent()
                &&& self.parent_of(e).unwrap() < self.spec_extent()
                &&& self.rank(self.parent_of(e).unwrap()) < self.rank(e)
            } by {
                if e != child {
                    let above = before.parent_of(e).unwrap();
                    assert(before.parent_of(e).is_some());
                    lemma_contains_prepended(above, before.ancestors(above), child);
                }
            }
        }
        Ok(())
    }
}

impl Hierarchy {
    /// What the log gains when `entity` leaves the scene: `Removed` for the
    /// object itself, then for each of its descendants in slots below `upto`,
    /// lowest slot first.
    pub open spec fn removal_events(&self, entity: Entity, upto: nat) -> Seq<HierarchyEvent>
        decreases upto,
    {
        if upto == 0 {
            seq![HierarchyEvent::Removed(entity)]
        } else {
            let below = self.removal_events(entity, (upto - 1) as nat);
            if self.is_ancestor(entity, (upto - 1) as Entity) {
                below.push(HierarchyEvent::Removed((upto - 1) as Entity))
            } else {
                below
            }
        }
    }

    /// Whether `e` is `entity`, or a descendant of it in a slot below `upto`.
    pub open spec fn leaves_with(&self, entity: Entity, e: Entity, upto: nat) -> bool {
        e == entity || (e < upto && self.is_ancestor(entity, e))
    }

    /// Takes the link of `child` away, making it a root, and records the
    /// change. Hands back the link, if there was one; where there was none the
    /// index stays as it was.
    pub fn detach(&mut self, child: Entity) -> (link: Option<Link>)
        requires
            old(self).wf(),
        ensures
            final(self).wf(),
            match old(self).parent_of(child) {
                Some(parent) => {
                    &&& link.is_some()
                    &&& link.unwrap().target() == parent
                    &&& final(self).relinked(old(self), child, None)
                    &&& final(self).spec_extent() == old(self).spec_extent()
                },
                None => link.is_none() && *final(self) == *old(self),
            },
    {
        match self.parent(child) {
            None => None,
            Some(parent) => {
                self.parents.set(child as usize, None);
                self.changed.push(HierarchyEvent::Modified(child));
                proof {
                    lemma_forest_outlives_dropped_links(old(self), self);
                }
                Some(Link::new(parent))
            },
        }
    }

    /// Takes `entity` and everything below it out of the hierarchy: each of
    /// them loses its link, and each is recorded as `Removed`, the object
    /// itself first and its descendants after it in the order of their slots.
    pub fn remove(&mut self, entity: Entity)
        requires
            old(self).wf(),
        ensures
            final(self).wf(),
            forall|e: Entity| #[trigger]
                final(self).parent_of(e) == if e == entity || old(self).is_ancestor(entity, e) {
                    None
                } else {
                    old(self).parent_of(e)
                },
            final(self).events() == old(self).events() + old(self).removal_events(
                entity,
                old(self).spec_extent() as nat,
            ),
            final(self).spec_extent() == old(self).spec_extent(),
    {
        let below = self.all_children(entity);
        let count = self.parents.len();
        self.changed.push(HierarchyEvent::Removed(entity));
        if (entity as usize) < count {
            self.parents.set(entity as usize, None);
        }
        assert(self.events() =~= old(self).events() + old(self).removal_events(entity, 0));
        let mut slot: usize = 0;
        while slot < count
            invariant
                old(self).wf(),
                self.inv(),
                slot <= count,
                count == self.parents@.len(),
                count == old(self).spec_extent(),
                members(below) == old(self).descendants(entity),
                forall|e: Entity| self.rank(e) == old(self).rank(e),
                forall|e: Entity| #[trigger]
                    self.parent_of(e) == if old(self).leaves_with(entity, e, slot as nat) {
                        None
                    } else {
                        old(self).parent_of(e)
                    },
                self.events() =~= old(self).events() + old(self).removal_events(
                    entity,
                    slot as nat,
                ),
            decreases count - slot,
        {
            let ghost earlier = *self;
            assert(old(self).descendants(entity).contains(slot as Entity) 
                == old(self).is_ancestor(entity, slot as Entity));
            if bitset::contains(&below, slot as Entity) {
                self.parents.set(slot, None);
                self.changed.push(HierarchyEvent::Removed(slot as Entity));
            }
            assert forall|e: Entity| #[trigger]
                self.parent_of(e) == if old(self).leaves_with(entity, e, (slot + 1) as nat) {
                    None
                } else {
                    old(self).parent_of(e)
                } by {
                assert(earlier.parent_of(e) == if old(self).leaves_with(entity, e, slot as nat) {
                    None
                } else {
                    old(self).parent_of(e)
                });
            }
            assert forall|e: Entity| self.rank(e) == old(self).rank(e) by {
                assert(earlier.rank(e) == old(self).rank(e));
            }
            slot += 1;
        }
        proof {
            assert forall|e: Entity| #[trigger]
                self.parent_of(e) == if e == entity || old(self).is_ancestor(entity, e) {
                    None
                } else {
                    old(self).parent_of(e)
                } by {
                if old(self).is_ancestor(entity, e) {
                    lemma_ancestor_within_extent(old(self), entity, e);
                }
            }
            lemma_forest_outlives_dropped_links(old(self), self);
        }
    }
}

/// An index stays a forest when it loses links and gains none, whatever room
/// it makes within the index limit.
proof fn lemma_forest_outlives_dropped_links(before: &Hierarchy, after: &Hierarchy)
    requires
        before.wf(),
        after.inv(),
        before.spec_extent() <= after.spec_extent() <= index_limit(),
        forall|e: Entity| after.rank(e) == before.rank(e),
        forall|e: Entity| #[trigger]
            after.parent_of(e).is_some() ==> after.parent_of(e) == before.parent_of(e),
    ensures
        after.wf(),
{
    assert forall|e: Entity| #[trigger] after.parent_of(e).is_some() implies {
        &&& e < after.spec_extent()
        &&& after.parent_of(e).unwrap() < after.spec_extent()
        &&& after.rank(after.parent_of(e).unwrap()) < after.rank(e)
    } by {
        assert(before.parent_of(e).is_some());
    }
}

/// The extent of an index that had `extent` slots and has made room for
/// `child` and `parent`.
pub open spec fn grown(extent: usize, child: Entity, parent: Entity) -> int {
    let needed = if child > parent {
        child + 1
    } else {
        parent + 1
    };
    if extent < needed {
        needed
    } else {
        extent as int
    }
}

/// The ancestors of an object depend only on the links of the object itself
/// and of those ancestors.
pub proof fn lemma_same_links_same_ancestors(a: &Hierarchy, b: &Hierarchy, entity: Entity)
    requires
        a.wf(),
        b.wf(),
        a.parent_of(entity) == b.parent_of(entity),
        forall|x: Entity| a.is_ancestor(x, entity) ==> a.parent_of(x) == b.parent_of(x),
    ensures
        a.ancestors(entity) == b.ancestors(entity),
    decreases a.rank(entity),
{
    match a.parent_of(entity) {
        None => {},
        Some(parent) => {
            lemma_contains_prepended(parent, a.ancestors(parent), parent);
            assert forall|x: Entity| a.is_ancestor(x, parent) implies a.parent_of(x)
                == b.parent_of(x) by {
                lemma_contains_prepended(parent, a.ancestors(parent), x);
            }
            lemma_same_links_same_ancestors(a, b, parent);
        },
    }
}

/// Whatever has a descendant occupies a slot below the extent, and so does
/// the descendant.
pub proof fn lemma_ancestor_within_extent(hierarchy: &Hierarchy, ancestor: Entity, entity: Entity)
    requires
        hierarchy.wf(),
        hierarchy.is_ancestor(ancestor, entity),
    ensures
        ancestor < hierarchy.spec_extent(),
        entity < hierarchy.spec_extent(),
    decreases hierarchy.rank(entity),
{
    match hierarchy.parent_of(entity) {
        None => {},
        Some(parent) => {
            lemma_contains_prepended(parent, hierarchy.ancestors(parent), ancestor);
            if parent != ancestor {
                lemma_ancestor_within_extent(hierarchy, ancestor, parent);
            }
        },
    }
}

/// An element is in `first` followed by `rest` exactly if it is `first` or in
/// `rest`.
pub proof fn lemma_contains_prepended(first: Entity, rest: Seq<Entity>, wanted: Entity)
    ensures
        (seq![first] + rest).contains(wanted) <==> (first == wanted || rest.contains(wanted)),
{
    let whole = seq![first] + rest;
    if whole.contains(wanted) {
        let i = choose|i: int| 0 <= i < whole.len() && whole[i] == wanted;
        if i > 0 {
            assert(rest[i - 1] == wanted);
        }
    }
    if first == wanted {
        assert(whole[0] == wanted);
    }
    if rest.contains(wanted) {
        let j = choose|j: int| 0 <= j < rest.len() && rest[j] == wanted;
        assert(whole[j + 1] == wanted);
    }
}

} // verus!
