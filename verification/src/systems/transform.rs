//! Keeps the world transform of every object in step with its local transform
//! and its place in the hierarchy.

use vstd::prelude::*;
use crate::bitset;
use crate::bitset::{index_limit, members};
use crate::components::Entity;
use crate::hierarchy::{lemma_ancestor_within_extent, Hierarchy, HierarchyEvent};
use crate::resources::DirtyEntities;
use crate::storage::{ComponentEvent, FlaggedStorage, VecStorage};

verus! {

/// `world` is what comes out when `start` is combined with each transform of
/// `outer` in turn: the value so far goes in on the left, the next transform of
/// `outer` on the right.
pub open spec fn composed<T, F: Fn(T, T) -> T>(
    combine: F,
    start: T,
    outer: Seq<T>,
    world: T,
) -> bool
    decreases outer.len(),
{
    if outer.len() == 0 {
        world == start
    } else {
        exists|next: T| #[trigger]
            combine.ensures((start, outer[0]), next) && composed(
                combine,
                next,
                outer.drop_first(),
                world,
            )
    }
}

/// Combined with nothing, a transform stays what it is.
pub proof fn lemma_composed_alone<T, F: Fn(T, T) -> T>(combine: F, start: T, world: T)
    ensures
        composed(combine, start, Seq::<T>::empty(), world) <==> world == start,
{
}

/// Combined with one outer transform, the result is whatever one call of
/// `combine` gives, the local transform on the left and the outer one on the
/// right.
pub proof fn lemma_composed_once<T, F: Fn(T, T) -> T>(combine: F, start: T, outer: T, world: T)
    ensures
        composed(combine, start, seq![outer], world) <==> combine.ensures((start, outer), world),
{
    let chain = seq![outer];
    assert(chain.drop_first() =~= Seq::<T>::empty());
    assert(chain[0] == outer);
    if composed(combine, start, chain, world) {
        let next = choose|next: T| #[trigger]
            combine.ensures((start, chain[0]), next) && composed(
                combine,
                next,
                chain.drop_first(),
                world,
            );
        lemma_composed_alone(combine, next, world);
    }
    if combine.ensures((start, outer), world) {
        lemma_composed_alone(combine, world, world);
        assert(combine.ensures((start, chain[0]), world) && composed(
            combine,
            world,
            chain.drop_first(),
            world,
        ));
    }
}

/// The local transforms of the ancestors of `entity`, nearest first. An
/// ancestor without a local transform contributes nothing.
pub open spec fn ancestor_transforms<T>(
    hierarchy: &Hierarchy,
    transforms: Map<Entity, T>,
    entity: Entity,
) -> Seq<T>
    decreases hierarchy.rank(entity),
    when hierarchy.wf()
{
    match hierarchy.parent_of(entity) {
        None => Seq::empty(),
        Some(parent) => {
            let above = ancestor_transforms(hierarchy, transforms, parent);
            if transforms.contains_key(parent) {
                seq![transforms[parent]] + above
            } else {
                above
            }
        },
    }
}

/// The part of a log that a reader at position `read` has not seen yet.
pub open spec fn pending<E>(log: Seq<E>, read: int) -> Seq<E> {
    log.subrange(read, log.len() as int)
}

/// The objects that `events` report as inserted or modified. A slot at or
/// beyond the index limit holds no object, so events that name one are left
/// out.
pub open spec fn inserted_or_modified(events: Seq<ComponentEvent>) -> Set<Entity> {
    Set::new(
        |e: Entity|
            e < index_limit() && (events.contains(ComponentEvent::Inserted(e)) || events.contains(
                ComponentEvent::Modified(e),
            )),
    )
}

/// The slots whose component `events` report as removed.
pub open spec fn removed_components(events: Seq<ComponentEvent>) -> Set<Entity> {
    Set::new(|e: Entity| events.contains(ComponentEvent::Removed(e)))
}

/// The objects whose parent link `events` report as changed. A slot at or
/// beyond the index limit holds no object, so events that name one are left
/// out.
pub open spec fn relinked(events: Seq<HierarchyEvent>) -> Set<Entity> {
    Set::new(|e: Entity| e < index_limit() && events.contains(HierarchyEvent::Modified(e)))
}

/// The objects that `events` report as gone from the scene.
pub open spec fn departed(events: Seq<HierarchyEvent>) -> Set<Entity> {
    Set::new(|e: Entity| events.contains(HierarchyEvent::Removed(e)))
}

/// The objects that have a local transform but no world transform yet.
pub open spec fn missing_globals<T>(transforms: Map<Entity, T>, globals: Map<Entity, T>) -> Set<
    Entity,
> {
    Set::new(|e: Entity| transforms.contains_key(e) && !globals.contains_key(e))
}

/// `globals`, with a world transform added for every object that has a local
/// transform and lacks one: the identity.
pub open spec fn materialized<T>(
    transforms: Map<Entity, T>,
    globals: Map<Entity, T>,
    identity: T,
) -> Map<Entity, T> {
    Map::new(
        |e: Entity| globals.contains_key(e) || transforms.contains_key(e),
        |e: Entity|
            if globals.contains_key(e) {
                globals[e]
            } else {
                identity
            },
    )
}

/// The world transforms that outlive the two batches of events: those of
/// slots whose transform `moved` does not report as removed, and of objects
/// that `relations` does not report as gone.
pub open spec fn surviving<T>(
    globals: Map<Entity, T>,
    moved: Seq<ComponentEvent>,
    relations: Seq<HierarchyEvent>,
) -> Map<Entity, T> {
    globals.remove_keys(removed_components(moved)).remove_keys(departed(relations))
}

/// `extent` is `before`, raised just far enough to lie above every slot that
/// `held` occupies.
pub open spec fn raised_to_hold<T>(extent: usize, before: usize, held: Map<Entity, T>) -> bool {
    &&& before <= extent
    &&& forall|e: Entity| #[trigger] held.contains_key(e) ==> e < extent
    &&& extent == before || (extent > 0 && held.contains_key((extent - 1) as Entity))
}

/// `marked` together with every descendant of one of its members.
pub open spec fn with_descendants(hierarchy: &Hierarchy, marked: Set<Entity>) -> Set<Entity> {
    Set::new(
        |e: Entity|
            marked.contains(e) || exists|a: Entity|
                marked.contains(a) && #[trigger] hierarchy.is_ancestor(a, e),
    )
}

/// What the transform log gains when the local transforms of the objects that
/// `events` report as gone are taken away, one `Removed` for each transform
/// that was there, in the order of `events`.
pub open spec fn teardown_log<T>(transforms: Map<Entity, T>, events: Seq<HierarchyEvent>) -> Seq<
    ComponentEvent,
>
    decreases events.len(),
{
    if events.len() == 0 {
        Seq::empty()
    } else {
        let earlier = events.drop_last();
        match events.last() {
            HierarchyEvent::Removed(e) if transforms.contains_key(e) && !departed(
                earlier,
            ).contains(e) => teardown_log(transforms, earlier).push(ComponentEvent::Removed(e)),
            _ => teardown_log(transforms, earlier),
        }
    }
}

/// A sequence extended by `last` holds `wanted` exactly if it did before or
/// `last` is `wanted`.
pub proof fn lemma_contains_pushed<A>(events: Seq<A>, last: A, wanted: A)
    ensures
        events.push(last).contains(wanted) <==> (events.contains(wanted) || last == wanted),
{
    let longer = events.push(last);
    if longer.contains(wanted) {
        let i = choose|i: int| 0 <= i < longer.len() && longer[i] == wanted;
        if i < events.len() {
            assert(events[i] == wanted);
        }
    }
    if events.contains(wanted) {
        let i = choose|i: int| 0 <= i < events.len() && events[i] == wanted;
        assert(longer[i] == wanted);
    }
    if last == wanted {
        assert(longer[events.len() as int] == wanted);
    }
}

/// How one more component event changes what a batch reports.
pub proof fn lemma_component_event_pushed(events: Seq<ComponentEvent>, last: ComponentEvent)
    ensures
        removed_components(events.push(last)) == match last {
            ComponentEvent::Removed(id) => removed_components(events).insert(id),
            _ => removed_components(events),
        },
        inserted_or_modified(events.push(last)) == match last {
            ComponentEvent::Inserted(id) | ComponentEvent::Modified(id) => if id < index_limit() {
                inserted_or_modified(events).insert(id)
            } else {
                inserted_or_modified(events)
            },
            ComponentEvent::Removed(_) => inserted_or_modified(events),
        },
{
    let removed = match last {
        ComponentEvent::Removed(id) => removed_components(events).insert(id),
        _ => removed_components(events),
    };
    assert forall|e: Entity|
        removed_components(events.push(last)).contains(e) <==> removed.contains(e) by {
        lemma_contains_pushed(events, last, ComponentEvent::Removed(e));
    }
    assert(removed_components(events.push(last)) =~= removed);
    let touched = match last {
        ComponentEvent::Inserted(id) | ComponentEvent::Modified(id) => if id < index_limit() {
            inserted_or_modified(events).insert(id)
        } else {
            inserted_or_modified(events)
        },
        ComponentEvent::Removed(_) => inserted_or_modified(events),
    };
    assert forall|e: Entity| inserted_or_modified(events.push(last)).contains(e)
        <==> touched.contains(e) by {
        lemma_contains_pushed(events, last, ComponentEvent::Inserted(e));
        lemma_contains_pushed(events, last, ComponentEvent::Modified(e));
    }
    assert(inserted_or_modified(events.push(last)) =~= touched);
}

/// How one more hierarchy event changes what a batch reports.
pub proof fn lemma_hierarchy_event_pushed(events: Seq<HierarchyEvent>, last: HierarchyEvent)
    ensures
        departed(events.push(last)) == match last {
            HierarchyEvent::Removed(id) => departed(events).insert(id),
            HierarchyEvent::Modified(_) => departed(events),
        },
        relinked(events.push(last)) == match last {
            HierarchyEvent::Modified(id) => if id < index_limit() {
                relinked(events).insert(id)
            } else {
                relinked(events)
            },
            HierarchyEvent::Removed(_) => relinked(events),
        },
{
    let gone = match last {
        HierarchyEvent::Removed(id) => departed(events).insert(id),
        HierarchyEvent::Modified(_) => departed(events),
    };
    assert forall|e: Entity| departed(events.push(last)).contains(e) <==> gone.contains(e) by {
        lemma_contains_pushed(events, last, HierarchyEvent::Removed(e));
    }
    assert(departed(events.push(last)) =~= gone);
    let moved = match last {
        HierarchyEvent::Modified(id) => if id < index_limit() {
            relinked(events).insert(id)
        } else {
            relinked(events)
        },
        HierarchyEvent::Removed(_) => relinked(events),
    };
    assert forall|e: Entity| relinked(events.push(last)).contains(e) <==> moved.contains(e) by {
        lemma_contains_pushed(events, last, HierarchyEvent::Modified(e));
    }
    assert(relinked(events.push(last)) =~= moved);
}

/// Reads the transform log from `start`: a removed transform takes the world
/// transform of its slot with it, an inserted or modified one is marked dirty.
fn read_transform_events<T: Copy>(
    events: &Vec<ComponentEvent>,
    start: usize,
    globals: &mut VecStorage<T>,
    dirty_entities: &mut DirtyEntities,
)
    requires
        start <= events.len(),
        old(globals).wf(),
    ensures
        final(globals).wf(),
        final(globals).spec_extent() == old(globals).spec_extent(),
        final(globals)@ == old(globals)@.remove_keys(
            removed_components(pending(events@, start as int)),
        ),
        final(dirty_entities)@ == old(dirty_entities)@.union(
            inserted_or_modified(pending(events@, start as int)),
        ),
{
    let mut at: usize = start;
    assert(events@.subrange(start as int, at as int) =~= Seq::<ComponentEvent>::empty());
    while at < events.len()
        invariant
            start <= at <= events.len(),
            globals.wf(),
            globals.spec_extent() == old(globals).spec_extent(),
            globals@ =~= old(globals)@.remove_keys(
                removed_components(events@.subrange(start as int, at as int)),
            ),
            dirty_entities@ =~= old(dirty_entities)@.union(
                inserted_or_modified(events@.subrange(start as int, at as int)),
            ),
        decreases events.len() - at,
    {
        let event = events[at];
        proof {
            let seen = events@.subrange(start as int, at as int);
            assert(events@.subrange(start as int, at + 1) =~= seen.push(event));
            lemma_component_event_pushed(seen, event);
        }
        match event {
            ComponentEvent::Removed(id) => {
                let _ = globals.remove(id);
            },
            ComponentEvent::Inserted(id) | ComponentEvent::Modified(id) => {
                let _ = dirty_entities.mark(id);
            },
        }
        at += 1;
    }
}

/// Reads the hierarchy log from `start`: an object that is gone loses its
/// local and its world transform, an object whose link changed is marked dirty.
fn read_hierarchy_events<T: Copy>(
    events: &Vec<HierarchyEvent>,
    start: usize,
    transforms: &mut FlaggedStorage<T>,
    globals: &mut VecStorage<T>,
    dirty_entities: &mut DirtyEntities,
)
    requires
        start <= events.len(),
        old(transforms).wf(),
        old(globals).wf(),
    ensures
        final(transforms).wf(),
        final(globals).wf(),
        final(transforms).spec_extent() == old(transforms).spec_extent(),
        final(globals).spec_extent() == old(globals).spec_extent(),
        final(transforms)@ == old(transforms)@.remove_keys(
            departed(pending(events@, start as int)),
        ),
        final(transforms).events() == old(transforms).events() + teardown_log(
            old(transforms)@,
            pending(events@, start as int),
        ),
        final(globals)@ == old(globals)@.remove_keys(departed(pending(events@, start as int))),
        final(dirty_entities)@ == old(dirty_entities)@.union(
            relinked(pending(events@, start as int)),
        ),
{
    let mut at: usize = start;
    assert(events@.subrange(start as int, at as int) =~= Seq::<HierarchyEvent>::empty());
    assert(transforms.events() =~= old(transforms).events() + teardown_log(
        old(transforms)@,
        Seq::<HierarchyEvent>::empty(),
    ));
    while at < events.len()
        invariant
            start <= at <= events.len(),
            transforms.wf(),
            globals.wf(),
            transforms.spec_extent() == old(transforms).spec_extent(),
            globals.spec_extent() == old(globals).spec_extent(),
            transforms@ =~= old(transforms)@.remove_keys(
                departed(events@.subrange(start as int, at as int)),
            ),
            transforms.events() =~= old(transforms).events() + teardown_log(
                old(transforms)@,
                events@.subrange(start as int, at as int),
            ),
            globals@ =~= old(globals)@.remove_keys(
                departed(events@.subrange(start as int, at as int)),
            ),
            dirty_entities@ =~= old(dirty_entities)@.union(
                relinked(events@.subrange(start as int, at as int)),
            ),
        decreases events.len() - at,
    {
        let event = events[at];
        proof {
            let seen = events@.subrange(start as int, at as int);
            let longer = events@.subrange(start as int, at + 1);
            assert(longer =~= seen.push(event));
            assert(longer.drop_last() =~= seen);
            assert(longer.last() == event);
            lemma_hierarchy_event_pushed(seen, event);
        }
        match event {
            HierarchyEvent::Removed(entity) => {
                let _ = transforms.remove(entity);
                let _ = globals.remove(entity);
            },
            HierarchyEvent::Modified(entity) => {
                let _ = dirty_entities.mark(entity);
            },
        }
        at += 1;
    }
}

/// Children of dirty entities are also dirty and need their transforms
/// updated: marks every descendant of every marked object.
fn mark_descendants(hierarchy: &Hierarchy, dirty_entities: &mut DirtyEntities)
    requires
        hierarchy.wf(),
    ensures
        final(dirty_entities)@ == with_descendants(hierarchy, old(dirty_entities)@),
{
    let marked = bitset::duplicate(&dirty_entities.dirty);
    let count = hierarchy.extent();
    let mut slot: usize = 0;
    while slot < count
        invariant
            hierarchy.wf(),
            count == hierarchy.spec_extent(),
            slot <= count,
            members(marked) == old(dirty_entities)@,
            dirty_entities@ =~= Set::new(
                |e: Entity|
                    old(dirty_entities)@.contains(e) || exists|a: Entity|
                        (a as int) < slot && old(dirty_entities)@.contains(a)
                            && #[trigger] hierarchy.is_ancestor(a, e),
            ),
        decreases count - slot,
    {
        let entity = slot as Entity;
        if bitset::contains(&marked, entity) {
            let children = hierarchy.all_children(entity);
            bitset::union_with(&mut dirty_entities.dirty, &children);
            assert forall|e: Entity| members(children).contains(e) implies exists|a: Entity|
                (a as int) < slot + 1 && old(dirty_entities)@.contains(a)
                    && #[trigger] hierarchy.is_ancestor(a, e) by {
                assert(hierarchy.is_ancestor(entity, e));
            }
        }
        slot += 1;
    }
    assert(dirty_entities@ =~= with_descendants(hierarchy, old(dirty_entities)@)) by {
        assert forall|e: Entity, a: Entity|
            old(dirty_entities)@.contains(a) && #[trigger] hierarchy.is_ancestor(
                a,
                e,
            ) implies (a as int) < count by {
            lemma_ancestor_within_extent(hierarchy, a, e);
        }
    }
}

/// `after` is `before` with the world transform of every object of `stale`
/// that has a local transform worked out afresh from the local transforms on
/// its chain of ancestors, and with every other world transform untouched.
pub open spec fn resynced<T, F: Fn(T, T) -> T>(
    combine: F,
    hierarchy: &Hierarchy,
    transforms: Map<Entity, T>,
    stale: Set<Entity>,
    before: Map<Entity, T>,
    after: Map<Entity, T>,
) -> bool {
    &&& after.dom() == before.dom()
    &&& forall|e: Entity| #[trigger]
        after.contains_key(e) ==> if stale.contains(e) && transforms.contains_key(e) {
            composed(
                combine,
                transforms[e],
                ancestor_transforms(hierarchy, transforms, e),
                after[e],
            )
        } else {
            after[e] == before[e]
        }
}

/// Sync all dirty entities and their children.
fn sync_marked<T: Copy, F: Fn(T, T) -> T>(
    hierarchy: &Hierarchy,
    transforms: &FlaggedStorage<T>,
    globals: &mut VecStorage<T>,
    dirty_entities: &DirtyEntities,
    combine: &F,
)
    requires
        hierarchy.wf(),
        old(globals).wf(),
        forall|a: T, b: T| combine.requires((a, b)),
    ensures
        final(globals).wf(),
        final(globals).spec_extent() == old(globals).spec_extent(),
        resynced(
            *combine,
            hierarchy,
            transforms@,
            dirty_entities@,
            old(globals)@,
            final(globals)@,
        ),
{
    let count = globals.extent();
    let mut slot: usize = 0;
    while slot < count
        invariant
            hierarchy.wf(),
            globals.wf(),
            old(globals).wf(),
            count == old(globals).spec_extent(),
            globals.spec_extent() == count,
            slot <= count,
            forall|a: T, b: T| combine.requires((a, b)),
            globals@.dom() =~= old(globals)@.dom(),
            forall|e: Entity| #[trigger]
                globals@.contains_key(e) ==> if (e as int) < slot && dirty_entities@.contains(e)
                    && transforms@.contains_key(e) {
                    composed(
                        *combine,
                        transforms@[e],
                        ancestor_transforms(hierarchy, transforms@, e),
                        globals@[e],
                    )
                } else {
                    globals@[e] == old(globals)@[e]
                },
        decreases count - slot,
    {
        let entity = slot as Entity;
        if dirty_entities.contains(entity) && transforms.contains(entity) && globals.contains(
            entity,
        ) {
            match world_transform(hierarchy, transforms, entity, combine) {
                Some(world) => {
                    let _ = globals.insert(entity, world);
                },
                None => {},
            }
        }
        slot += 1;
    }
}

/// The world transform of `entity`, if it has a local transform: the local
/// transform combined with that of each ancestor that has one, walking up to
/// the root. `combine` takes the
/// transform worked out so far on the left and the local transform of the next
/// ancestor on the right.
pub fn world_transform<T: Copy, F: Fn(T, T) -> T>(
    hierarchy: &Hierarchy,
    transforms: &FlaggedStorage<T>,
    entity: Entity,
    combine: &F,
) -> (world: Option<T>)
    requires
        hierarchy.wf(),
        forall|a: T, b: T| combine.requires((a, b)),
    ensures
        world.is_some() == transforms@.contains_key(entity),
        world.is_some() ==> composed(
            *combine,
            transforms@[entity],
            ancestor_transforms(hierarchy, transforms@, entity),
            world.unwrap(),
        ),
{
    let mut world = match transforms.get(entity) {
        Some(local) => local,
        None => {
            return None;
        },
    };
    let mut current = entity;
    loop
        invariant
            hierarchy.wf(),
            transforms@.contains_key(entity),
            forall|a: T, b: T| combine.requires((a, b)),
            forall|end: T| #[trigger]
                composed(
                    *combine,
                    world,
                    ancestor_transforms(hierarchy, transforms@, current),
                    end,
                ) ==> composed(
                    *combine,
                    transforms@[entity],
                    ancestor_transforms(hierarchy, transforms@, entity),
                    end,
                ),
        decreases hierarchy.rank(current),
    {
        match hierarchy.parent(current) {
            None => {
                assert(composed(
                    *combine,
                    world,
                    ancestor_transforms(hierarchy, transforms@, current),
                    world,
                ));
                return Some(world);
            },
            Some(parent) => {
                let ghost above = ancestor_transforms(hierarchy, transforms@, parent);
                match transforms.get(parent) {
                    Some(local) => {
                        let next = combine(world, local);
                        proof {
                            let chain = ancestor_transforms(hierarchy, transforms@, current);
                            assert(chain =~= seq![local] + above);
                            assert(chain.drop_first() =~= above);
                            assert forall|end: T| #[trigger]
                                composed(*combine, next, above, end) implies composed(
                                *combine,
                                transforms@[entity],
                                ancestor_transforms(hierarchy, transforms@, entity),
                                end,
                            ) by {
                                assert(combine.ensures((world, chain[0]), next));
                                assert(composed(*combine, world, chain, end));
                            }
                        }
                        world = next;
                    },
                    None => {},
                }
                current = parent;
            },
        }
    }
}


/// What one pass makes of the local transforms `transforms` and the world
/// transforms `globals`, given the objects that were `marked` beforehand and
/// the two batches of unread events.
///
/// First the events take their toll: an object that `relations` reports as
/// gone loses both transforms; a slot whose transform `moved` reports as
/// removed loses its world transform. Then every object that has a local
/// transform and no world transform gets one. Stale are: the marked objects,
/// those that have just got a world transform, those that `moved` reports as
/// inserted or modified, those that `relations` reports as relinked, and every
/// descendant of any of these. Every stale object that has a local transform
/// gets its world transform worked out afresh; no other world transform
/// changes. So the pass ends with a world transform for every local one.
pub open spec fn pass<T, F: Fn(T, T) -> T>(
    combine: F,
    identity: T,
    hierarchy: &Hierarchy,
    marked: Set<Entity>,
    moved: Seq<ComponentEvent>,
    relations: Seq<HierarchyEvent>,
    transforms: Map<Entity, T>,
    globals: Map<Entity, T>,
    transforms_after: Map<Entity, T>,
    globals_after: Map<Entity, T>,
) -> bool {
    let kept = surviving(globals, moved, relations);
    &&& transforms_after == transforms.remove_keys(departed(relations))
    &&& resynced(
        combine,
        hierarchy,
        transforms_after,
        stale(hierarchy, marked, moved, relations, transforms_after, kept),
        materialized(transforms_after, kept, identity),
        globals_after,
    )
}

/// The objects whose world transform a pass takes to be out of date, given
/// the local and the world transforms that are left once the events have been
/// read.
pub open spec fn stale<T>(
    hierarchy: &Hierarchy,
    marked: Set<Entity>,
    moved: Seq<ComponentEvent>,
    relations: Seq<HierarchyEvent>,
    transforms: Map<Entity, T>,
    globals: Map<Entity, T>,
) -> Set<Entity> {
    with_descendants(
        hierarchy,
        marked.union(missing_globals(transforms, globals)).union(
            inserted_or_modified(moved),
        ).union(relinked(relations)),
    )
}

/// Syncs local and world transform per entity.
///
/// For every local transform, whether relative or absolute, there should be a
/// world transform that places the object in the scene. Between frames the
/// system keeps nothing but its position in the two logs it reads.
pub struct TransformSystem {
    transform_reader_id: Option<usize>,
    hierarchy_reader_id: Option<usize>,
}

impl Default for TransformSystem {
    /// A system that reads neither log yet: `setup` registers it.
    fn default() -> (system: Self)
        ensures
            system.transform_reader().is_none(),
            system.hierarchy_reader().is_none(),
    {
        Self { transform_reader_id: None, hierarchy_reader_id: None }
    }
}

impl TransformSystem {
    /// Where the system stands in the transform log, once it reads it.
    pub closed spec fn transform_reader(&self) -> Option<nat> {
        match self.transform_reader_id {
            Some(position) => Some(position as nat),
            None => None,
        }
    }

    /// Where the system stands in the hierarchy log, once it reads it.
    pub closed spec fn hierarchy_reader(&self) -> Option<nat> {
        match self.hierarchy_reader_id {
            Some(position) => Some(position as nat),
            None => None,
        }
    }

    /// Whether the system reads both logs.
    pub open spec fn registered(&self) -> bool {
        self.transform_reader().is_some() && self.hierarchy_reader().is_some()
    }

    /// How many events of the transform log a registered system has read.
    pub open spec fn transforms_read(&self) -> nat {
        self.transform_reader().unwrap()
    }

    /// How many events of the hierarchy log a registered system has read.
    pub open spec fn hierarchy_read(&self) -> nat {
        self.hierarchy_reader().unwrap()
    }

    /// Add a world transform to every object that has a local transform and no
    /// world transform yet, and mark each of them dirty. The world transform
    /// that such an object starts with is `identity`.
    fn add_globals<T: Copy>(
        transforms: &FlaggedStorage<T>,
        globals: &mut VecStorage<T>,
        dirty_entities: &mut DirtyEntities,
        identity: T,
    )
        requires
            transforms.wf(),
            old(globals).wf(),
        ensures
            final(globals).wf(),
            final(globals)@ == materialized(transforms@, old(globals)@, identity),
            raised_to_hold(
                final(globals).spec_extent(),
                old(globals).spec_extent(),
                materialized(transforms@, old(globals)@, identity),
            ),
            final(dirty_entities)@ == old(dirty_entities)@.union(
                missing_globals(transforms@, old(globals)@),
            ),
    {
        let count = transforms.extent();
        let mut slot: usize = 0;
        while slot < count
            invariant
                transforms.wf(),
                globals.wf(),
                count == transforms.spec_extent(),
                slot <= count,
                old(globals).wf(),
                old(globals).spec_extent() <= globals.spec_extent(),
                globals.spec_extent() == old(globals).spec_extent() || (globals.spec_extent() > 0
                    && globals@.contains_key((globals.spec_extent() - 1) as Entity)),
                globals@ =~= Map::new(
                    |e: Entity|
                        old(globals)@.contains_key(e) || (transforms@.contains_key(e) && (e as int)
                            < slot),
                    |e: Entity|
                        if old(globals)@.contains_key(e) {
                            old(globals)@[e]
                        } else {
                            identity
                        },
                ),
                dirty_entities@ =~= old(dirty_entities)@.union(
                    Set::new(
                        |e: Entity|
                            missing_globals(transforms@, old(globals)@).contains(e) && (e as int)
                                < slot,
                    ),
                ),
            decreases count - slot,
        {
            let entity = slot as Entity;
            if transforms.contains(entity) && !globals.contains(entity) {
                let _ = globals.insert(entity, identity);
                let _ = dirty_entities.mark(entity);
            }
            slot += 1;
        }
        assert(globals@ =~= materialized(transforms@, old(globals)@, identity));
        assert(dirty_entities@ =~= old(dirty_entities)@.union(
            missing_globals(transforms@, old(globals)@),
        ));
    }

    /// Registers the system as a reader of both logs, from their present end,
    /// and gives every object that has a local transform but no world
    /// transform the world transform `identity`, marked dirty for the first
    /// pass.
    pub fn setup<T: Copy>(
        &mut self,
        dirty_entities: &mut DirtyEntities,
        hierarchy: &Hierarchy,
        transforms: &FlaggedStorage<T>,
        globals: &mut VecStorage<T>,
        identity: T,
    )
        requires
            transforms.wf(),
            old(globals).wf(),
        ensures
            final(self).transform_reader() == Some(transforms.events().len()),
            final(self).hierarchy_reader() == Some(hierarchy.events().len()),
            final(globals).wf(),
            final(globals)@ == materialized(transforms@, old(globals)@, identity),
            raised_to_hold(
                final(globals).spec_extent(),
                old(globals).spec_extent(),
                materialized(transforms@, old(globals)@, identity),
            ),
            final(dirty_entities)@ == old(dirty_entities)@.union(
                missing_globals(transforms@, old(globals)@),
            ),
    {
        // Register readers
        self.transform_reader_id = Some(transforms.channel().len());
        self.hierarchy_reader_id = Some(hierarchy.changed().len());

        // Add world transforms
        Self::add_globals(transforms, globals, dirty_entities, identity);
    }

    /// Whether the system can run a pass over these logs: it is registered as
    /// a reader of both, and has read no further than they reach.
    pub open spec fn reads<T: Copy>(
        &self,
        hierarchy: &Hierarchy,
        transforms: &FlaggedStorage<T>,
    ) -> bool {
        &&& self.registered()
        &&& self.transforms_read() <= transforms.events().len()
        &&& self.hierarchy_read() <= hierarchy.events().len()
    }

    /// What `run` leaves behind: the scene is as [`pass`] says, for the objects
    /// marked beforehand and the events that the system had not read; the
    /// transform log has gained what the teardown of departed objects wrote;
    /// both logs are read up to where they ended when the pass began; and the
    /// dirty set is empty. The storage of world transforms has grown just far
    /// enough to hold one for every object that lacked it.
    pub open spec fn ran<T: Copy, F: Fn(T, T) -> T>(
        &self,
        after: &TransformSystem,
        combine: F,
        identity: T,
        marked: Set<Entity>,
        marked_after: Set<Entity>,
        hierarchy: &Hierarchy,
        transforms: &FlaggedStorage<T>,
        transforms_after: &FlaggedStorage<T>,
        globals: &VecStorage<T>,
        globals_after: &VecStorage<T>,
    ) -> bool {
        let moved = pending(transforms.events(), self.transforms_read() as int);
        let relations = pending(hierarchy.events(), self.hierarchy_read() as int);
        &&& transforms_after.wf()
        &&& globals_after.wf()
        &&& transforms_after.spec_extent() == transforms.spec_extent()
        &&& raised_to_hold(
            globals_after.spec_extent(),
            globals.spec_extent(),
            materialized(transforms_after@, surviving(globals@, moved, relations), identity),
        )
        &&& pass(
            combine,
            identity,
            hierarchy,
            marked,
            moved,
            relations,
            transforms@,
            globals@,
            transforms_after@,
            globals_after@,
        )
        &&& transforms_after.events() == transforms.events() + teardown_log(
            transforms@,
            relations,
        )
        &&& marked_after == Set::<Entity>::empty()
        &&& after.transform_reader() == Some(transforms.events().len())
        &&& after.hierarchy_reader() == Some(hierarchy.events().len())
    }

    /// One synchronisation pass over the scene: see [`TransformSystem::ran`].
    /// `identity` is the world transform that an object starts with, and
    /// `combine` takes the transform worked out so far on the left and the
    /// local transform of the next ancestor on the right. The system has to be
    /// set up first, on these same logs.
    pub fn run<T: Copy, F: Fn(T, T) -> T>(
        &mut self,
        dirty_entities: &mut DirtyEntities,
        hierarchy: &Hierarchy,
        transforms: &mut FlaggedStorage<T>,
        globals: &mut VecStorage<T>,
        identity: T,
        combine: F,
    )
        requires
            hierarchy.wf(),
            old(transforms).wf(),
            old(globals).wf(),
            old(self).reads(hierarchy, old(transforms)),
            forall|a: T, b: T| combine.requires((a, b)),
        ensures
            old(self).ran(
                final(self),
                combine,
                identity,
                old(dirty_entities)@,
                final(dirty_entities)@,
                hierarchy,
                old(transforms),
                final(transforms),
                old(globals),
                final(globals),
            ),
    {
        // Read events: new or modified entities are dirty
        let transform_start = self.transform_reader_id.unwrap();
        self.transform_reader_id = Some(transforms.channel().len());
        read_transform_events(transforms.channel(), transform_start, globals, dirty_entities);

        // If there are new or different parents, we need to resync
        let hierarchy_start = self.hierarchy_reader_id.unwrap();
        self.hierarchy_reader_id = Some(hierarchy.changed().len());
        read_hierarchy_events(
            hierarchy.changed(),
            hierarchy_start,
            transforms,
            globals,
            dirty_entities,
        );

        // Add world transforms to entities with local transforms
        Self::add_globals(transforms, globals, dirty_entities, identity);
        proof {
            let moved = pending(old(transforms).events(), old(self).transforms_read() as int);
            let relations = pending(hierarchy.events(), old(self).hierarchy_read() as int);
            let kept = surviving(old(globals)@, moved, relations);
            assert(dirty_entities@ =~= old(dirty_entities)@.union(
                missing_globals(transforms@, kept),
            ).union(inserted_or_modified(moved)).union(relinked(relations)));
        }

        mark_descendants(hierarchy, dirty_entities);
        sync_marked(hierarchy, transforms, globals, dirty_entities, &combine);

        // Reset
        dirty_entities.clear();
    }
}

} // verus!
