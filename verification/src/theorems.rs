//! What holds of the scene after a synchronisation pass.
//!
//! Each theorem speaks of the state that `TransformSystem::run` leaves behind,
//! as `TransformSystem::ran` and `pass` describe it, and is proved from those
//! descriptions alone.

use vstd::prelude::*;
use crate::components::Entity;
use crate::hierarchy::{lemma_contains_prepended, Hierarchy, HierarchyEvent};
use crate::storage::{ComponentEvent, FlaggedStorage, VecStorage};
use crate::systems::transform::{
    ancestor_transforms, composed, departed, inserted_or_modified, lemma_component_event_pushed,
    lemma_composed_alone, lemma_composed_once, lemma_contains_pushed, materialized,
    missing_globals, pass, pending, relinked, removed_components, stale, surviving,
    teardown_log, with_descendants, TransformSystem,
};

verus! {

/// Every object that has both transforms has the world transform that its
/// chain of ancestors gives.
pub open spec fn in_sync<T, F: Fn(T, T) -> T>(
    combine: F,
    hierarchy: &Hierarchy,
    transforms: Map<Entity, T>,
    globals: Map<Entity, T>,
) -> bool {
    forall|e: Entity| #[trigger]
        globals.contains_key(e) && transforms.contains_key(e) ==> composed(
            combine,
            transforms[e],
            ancestor_transforms(hierarchy, transforms, e),
            globals[e],
        )
}

/// Every object that has both transforms and is not in `stale` has the world
/// transform that its chain of ancestors gives: whatever is out of date has
/// been reported.
pub open spec fn in_sync_outside<T, F: Fn(T, T) -> T>(
    combine: F,
    hierarchy: &Hierarchy,
    stale: Set<Entity>,
    transforms: Map<Entity, T>,
    globals: Map<Entity, T>,
) -> bool {
    forall|e: Entity| #[trigger]
        globals.contains_key(e) && transforms.contains_key(e) && !stale.contains(e) ==> composed(
            combine,
            transforms[e],
            ancestor_transforms(hierarchy, transforms, e),
            globals[e],
        )
}

/// A pass brings the whole scene into sync, provided that every world
/// transform that was out of date when it began belonged to an object that the
/// pass took to be stale.
pub proof fn theorem_pass_synchronises<T, F: Fn(T, T) -> T>(
    combine: F,
    identity: T,
    hierarchy: &Hierarchy,
    marked: Set<Entity>,
    moved: Seq<ComponentEvent>,
    relations: Seq<HierarchyEvent>,
    transforms: Map<Entity, T>,
    globals: Map<Entity, T>,
    transforms_after: Map<Entity, T>,
    globals_after: Map<Entity, T>,
)
    requires
        hierarchy.wf(),
        pass(
            combine,
            identity,
            hierarchy,
            marked,
            moved,
            relations,
            transforms,
            globals,
            transforms_after,
            globals_after,
        ),
        in_sync_outside(
            combine,
            hierarchy,
            stale(
                hierarchy,
                marked,
                moved,
                relations,
                transforms_after,
                surviving(globals, moved, relations),
            ),
            transforms_after,
            globals,
        ),
    ensures
        in_sync(combine, hierarchy, transforms_after, globals_after),
{
    let kept = surviving(globals, moved, relations);
    let out_of_date = stale(hierarchy, marked, moved, relations, transforms_after, kept);
    assert forall|e: Entity| #[trigger]
        globals_after.contains_key(e) && transforms_after.contains_key(e) implies composed(
        combine,
        transforms_after[e],
        ancestor_transforms(hierarchy, transforms_after, e),
        globals_after[e],
    ) by {
        if !out_of_date.contains(e) {
            if !kept.contains_key(e) {
                assert(missing_globals(transforms_after, kept).contains(e));
            }
            assert(globals.contains_key(e));
        }
    }
}

/// A pass ends with a world transform for every object that has a local
/// transform.
pub proof fn theorem_pass_leaves_nothing_missing<T, F: Fn(T, T) -> T>(
    combine: F,
    identity: T,
    hierarchy: &Hierarchy,
    marked: Set<Entity>,
    moved: Seq<ComponentEvent>,
    relations: Seq<HierarchyEvent>,
    transforms: Map<Entity, T>,
    globals: Map<Entity, T>,
    transforms_after: Map<Entity, T>,
    globals_after: Map<Entity, T>,
)
    requires
        pass(
            combine,
            identity,
            hierarchy,
            marked,
            moved,
            relations,
            transforms,
            globals,
            transforms_after,
            globals_after,
        ),
    ensures
        missing_globals(transforms_after, globals_after) == Set::<Entity>::empty(),
{
    let base = materialized(transforms_after, surviving(globals, moved, relations), identity);
    assert forall|e: Entity| transforms_after.contains_key(e) implies globals_after.contains_key(
        e,
    ) by {
        assert(base.contains_key(e));
        assert(base.dom().contains(e));
    }
    assert(missing_globals(transforms_after, globals_after) =~= Set::<Entity>::empty());
}

/// The transforms on the chain of an object depend only on the links of the
/// object and of its ancestors, and on the local transforms of those
/// ancestors.
pub proof fn lemma_same_chain_same_transforms<T>(
    a: &Hierarchy,
    a_transforms: Map<Entity, T>,
    b: &Hierarchy,
    b_transforms: Map<Entity, T>,
    entity: Entity,
)
    requires
        a.wf(),
        b.wf(),
        a.parent_of(entity) == b.parent_of(entity),
        forall|x: Entity| #[trigger]
            a.is_ancestor(x, entity) ==> {
                &&& a.parent_of(x) == b.parent_of(x)
                &&& a_transforms.contains_key(x) == b_transforms.contains_key(x)
                &&& a_transforms.contains_key(x) ==> a_transforms[x] == b_transforms[x]
            },
    ensures
        ancestor_transforms(a, a_transforms, entity) == ancestor_transforms(
            b,
            b_transforms,
            entity,
        ),
    decreases a.rank(entity),
{
    match a.parent_of(entity) {
        None => {},
        Some(parent) => {
            lemma_contains_prepended(parent, a.ancestors(parent), parent);
            assert(a.is_ancestor(parent, entity));
            assert forall|x: Entity| #[trigger] a.is_ancestor(x, parent) implies {
                &&& a.parent_of(x) == b.parent_of(x)
                &&& a_transforms.contains_key(x) == b_transforms.contains_key(x)
                &&& a_transforms.contains_key(x) ==> a_transforms[x] == b_transforms[x]
            } by {
                lemma_contains_prepended(parent, a.ancestors(parent), x);
                assert(a.is_ancestor(x, entity));
            }
            lemma_same_chain_same_transforms(a, a_transforms, b, b_transforms, parent);
        },
    }
}

/// In a scene that is in sync, storing a local transform puts nothing out of
/// date but the world transforms of the object it is stored for and of that
/// object's descendants.
pub proof fn theorem_edit_is_accounted_for<T, F: Fn(T, T) -> T>(
    combine: F,
    hierarchy: &Hierarchy,
    transforms: Map<Entity, T>,
    globals: Map<Entity, T>,
    changed: Entity,
    value: T,
)
    requires
        hierarchy.wf(),
        in_sync(combine, hierarchy, transforms, globals),
    ensures
        in_sync_outside(
            combine,
            hierarchy,
            hierarchy.descendants(changed).insert(changed),
            transforms.insert(changed, value),
            globals,
        ),
{
    let edited = transforms.insert(changed, value);
    assert forall|e: Entity| #[trigger]
        globals.contains_key(e) && edited.contains_key(e) && !hierarchy.descendants(
            changed,
        ).insert(changed).contains(e) implies composed(
        combine,
        edited[e],
        ancestor_transforms(hierarchy, edited, e),
        globals[e],
    ) by {
        assert(!hierarchy.is_ancestor(changed, e));
        lemma_same_chain_same_transforms(hierarchy, transforms, hierarchy, edited, e);
    }
}

/// In a scene that is in sync, giving an object another parent, or none, puts
/// nothing out of date but the world transforms of that object and of its
/// descendants.
pub proof fn theorem_relink_is_accounted_for<T, F: Fn(T, T) -> T>(
    combine: F,
    hierarchy: &Hierarchy,
    hierarchy_moved: &Hierarchy,
    child: Entity,
    parent: Option<Entity>,
    transforms: Map<Entity, T>,
    globals: Map<Entity, T>,
)
    requires
        hierarchy.wf(),
        hierarchy_moved.wf(),
        hierarchy_moved.relinked(hierarchy, child, parent),
        in_sync(combine, hierarchy, transforms, globals),
    ensures
        in_sync_outside(
            combine,
            hierarchy_moved,
            hierarchy_moved.descendants(child).insert(child),
            transforms,
            globals,
        ),
{
    assert forall|e: Entity| #[trigger]
        globals.contains_key(e) && transforms.contains_key(e) && !hierarchy_moved.descendants(
            child,
        ).insert(child).contains(e) implies composed(
        combine,
        transforms[e],
        ancestor_transforms(hierarchy_moved, transforms, e),
        globals[e],
    ) by {
        assert(!hierarchy_moved.is_ancestor(child, e));
        assert(hierarchy_moved.parent_of(e) == hierarchy.parent_of(e));
        assert forall|x: Entity| #[trigger] hierarchy_moved.is_ancestor(x, e) implies {
            &&& hierarchy_moved.parent_of(x) == hierarchy.parent_of(x)
        } by {
            assert(x != child);
        }
        lemma_same_chain_same_transforms(hierarchy_moved, transforms, hierarchy, transforms, e);
    }
}

/// In a scene that is in sync, the world transform of an object without a
/// parent is its local transform.
pub proof fn law_root_world_is_local<T, F: Fn(T, T) -> T>(
    combine: F,
    hierarchy: &Hierarchy,
    transforms: Map<Entity, T>,
    globals: Map<Entity, T>,
    root: Entity,
)
    requires
        hierarchy.wf(),
        in_sync(combine, hierarchy, transforms, globals),
        hierarchy.parent_of(root).is_none(),
        transforms.contains_key(root),
        globals.contains_key(root),
    ensures
        globals[root] == transforms[root],
{
    assert(ancestor_transforms(hierarchy, transforms, root) =~= Seq::<T>::empty());
    lemma_composed_alone(combine, transforms[root], globals[root]);
}

/// In a scene that is in sync, the world transform of a child whose parent
/// is a root is what `combine` gives for the child's local transform on the
/// left and the parent's on the right.
pub proof fn law_child_of_root<T, F: Fn(T, T) -> T>(
    combine: F,
    hierarchy: &Hierarchy,
    transforms: Map<Entity, T>,
    globals: Map<Entity, T>,
    child: Entity,
    parent: Entity,
)
    requires
        hierarchy.wf(),
        in_sync(combine, hierarchy, transforms, globals),
        hierarchy.parent_of(child) == Some(parent),
        hierarchy.parent_of(parent).is_none(),
        transforms.contains_key(child),
        transforms.contains_key(parent),
        globals.contains_key(child),
    ensures
        combine.ensures((transforms[child], transforms[parent]), globals[child]),
{
    assert(ancestor_transforms(hierarchy, transforms, parent) =~= Seq::<T>::empty());
    assert(ancestor_transforms(hierarchy, transforms, child) =~= seq![transforms[parent]]);
    lemma_composed_once(combine, transforms[child], transforms[parent], globals[child]);
}


/// The teardown of departed objects writes nothing but `Removed` events, and
/// only for objects that the hierarchy reported as gone.
pub proof fn lemma_teardown_log_only_removes<T>(
    transforms: Map<Entity, T>,
    events: Seq<HierarchyEvent>,
)
    ensures
        inserted_or_modified(teardown_log(transforms, events)) == Set::<Entity>::empty(),
        removed_components(teardown_log(transforms, events)).subset_of(departed(events)),
    decreases events.len(),
{
    let log = teardown_log(transforms, events);
    if events.len() == 0 {
        assert(inserted_or_modified(log) =~= Set::<Entity>::empty());
    } else {
        let earlier = events.drop_last();
        let before = teardown_log(transforms, earlier);
        lemma_teardown_log_only_removes(transforms, earlier);
        assert(events =~= earlier.push(events.last()));
        assert forall|e: Entity| departed(earlier).contains(e) implies departed(events).contains(
            e,
        ) by {
            lemma_contains_pushed(earlier, events.last(), HierarchyEvent::Removed(e));
        }
        assert forall|e: Entity|
            {
                &&& !log.contains(ComponentEvent::Inserted(e))
                &&& !log.contains(ComponentEvent::Modified(e))
                &&& log.contains(ComponentEvent::Removed(e)) ==> departed(events).contains(e)
            } by {
            assert(!inserted_or_modified(before).contains(e));
            if log != before {
                let gone = events.last()->Removed_0;
                let written = ComponentEvent::Removed(gone);
                lemma_contains_pushed(before, written, ComponentEvent::Removed(e));
                lemma_contains_pushed(earlier, events.last(), HierarchyEvent::Removed(gone));
            }
            lemma_teardown_has_no_change(transforms, events, e);
            if before.contains(ComponentEvent::Removed(e)) {
                assert(removed_components(before).contains(e));
            }
        }
        assert(inserted_or_modified(log) =~= Set::<Entity>::empty());
    }
}

/// The teardown log holds no `Inserted` and no `Modified` event.
pub proof fn lemma_teardown_has_no_change<T>(
    transforms: Map<Entity, T>,
    events: Seq<HierarchyEvent>,
    entity: Entity,
)
    ensures
        !teardown_log(transforms, events).contains(ComponentEvent::Inserted(entity)),
        !teardown_log(transforms, events).contains(ComponentEvent::Modified(entity)),
    decreases events.len(),
{
    let log = teardown_log(transforms, events);
    if events.len() > 0 {
        let earlier = events.drop_last();
        let before = teardown_log(transforms, earlier);
        lemma_teardown_has_no_change(transforms, earlier, entity);
        if log != before {
            let gone = events.last()->Removed_0;
            let written = ComponentEvent::Removed(gone);
            lemma_contains_pushed(before, written, ComponentEvent::Inserted(entity));
            lemma_contains_pushed(before, written, ComponentEvent::Modified(entity));
        }
    }
}

/// Marking nothing marks no descendant either.
pub proof fn lemma_nothing_has_no_descendants(hierarchy: &Hierarchy)
    ensures
        with_descendants(hierarchy, Set::<Entity>::empty()) == Set::<Entity>::empty(),
{
    assert(with_descendants(hierarchy, Set::<Entity>::empty()) =~= Set::<Entity>::empty());
}

/// Marking one object marks it and its descendants.
pub proof fn lemma_one_with_descendants(hierarchy: &Hierarchy, entity: Entity)
    ensures
        with_descendants(hierarchy, Set::<Entity>::empty().insert(entity))
            == hierarchy.descendants(entity).insert(entity),
{
    let marked = Set::<Entity>::empty().insert(entity);
    assert forall|e: Entity| with_descendants(hierarchy, marked).contains(e)
        <==> hierarchy.descendants(entity).insert(entity).contains(e) by {
        if hierarchy.is_ancestor(entity, e) {
            assert(marked.contains(entity));
        }
    }
    assert(with_descendants(hierarchy, marked) =~= hierarchy.descendants(entity).insert(entity));
}

/// A pass is idempotent: a second pass with no change in between leaves
/// every world transform, and every local transform, as the first pass left
/// it.
pub proof fn law_second_pass_changes_nothing<T: Copy, F: Fn(T, T) -> T>(
    combine: F,
    identity: T,
    hierarchy: &Hierarchy,
    marked: Set<Entity>,
    system: &TransformSystem,
    transforms: &FlaggedStorage<T>,
    globals: &VecStorage<T>,
    system_once: &TransformSystem,
    transforms_once: &FlaggedStorage<T>,
    globals_once: &VecStorage<T>,
    system_twice: &TransformSystem,
    transforms_twice: &FlaggedStorage<T>,
    globals_twice: &VecStorage<T>,
)
    requires
        hierarchy.wf(),
        system.reads(hierarchy, transforms),
        system.ran(
            system_once,
            combine,
            identity,
            marked,
            Set::<Entity>::empty(),
            hierarchy,
            transforms,
            transforms_once,
            globals,
            globals_once,
        ),
        system_once.ran(
            system_twice,
            combine,
            identity,
            Set::<Entity>::empty(),
            Set::<Entity>::empty(),
            hierarchy,
            transforms_once,
            transforms_twice,
            globals_once,
            globals_twice,
        ),
    ensures
        globals_twice@ == globals_once@,
        transforms_twice@ == transforms_once@,
{
    theorem_pass_settles(
        combine,
        identity,
        hierarchy,
        marked,
        system,
        transforms,
        globals,
        system_once,
        transforms_once,
        globals_once,
    );
    lemma_pass_when_settled(identity, hierarchy, system_once, transforms_once, globals_once);
    lemma_nothing_has_no_descendants(hierarchy);
    assert(transforms_twice@ =~= transforms_once@);
    assert(globals_twice@ =~= globals_once@);
}

/// A scene is settled when the system has read the hierarchy log to its end,
/// what is unread of the transform log reports no insertion and no
/// modification, and removals only for slots that hold no world transform,
/// and every object that has a local transform has a world transform. Every
/// pass leaves the scene so.
pub open spec fn settled<T: Copy>(
    system: &TransformSystem,
    hierarchy: &Hierarchy,
    transforms: &FlaggedStorage<T>,
    globals: &VecStorage<T>,
) -> bool {
    let unread = pending(transforms.events(), system.transforms_read() as int);
    &&& system.reads(hierarchy, transforms)
    &&& system.hierarchy_read() == hierarchy.events().len()
    &&& inserted_or_modified(unread) == Set::<Entity>::empty()
    &&& forall|e: Entity| #[trigger]
        removed_components(unread).contains(e) ==> !globals@.contains_key(e)
    &&& missing_globals(transforms@, globals@) == Set::<Entity>::empty()
}

/// A pass leaves the scene settled.
pub proof fn theorem_pass_settles<T: Copy, F: Fn(T, T) -> T>(
    combine: F,
    identity: T,
    hierarchy: &Hierarchy,
    marked: Set<Entity>,
    system: &TransformSystem,
    transforms: &FlaggedStorage<T>,
    globals: &VecStorage<T>,
    system_after: &TransformSystem,
    transforms_after: &FlaggedStorage<T>,
    globals_after: &VecStorage<T>,
)
    requires
        system.reads(hierarchy, transforms),
        system.ran(
            system_after,
            combine,
            identity,
            marked,
            Set::<Entity>::empty(),
            hierarchy,
            transforms,
            transforms_after,
            globals,
            globals_after,
        ),
    ensures
        settled(system_after, hierarchy, transforms_after, globals_after),
{
    let moved = pending(transforms.events(), system.transforms_read() as int);
    let relations = pending(hierarchy.events(), system.hierarchy_read() as int);
    let unread = pending(transforms_after.events(), system_after.transforms_read() as int);
    assert(unread =~= teardown_log(transforms@, relations));
    lemma_teardown_log_only_removes(transforms@, relations);
    theorem_pass_leaves_nothing_missing(
        combine,
        identity,
        hierarchy,
        marked,
        moved,
        relations,
        transforms@,
        globals@,
        transforms_after@,
        globals_after@,
    );
    assert forall|e: Entity| #[trigger]
        removed_components(unread).contains(e) implies !globals_after@.contains_key(e) by {
        assert(departed(relations).contains(e));
        let base = materialized(
            transforms_after@,
            surviving(globals@, moved, relations),
            identity,
        );
        assert(!base.contains_key(e));
        assert(!base.dom().contains(e));
    }
}

/// What the next pass sees in a settled scene that nothing was done to:
/// nothing is stale, and no world transform is taken away or added.
pub proof fn lemma_pass_when_settled<T: Copy>(
    identity: T,
    hierarchy: &Hierarchy,
    system: &TransformSystem,
    transforms: &FlaggedStorage<T>,
    globals: &VecStorage<T>,
)
    requires
        settled(system, hierarchy, transforms, globals),
    ensures
        ({
            let moved = pending(transforms.events(), system.transforms_read() as int);
            let relations = pending(hierarchy.events(), system.hierarchy_read() as int);
            let kept = surviving(globals@, moved, relations);
            &&& transforms@.remove_keys(departed(relations)) == transforms@
            &&& kept == globals@
            &&& materialized(transforms@, kept, identity) == globals@
            &&& Set::<Entity>::empty().union(missing_globals(transforms@, kept)).union(
                inserted_or_modified(moved),
            ).union(relinked(relations)) == Set::<Entity>::empty()
        }),
{
    let moved = pending(transforms.events(), system.transforms_read() as int);
    let relations = pending(hierarchy.events(), system.hierarchy_read() as int);
    let kept = surviving(globals@, moved, relations);
    assert(relations =~= Seq::<HierarchyEvent>::empty());
    assert(relinked(relations) =~= Set::<Entity>::empty());
    assert(departed(relations) =~= Set::<Entity>::empty());
    assert(transforms@.remove_keys(departed(relations)) =~= transforms@);
    assert(kept =~= globals@);
    assert forall|e: Entity| transforms@.contains_key(e) implies globals@.contains_key(e) by {
        if !globals@.contains_key(e) {
            assert(missing_globals(transforms@, globals@).contains(e));
        }
    }
    assert(materialized(transforms@, kept, identity) =~= globals@);
    assert(Set::<Entity>::empty().union(missing_globals(transforms@, kept)).union(
        inserted_or_modified(moved),
    ).union(relinked(relations)) =~= Set::<Entity>::empty());
}

/// What the next pass sees after one local transform was stored in a settled
/// scene, for an object that has a world transform: that object and its
/// descendants are stale, and no world transform is taken away or added.
pub proof fn lemma_pass_after_edit<T: Copy>(
    identity: T,
    hierarchy: &Hierarchy,
    system: &TransformSystem,
    transforms: &FlaggedStorage<T>,
    globals: &VecStorage<T>,
    changed: Entity,
    value: T,
    transforms_edited: &FlaggedStorage<T>,
)
    requires
        transforms_edited.wf(),
        settled(system, hierarchy, transforms, globals),
        globals@.contains_key(changed),
        transforms_edited@ == transforms@.insert(changed, value),
        transforms_edited.events() == transforms.events().push(ComponentEvent::Modified(changed))
            || transforms_edited.events() == transforms.events().push(
            ComponentEvent::Inserted(changed),
        ),
    ensures
        ({
            let moved = pending(transforms_edited.events(), system.transforms_read() as int);
            let relations = pending(hierarchy.events(), system.hierarchy_read() as int);
            let kept = surviving(globals@, moved, relations);
            &&& transforms_edited@.remove_keys(departed(relations)) == transforms_edited@
            &&& materialized(transforms_edited@, kept, identity) == globals@
            &&& stale(
                hierarchy,
                Set::<Entity>::empty(),
                moved,
                relations,
                transforms_edited@,
                kept,
            ) == hierarchy.descendants(changed).insert(changed)
        }),
{
    let unread = pending(transforms.events(), system.transforms_read() as int);
    let moved = pending(transforms_edited.events(), system.transforms_read() as int);
    let relations = pending(hierarchy.events(), system.hierarchy_read() as int);
    let kept = surviving(globals@, moved, relations);
    let written = transforms_edited.events().last();
    assert(moved =~= unread.push(written));
    lemma_component_event_pushed(unread, written);
    assert(relations =~= Seq::<HierarchyEvent>::empty());
    assert(transforms_edited@.contains_key(changed));
    assert(changed < crate::bitset::index_limit());
    assert(inserted_or_modified(moved) =~= Set::<Entity>::empty().insert(changed));
    assert(removed_components(moved) =~= removed_components(unread));
    assert(relinked(relations) =~= Set::<Entity>::empty());
    assert(departed(relations) =~= Set::<Entity>::empty());
    assert(kept =~= globals@);
    assert forall|e: Entity| transforms_edited@.contains_key(e) implies globals@.contains_key(
        e,
    ) by {
        if !globals@.contains_key(e) {
            assert(missing_globals(transforms@, globals@).contains(e));
        }
    }
    assert(missing_globals(transforms_edited@, kept) =~= Set::<Entity>::empty());
    let direct = Set::<Entity>::empty().union(missing_globals(transforms_edited@, kept)).union(
        inserted_or_modified(moved),
    ).union(relinked(relations));
    assert(direct =~= Set::<Entity>::empty().insert(changed));
    lemma_one_with_descendants(hierarchy, changed);
    assert(materialized(transforms_edited@, kept, identity) =~= globals@);
    assert(transforms_edited@.remove_keys(departed(relations)) =~= transforms_edited@);
}

/// What the next pass sees after one object was given another parent, or
/// none, in a settled scene: the object and its descendants are stale, and no
/// world transform is taken away or added.
pub proof fn lemma_pass_after_relink<T: Copy>(
    identity: T,
    hierarchy: &Hierarchy,
    hierarchy_moved: &Hierarchy,
    child: Entity,
    parent: Option<Entity>,
    system: &TransformSystem,
    transforms: &FlaggedStorage<T>,
    globals: &VecStorage<T>,
)
    requires
        child < crate::bitset::index_limit(),
        hierarchy_moved.relinked(hierarchy, child, parent),
        settled(system, hierarchy, transforms, globals),
    ensures
        ({
            let moved = pending(transforms.events(), system.transforms_read() as int);
            let relations = pending(hierarchy_moved.events(), system.hierarchy_read() as int);
            let kept = surviving(globals@, moved, relations);
            &&& transforms@.remove_keys(departed(relations)) == transforms@
            &&& materialized(transforms@, kept, identity) == globals@
            &&& stale(hierarchy_moved, Set::<Entity>::empty(), moved, relations, transforms@, kept)
                == hierarchy_moved.descendants(child).insert(child)
        }),
{
    let moved = pending(transforms.events(), system.transforms_read() as int);
    let relations = pending(hierarchy_moved.events(), system.hierarchy_read() as int);
    let kept = surviving(globals@, moved, relations);
    assert(relations =~= seq![HierarchyEvent::Modified(child)]);
    assert(relations[0] == HierarchyEvent::Modified(child));
    assert(relinked(relations) =~= Set::<Entity>::empty().insert(child));
    assert(departed(relations) =~= Set::<Entity>::empty());
    assert(kept =~= globals@);
    assert forall|e: Entity| transforms@.contains_key(e) implies globals@.contains_key(e) by {
        if !globals@.contains_key(e) {
            assert(missing_globals(transforms@, globals@).contains(e));
        }
    }
    assert(missing_globals(transforms@, kept) =~= Set::<Entity>::empty());
    let direct = Set::<Entity>::empty().union(missing_globals(transforms@, kept)).union(
        inserted_or_modified(moved),
    ).union(relinked(relations));
    assert(direct =~= Set::<Entity>::empty().insert(child));
    lemma_one_with_descendants(hierarchy_moved, child);
    assert(materialized(transforms@, kept, identity) =~= globals@);
    assert(transforms@.remove_keys(departed(relations)) =~= transforms@);
}

/// A scene in sync stays in sync: in a settled scene, storing a local
/// transform for an object that has a world transform and running the next
/// pass leaves every object with the world transform that its chain gives.
pub proof fn theorem_edit_then_pass_keeps_sync<T: Copy, F: Fn(T, T) -> T>(
    combine: F,
    identity: T,
    hierarchy: &Hierarchy,
    system: &TransformSystem,
    transforms: &FlaggedStorage<T>,
    globals: &VecStorage<T>,
    changed: Entity,
    value: T,
    transforms_edited: &FlaggedStorage<T>,
    system_after: &TransformSystem,
    transforms_after: &FlaggedStorage<T>,
    globals_after: &VecStorage<T>,
)
    requires
        hierarchy.wf(),
        transforms_edited.wf(),
        in_sync(combine, hierarchy, transforms@, globals@),
        settled(system, hierarchy, transforms, globals),
        globals@.contains_key(changed),
        transforms_edited@ == transforms@.insert(changed, value),
        transforms_edited.events() == transforms.events().push(ComponentEvent::Modified(changed))
            || transforms_edited.events() == transforms.events().push(
            ComponentEvent::Inserted(changed),
        ),
        system.ran(
            system_after,
            combine,
            identity,
            Set::<Entity>::empty(),
            Set::<Entity>::empty(),
            hierarchy,
            transforms_edited,
            transforms_after,
            globals,
            globals_after,
        ),
    ensures
        in_sync(combine, hierarchy, transforms_after@, globals_after@),
{
    lemma_pass_after_edit(
        identity,
        hierarchy,
        system,
        transforms,
        globals,
        changed,
        value,
        transforms_edited,
    );
    theorem_edit_is_accounted_for(combine, hierarchy, transforms@, globals@, changed, value);
    theorem_pass_synchronises(
        combine,
        identity,
        hierarchy,
        Set::<Entity>::empty(),
        pending(transforms_edited.events(), system.transforms_read() as int),
        pending(hierarchy.events(), system.hierarchy_read() as int),
        transforms_edited@,
        globals@,
        transforms_after@,
        globals_after@,
    );
}

/// A scene in sync stays in sync: in a settled scene, giving an object
/// another parent, or none, and running the next pass leaves every object
/// with the world transform that its chain gives.
pub proof fn theorem_relink_then_pass_keeps_sync<T: Copy, F: Fn(T, T) -> T>(
    combine: F,
    identity: T,
    hierarchy: &Hierarchy,
    hierarchy_moved: &Hierarchy,
    child: Entity,
    parent: Option<Entity>,
    system: &TransformSystem,
    transforms: &FlaggedStorage<T>,
    globals: &VecStorage<T>,
    system_after: &TransformSystem,
    transforms_after: &FlaggedStorage<T>,
    globals_after: &VecStorage<T>,
)
    requires
        hierarchy.wf(),
        hierarchy_moved.wf(),
        child < crate::bitset::index_limit(),
        hierarchy_moved.relinked(hierarchy, child, parent),
        in_sync(combine, hierarchy, transforms@, globals@),
        settled(system, hierarchy, transforms, globals),
        system.ran(
            system_after,
            combine,
            identity,
            Set::<Entity>::empty(),
            Set::<Entity>::empty(),
            hierarchy_moved,
            transforms,
            transforms_after,
            globals,
            globals_after,
        ),
    ensures
        in_sync(combine, hierarchy_moved, transforms_after@, globals_after@),
{
    lemma_pass_after_relink(
        identity,
        hierarchy,
        hierarchy_moved,
        child,
        parent,
        system,
        transforms,
        globals,
    );
    theorem_relink_is_accounted_for(
        combine,
        hierarchy,
        hierarchy_moved,
        child,
        parent,
        transforms@,
        globals@,
    );
    theorem_pass_synchronises(
        combine,
        identity,
        hierarchy_moved,
        Set::<Entity>::empty(),
        pending(transforms.events(), system.transforms_read() as int),
        pending(hierarchy_moved.events(), system.hierarchy_read() as int),
        transforms@,
        globals@,
        transforms_after@,
        globals_after@,
    );
}

/// A pass is incremental: in a settled scene, replacing the local transform
/// of one object and running the next pass works out afresh the world
/// transform of that object and of each of its descendants, and leaves every
/// other world transform as it was.
pub proof fn law_only_descendants_follow<T: Copy, F: Fn(T, T) -> T>(
    combine: F,
    identity: T,
    hierarchy: &Hierarchy,
    system: &TransformSystem,
    transforms: &FlaggedStorage<T>,
    globals: &VecStorage<T>,
    changed: Entity,
    value: T,
    transforms_edited: &FlaggedStorage<T>,
    system_after: &TransformSystem,
    transforms_after: &FlaggedStorage<T>,
    globals_after: &VecStorage<T>,
)
    requires
        hierarchy.wf(),
        transforms_edited.wf(),
        settled(system, hierarchy, transforms, globals),
        transforms@.contains_key(changed),
        transforms_edited@ == transforms@.insert(changed, value),
        transforms_edited.events() == transforms.events().push(ComponentEvent::Modified(changed)),
        system.ran(
            system_after,
            combine,
            identity,
            Set::<Entity>::empty(),
            Set::<Entity>::empty(),
            hierarchy,
            transforms_edited,
            transforms_after,
            globals,
            globals_after,
        ),
    ensures
        transforms_after@ == transforms_edited@,
        globals_after@.dom() == globals@.dom(),
        forall|e: Entity|
            e != changed && !hierarchy.is_ancestor(changed, e)
                && #[trigger] globals@.contains_key(e) ==> globals_after@[e] == globals@[e],
        forall|e: Entity|
            (e == changed || hierarchy.is_ancestor(changed, e)) && transforms_after@.contains_key(e)
                && #[trigger] globals_after@.contains_key(e) ==> composed(
                combine,
                transforms_after@[e],
                ancestor_transforms(hierarchy, transforms_after@, e),
                globals_after@[e],
            ),
{
    if !globals@.contains_key(changed) {
        assert(missing_globals(transforms@, globals@).contains(changed));
    }
    lemma_pass_after_edit(
        identity,
        hierarchy,
        system,
        transforms,
        globals,
        changed,
        value,
        transforms_edited,
    );
    assert(transforms_after@ =~= transforms_edited@);
    assert forall|e: Entity|
        e != changed && !hierarchy.is_ancestor(changed, e) && #[trigger] globals@.contains_key(
            e,
        ) implies globals_after@[e] == globals@[e] by {
        assert(globals_after@.contains_key(e));
    }
}

/// In a settled scene, moving an object below another parent and running the
/// next pass works out the object's world transform along its new chain of
/// ancestors, beginning with the new parent, and leaves the world transform of
/// every object that is neither the moved one nor below it as it was.
pub proof fn law_reparenting<T: Copy, F: Fn(T, T) -> T>(
    combine: F,
    identity: T,
    hierarchy: &Hierarchy,
    hierarchy_moved: &Hierarchy,
    child: Entity,
    parent: Entity,
    system: &TransformSystem,
    transforms: &FlaggedStorage<T>,
    globals: &VecStorage<T>,
    system_after: &TransformSystem,
    transforms_after: &FlaggedStorage<T>,
    globals_after: &VecStorage<T>,
)
    requires
        hierarchy.wf(),
        hierarchy_moved.wf(),
        transforms.wf(),
        hierarchy_moved.relinked(hierarchy, child, Some(parent)),
        settled(system, hierarchy, transforms, globals),
        transforms@.contains_key(child),
        system.ran(
            system_after,
            combine,
            identity,
            Set::<Entity>::empty(),
            Set::<Entity>::empty(),
            hierarchy_moved,
            transforms,
            transforms_after,
            globals,
            globals_after,
        ),
    ensures
        transforms_after@ == transforms@,
        globals_after@.dom() == globals@.dom(),
        composed(
            combine,
            transforms@[child],
            if transforms@.contains_key(parent) {
                seq![transforms@[parent]] + ancestor_transforms(
                    hierarchy_moved,
                    transforms@,
                    parent,
                )
            } else {
                ancestor_transforms(hierarchy_moved, transforms@, parent)
            },
            globals_after@[child],
        ),
        forall|e: Entity|
            e != child && !hierarchy_moved.is_ancestor(child, e)
                && #[trigger] globals@.contains_key(e) ==> globals_after@[e] == globals@[e],
{
    lemma_pass_after_relink(
        identity,
        hierarchy,
        hierarchy_moved,
        child,
        Some(parent),
        system,
        transforms,
        globals,
    );
    assert(transforms_after@ =~= transforms@);
    assert(globals@.contains_key(child)) by {
        if !globals@.contains_key(child) {
            assert(missing_globals(transforms@, globals@).contains(child));
        }
    }
    assert(globals_after@.contains_key(child));
    assert(hierarchy_moved.parent_of(child) == Some(parent));
    assert forall|e: Entity|
        e != child && !hierarchy_moved.is_ancestor(child, e) && #[trigger] globals@.contains_key(
            e,
        ) implies globals_after@[e] == globals@[e] by {
        assert(globals_after@.contains_key(e));
    }
}

/// Whichever of a child and its parent was created first, and whichever of
/// the two occupies the lower slot, one pass gives both a world transform,
/// the parent's being its local transform and the child's being what
/// `combine` gives for the child's local transform on the left and the
/// parent's on the right. Neither has a world transform before the pass,
/// neither is reported as gone, and the parent is a root.
pub proof fn law_creation_order<T, F: Fn(T, T) -> T>(
    combine: F,
    identity: T,
    hierarchy: &Hierarchy,
    marked: Set<Entity>,
    moved: Seq<ComponentEvent>,
    relations: Seq<HierarchyEvent>,
    transforms: Map<Entity, T>,
    globals: Map<Entity, T>,
    transforms_after: Map<Entity, T>,
    globals_after: Map<Entity, T>,
    child: Entity,
    parent: Entity,
)
    requires
        hierarchy.wf(),
        pass(
            combine,
            identity,
            hierarchy,
            marked,
            moved,
            relations,
            transforms,
            globals,
            transforms_after,
            globals_after,
        ),
        hierarchy.parent_of(child) == Some(parent),
        hierarchy.parent_of(parent).is_none(),
        transforms.contains_key(child),
        transforms.contains_key(parent),
        !globals.contains_key(child),
        !globals.contains_key(parent),
        !departed(relations).contains(child),
        !departed(relations).contains(parent),
    ensures
        globals_after.contains_key(child),
        globals_after.contains_key(parent),
        globals_after[parent] == transforms[parent],
        combine.ensures((transforms[child], transforms[parent]), globals_after[child]),
{
    let kept = surviving(globals, moved, relations);
    assert(missing_globals(transforms_after, kept).contains(child));
    assert(missing_globals(transforms_after, kept).contains(parent));
    let base = materialized(transforms_after, kept, identity);
    assert(base.contains_key(child));
    assert(base.contains_key(parent));
    assert(base.dom().contains(child));
    assert(base.dom().contains(parent));
    assert(globals_after.contains_key(child));
    assert(globals_after.contains_key(parent));
    assert(ancestor_transforms(hierarchy, transforms_after, parent) =~= Seq::<T>::empty());
    assert(ancestor_transforms(hierarchy, transforms_after, child) =~= seq![
        transforms_after[parent],
    ]);
    lemma_composed_alone(combine, transforms_after[parent], globals_after[parent]);
    lemma_composed_once(
        combine,
        transforms_after[child],
        transforms_after[parent],
        globals_after[child],
    );
}

} // verus!
