use hibitset::BitSetLike;
use vkengine::bitset::index_limit;
use vkengine::components::Link;
use vkengine::hierarchy::{Hierarchy, HierarchyError, HierarchyEvent};

fn members(set: hibitset::BitSet) -> Vec<u32> {
    set.iter().collect()
}

#[test]
fn link_keeps_its_parent() {
    let link = Link::new(17);
    assert_eq!(link.parent_entity(), 17);
}

#[test]
fn new_hierarchy_has_no_links() {
    let hierarchy = Hierarchy::new();
    assert_eq!(hierarchy.parent(0), None);
    assert_eq!(hierarchy.extent(), 0);
    assert!(hierarchy.changed().is_empty());
    assert!(members(hierarchy.all_children(0)).is_empty());
}

#[test]
fn insert_links_and_logs() {
    let mut hierarchy = Hierarchy::new();
    assert_eq!(hierarchy.insert(2, Link::new(5)), Ok(()));
    assert_eq!(hierarchy.parent(2), Some(5));
    assert_eq!(hierarchy.parent(5), None);
    assert_eq!(hierarchy.extent(), 6);
    assert_eq!(hierarchy.changed().clone(), vec![HierarchyEvent::Modified(2)]);
}

#[test]
fn insert_repoints_an_existing_link() {
    let mut hierarchy = Hierarchy::new();
    hierarchy.insert(1, Link::new(0)).unwrap();
    hierarchy.insert(1, Link::new(2)).unwrap();
    assert_eq!(hierarchy.parent(1), Some(2));
    assert!(members(hierarchy.all_children(0)).is_empty());
    assert_eq!(members(hierarchy.all_children(2)), vec![1]);
    assert_eq!(
        hierarchy.changed().clone(),
        vec![HierarchyEvent::Modified(1), HierarchyEvent::Modified(1)]
    );
}

#[test]
fn self_parenting_is_rejected() {
    let mut hierarchy = Hierarchy::new();
    assert_eq!(hierarchy.insert(3, Link::new(3)), Err(HierarchyError::Cycle));
    assert_eq!(hierarchy.parent(3), None);
    assert!(hierarchy.changed().is_empty());
}

#[test]
fn cycles_are_rejected() {
    let mut hierarchy = Hierarchy::new();
    hierarchy.insert(1, Link::new(0)).unwrap();
    hierarchy.insert(2, Link::new(1)).unwrap();
    assert_eq!(hierarchy.insert(0, Link::new(2)), Err(HierarchyError::Cycle));
    assert_eq!(hierarchy.insert(0, Link::new(1)), Err(HierarchyError::Cycle));
    assert_eq!(hierarchy.parent(0), None);
    assert_eq!(hierarchy.changed().len(), 2);
    // Moving within the tree without closing a cycle is fine.
    assert_eq!(hierarchy.insert(2, Link::new(0)), Ok(()));
}

#[test]
fn slots_beyond_the_limit_are_rejected() {
    let mut hierarchy = Hierarchy::new();
    assert_eq!(
        hierarchy.insert(index_limit(), Link::new(0)),
        Err(HierarchyError::OutOfRange)
    );
    assert_eq!(
        hierarchy.insert(0, Link::new(index_limit())),
        Err(HierarchyError::OutOfRange)
    );
    assert_eq!(
        hierarchy.insert(u32::MAX, Link::new(u32::MAX)),
        Err(HierarchyError::OutOfRange)
    );
    assert_eq!(hierarchy.insert(index_limit() - 1, Link::new(0)), Ok(()));
    assert_eq!(hierarchy.parent(index_limit() - 1), Some(0));
    assert_eq!(hierarchy.parent(u32::MAX), None);
}

#[test]
fn index_limit_is_what_a_bit_set_of_four_layers_holds() {
    assert_eq!(index_limit(), usize::BITS.pow(4));
}

#[test]
fn all_children_is_every_descendant_and_not_the_object() {
    let mut hierarchy = Hierarchy::new();
    hierarchy.insert(4, Link::new(9)).unwrap();
    hierarchy.insert(1, Link::new(4)).unwrap();
    hierarchy.insert(7, Link::new(4)).unwrap();
    hierarchy.insert(3, Link::new(7)).unwrap();
    hierarchy.insert(5, Link::new(6)).unwrap();
    assert_eq!(members(hierarchy.all_children(9)), vec![1, 3, 4, 7]);
    assert_eq!(members(hierarchy.all_children(4)), vec![1, 3, 7]);
    assert_eq!(members(hierarchy.all_children(7)), vec![3]);
    assert!(members(hierarchy.all_children(3)).is_empty());
    assert_eq!(members(hierarchy.all_children(6)), vec![5]);
    assert!(members(hierarchy.all_children(1000)).is_empty());
}

#[test]
fn has_ancestor_walks_the_whole_chain() {
    let mut hierarchy = Hierarchy::new();
    hierarchy.insert(0, Link::new(1)).unwrap();
    hierarchy.insert(1, Link::new(2)).unwrap();
    assert!(hierarchy.has_ancestor(0, 1));
    assert!(hierarchy.has_ancestor(0, 2));
    assert!(!hierarchy.has_ancestor(0, 0));
    assert!(!hierarchy.has_ancestor(2, 0));
    assert!(!hierarchy.has_ancestor(50, 2));
}

#[test]
fn detach_makes_a_root_and_logs_it() {
    let mut hierarchy = Hierarchy::new();
    hierarchy.insert(1, Link::new(0)).unwrap();
    hierarchy.insert(2, Link::new(1)).unwrap();
    assert_eq!(hierarchy.detach(1), Some(Link::new(0)));
    assert_eq!(hierarchy.parent(1), None);
    assert_eq!(hierarchy.parent(2), Some(1));
    assert_eq!(hierarchy.changed().last(), Some(&HierarchyEvent::Modified(1)));
    assert_eq!(hierarchy.changed().len(), 3);
    // Nothing to detach: nothing changes.
    assert_eq!(hierarchy.detach(1), None);
    assert_eq!(hierarchy.detach(77), None);
    assert_eq!(hierarchy.changed().len(), 3);
}

#[test]
fn remove_takes_the_whole_subtree_out() {
    let mut hierarchy = Hierarchy::new();
    hierarchy.insert(3, Link::new(6)).unwrap();
    hierarchy.insert(5, Link::new(3)).unwrap();
    hierarchy.insert(1, Link::new(5)).unwrap();
    hierarchy.insert(2, Link::new(6)).unwrap();
    let logged = hierarchy.changed().len();

    hierarchy.remove(3);

    assert_eq!(hierarchy.parent(3), None);
    assert_eq!(hierarchy.parent(5), None);
    assert_eq!(hierarchy.parent(1), None);
    assert_eq!(hierarchy.parent(2), Some(6));
    assert_eq!(
        hierarchy.changed()[logged..].to_vec(),
        vec![
            HierarchyEvent::Removed(3),
            HierarchyEvent::Removed(1),
            HierarchyEvent::Removed(5),
        ]
    );
}

#[test]
fn remove_of_an_unknown_object_is_logged_alone() {
    let mut hierarchy = Hierarchy::new();
    hierarchy.insert(1, Link::new(0)).unwrap();
    hierarchy.remove(40);
    assert_eq!(hierarchy.parent(1), Some(0));
    assert_eq!(
        hierarchy.changed().clone(),
        vec![HierarchyEvent::Modified(1), HierarchyEvent::Removed(40)]
    );
}
