use vkengine::bitset::index_limit;
use vkengine::resources::{DirtyEntities, FocusGained, ShouldClose};
use vkengine::storage::{ComponentEvent, FlaggedStorage, StorageError, VecStorage};

#[test]
fn vec_storage_keeps_values_by_slot() {
    let mut storage = VecStorage::new();
    assert_eq!(storage.extent(), 0);
    assert_eq!(storage.insert(3, 'a'), Ok(None));
    assert_eq!(storage.insert(3, 'b'), Ok(Some('a')));
    assert_eq!(storage.insert(0, 'c'), Ok(None));
    assert_eq!(storage.get(3), Some('b'));
    assert_eq!(storage.get(0), Some('c'));
    assert_eq!(storage.get(1), None);
    assert_eq!(storage.get(900), None);
    assert!(storage.contains(3));
    assert!(!storage.contains(2));
    assert_eq!(storage.extent(), 4);
    assert_eq!(storage.remove(3), Some('b'));
    assert_eq!(storage.remove(3), None);
    assert_eq!(storage.remove(900), None);
    assert!(!storage.contains(3));
    assert_eq!(storage.extent(), 4);
}

#[test]
fn vec_storage_refuses_slots_beyond_the_limit() {
    let mut storage = VecStorage::new();
    assert_eq!(storage.insert(index_limit(), 1u8), Err(StorageError::OutOfRange));
    assert_eq!(storage.insert(u32::MAX, 1u8), Err(StorageError::OutOfRange));
    assert_eq!(storage.extent(), 0);
    assert_eq!(storage.insert(index_limit() - 1, 1u8), Ok(None));
    assert_eq!(storage.get(index_limit() - 1), Some(1));
}

#[test]
fn flagged_storage_logs_every_change() {
    let mut storage = FlaggedStorage::new();
    assert!(storage.channel().is_empty());
    assert_eq!(storage.insert(2, 10), Ok(None));
    assert_eq!(storage.insert(2, 11), Ok(Some(10)));
    assert_eq!(storage.remove(2), Some(11));
    assert_eq!(storage.remove(2), None);
    assert_eq!(storage.insert(2, 12), Ok(None));
    assert_eq!(storage.insert(index_limit(), 13), Err(StorageError::OutOfRange));
    assert_eq!(
        storage.channel().clone(),
        vec![
            ComponentEvent::Inserted(2),
            ComponentEvent::Modified(2),
            ComponentEvent::Removed(2),
            ComponentEvent::Inserted(2),
        ]
    );
    assert_eq!(storage.get(2), Some(12));
    assert!(storage.contains(2));
    assert!(!storage.contains(1));
    assert_eq!(storage.extent(), 3);
}

#[test]
fn dirty_entities_mark_and_clear() {
    let mut dirty = DirtyEntities::default();
    assert!(!dirty.contains(0));
    assert!(dirty.mark(0));
    assert!(dirty.mark(70_000));
    assert!(dirty.contains(0));
    assert!(dirty.contains(70_000));
    assert!(!dirty.contains(1));
    assert!(dirty.dirty.contains(70_000));
    dirty.clear();
    assert!(!dirty.contains(0));
    assert!(!dirty.contains(70_000));
}

#[test]
fn dirty_entities_cannot_mark_slots_beyond_the_limit() {
    let mut dirty = DirtyEntities::default();
    assert!(!dirty.mark(index_limit()));
    assert!(!dirty.mark(u32::MAX));
    assert!(!dirty.contains(index_limit()));
    assert!(!dirty.contains(u32::MAX));
    assert!(dirty.mark(index_limit() - 1));
    assert!(dirty.contains(index_limit() - 1));
}

#[test]
fn flags_start_lowered() {
    assert!(!ShouldClose::default().0);
    assert!(!FocusGained::default().0);
}
