use ecs_core::{ComponentStorage, Entity, EntityAllocator};

#[test]
fn storage_insert_overwrites_and_grows() {
    let mut s: ComponentStorage<u32> = ComponentStorage::new();
    assert!(!s.contains(3));
    s.insert(3, 30);
    s.insert(1, 10);
    s.insert(3, 33);
    assert_eq!(s.get(3), Some(&33));
    assert_eq!(s.get(1), Some(&10));
    assert_eq!(s.get(2), None);
    assert_eq!(s.get(100), None);
    assert_eq!(s.presence_index(), vec![1, 3]);
}

#[test]
fn storage_remove_and_get_mut() {
    let mut s: ComponentStorage<u32> = ComponentStorage::new();
    s.insert(0, 1);
    *s.get_mut(0).unwrap() += 4;
    assert_eq!(s.remove(0), Some(5));
    assert_eq!(s.remove(0), None);
    assert!(s.get_mut(0).is_none());
    assert!(s.presence_index().is_empty());
}

#[test]
fn storage_next_entry_skips_empty_slots() {
    let mut s: ComponentStorage<u8> = ComponentStorage::new();
    s.insert(2, 0);
    s.insert(7, 0);
    assert_eq!(s.next_entry(0), Some(2));
    assert_eq!(s.next_entry(2), Some(2));
    assert_eq!(s.next_entry(3), Some(7));
    assert_eq!(s.next_entry(8), None);
}

#[test]
fn allocator_recycles_last_freed_slot() {
    let mut a = EntityAllocator::new();
    let e0 = a.allocate();
    let e1 = a.allocate();
    assert_eq!(e0, Entity::new(0, 0));
    assert_eq!(e1, Entity::new(1, 0));
    assert!(a.free(e0));
    assert!(!a.free(e0));
    assert!(!a.is_alive(e0));
    assert_eq!(a.live_at(0), None);
    let e2 = a.allocate();
    assert_eq!(e2, Entity::new(0, 1));
    assert_eq!(e2.index(), 0);
    assert_eq!(e2.generation(), 1);
    assert!(a.is_alive(e2));
    assert_eq!(a.live_at(0), Some(e2));
    assert_eq!(a.allocate(), Entity::new(2, 0));
}

#[test]
fn allocator_refuses_unknown_handles() {
    let mut a = EntityAllocator::new();
    assert!(!a.free(Entity::new(5, 0)));
    assert!(!a.is_alive(Entity::new(0, 0)));
    let e = a.allocate();
    assert!(!a.is_alive(Entity::new(e.index, e.generation + 1)));
}
