use ecs_core::{ComponentId, EcsError, World};

/// Sets the x of every value of `kind` to `x`, through a query session.
fn set_all_x(world: &mut World<(i32, i32)>, kind: ComponentId, x: i32) {
    let q = world.iter(&vec![kind]).unwrap();
    for i in 0..q.len() {
        let pos = world.query_mut(&q, i, 0).unwrap();
        pos.0 = x;
    }
    world.finish(q);
}

/// Adds each entity's velocity into its position, through a query session.
fn apply_velocity(world: &mut World<(i32, i32)>, position: ComponentId, velocity: ComponentId) {
    let q = world.iter(&vec![position, velocity]).unwrap();
    for i in 0..q.len() {
        let vel = *world.query_mut(&q, i, 1).unwrap();
        let pos = world.query_mut(&q, i, 0).unwrap();
        pos.0 += vel.0;
        pos.1 += vel.1;
    }
    world.finish(q);
}

#[test]
fn ecs_ecs() {
    let mut world: World<(i32, i32)> = World::new();
    let position = world.register_component();
    let velocity = world.register_component();

    let e1 = world
        .add_entity()
        .insert(position, (0, 0))
        .unwrap()
        .insert(velocity, (5, 5))
        .unwrap()
        .entity();
    let e2 = world
        .add_entity()
        .insert(position, (0, 0))
        .unwrap()
        .insert(velocity, (3, 4))
        .unwrap()
        .entity();
    let e3 = world.add_entity().insert(position, (0, 0)).unwrap().entity();

    set_all_x(&mut world, position, 10);
    apply_velocity(&mut world, position, velocity);

    assert_eq!(world.get_component(e1, position).unwrap().0, 15);
    assert_eq!(world.get_component(e2, position).unwrap().0, 13);
    assert_eq!(world.get_component(e3, position).unwrap().0, 10);
}

#[test]
fn mod_ecs() {
    let mut world: World<(i32, i32)> = World::new();

    let position = world.register_component();
    let velocity = world.register_component();

    let e1 = world
        .add_entity()
        .insert(position, (0, 0))
        .unwrap()
        .insert(velocity, (5, 5))
        .unwrap()
        .entity();
    let e2 = world
        .add_entity()
        .insert(position, (0, 0))
        .unwrap()
        .insert(velocity, (3, 4))
        .unwrap()
        .entity();
    let e3 = world.add_entity().insert(position, (0, 0)).unwrap().entity();

    let position_entities = &[e1, e2, e3];
    let q = world.iter(&vec![position]).unwrap();
    for i in 0..q.len() {
        let entity = q.entity(i);
        let pos = world.query_mut(&q, i, 0).unwrap();
        pos.0 = 10;
        assert!(position_entities.contains(&entity));
    }
    world.finish(q);

    let velocity_entities = &[e1, e2];
    let q = world.iter(&vec![position, velocity]).unwrap();
    for i in 0..q.len() {
        let entity = q.entity(i);
        let vel = *world.query_mut(&q, i, 1).unwrap();
        let pos = world.query_mut(&q, i, 0).unwrap();
        pos.0 += vel.0;
        pos.1 += vel.1;
        assert!(velocity_entities.contains(&entity));
    }
    world.finish(q);

    assert_eq!(world.get_component(e1, position).unwrap().0, 15);
    assert_eq!(world.get_component(e2, position).unwrap().0, 13);
    assert_eq!(world.get_component(e3, position).unwrap().0, 10);

    world.remove_component(e1, position).unwrap();

    set_all_x(&mut world, position, 5);

    assert_eq!(world.get_component(e2, position).unwrap().0, 5);
    assert_eq!(world.get_component(e3, position).unwrap().0, 5);

    apply_velocity(&mut world, position, velocity);

    assert_eq!(world.get_component(e2, position).unwrap().0, 8);

    world.remove_entity(e3);
    let e4 = world.add_entity().entity();
    assert_eq!(e3.index, e4.index);
    assert_ne!(e3, e4);
}

#[test]
fn query_lists_each_match_once_ascending() {
    let mut world: World<u32> = World::new();
    let a = world.register_component();
    let b = world.register_component();
    let mut all = Vec::new();
    for n in 0..6u32 {
        all.push(world.add_entity().entity());
        let _ = n;
    }
    // Attach in a scrambled order; the session still lists ascending.
    for &i in &[4usize, 1, 5, 0, 3] {
        world.insert_component(all[i], a, i as u32).unwrap();
    }
    for &i in &[3usize, 5, 1, 2] {
        world.insert_component(all[i], b, 100 + i as u32).unwrap();
    }
    let q = world.iter(&vec![a, b]).unwrap();
    assert_eq!(q.entities(), vec![all[1], all[3], all[5]]);
    world.finish(q);

    let q = world.iter(&vec![b]).unwrap();
    let indices: Vec<usize> = q.entities().iter().map(|e| e.index).collect();
    assert_eq!(indices, vec![1, 2, 3, 5]);
    world.finish(q);
}

#[test]
fn query_writes_are_read_by_get() {
    let mut world: World<i64> = World::new();
    let a = world.register_component();
    let e = world.add_entity().insert(a, 7).unwrap().entity();
    let q = world.iter(&vec![a]).unwrap();
    assert_eq!(q.len(), 1);
    *world.query_mut(&q, 0, 0).unwrap() = -42;
    world.finish(q);
    assert_eq!(world.get_component(e, a), Some(&-42));
}

#[test]
fn removed_component_drops_entity_from_queries_needing_it() {
    let mut world: World<u8> = World::new();
    let a = world.register_component();
    let b = world.register_component();
    let e1 = world.add_entity().insert(a, 1).unwrap().insert(b, 2).unwrap().entity();
    let e2 = world.add_entity().insert(a, 3).unwrap().insert(b, 4).unwrap().entity();

    assert_eq!(world.remove_component(e1, b), Ok(Some(2)));

    let q = world.iter(&vec![a, b]).unwrap();
    assert_eq!(q.entities(), vec![e2]);
    world.finish(q);
    let q = world.iter(&vec![a]).unwrap();
    assert_eq!(q.entities(), vec![e1, e2]);
    world.finish(q);
}

#[test]
fn recycled_entity_is_never_the_old_handle() {
    let mut world: World<u8> = World::new();
    let a = world.register_component();
    let e = world.add_entity().insert(a, 9).unwrap().entity();
    world.remove_entity(e);

    assert_eq!(world.get_component(e, a), None);
    assert_eq!(world.insert_component(e, a, 1), Err(EcsError::EntityDead));
    assert_eq!(world.remove_component(e, a), Err(EcsError::EntityDead));
    assert!(world.entity(e).is_none());

    let fresh = world.add_entity().entity();
    assert_eq!(fresh.index, e.index);
    assert_eq!(fresh.generation, e.generation + 1);
    assert_ne!(fresh, e);
    assert_eq!(world.get_component(fresh, a), None);
    assert_eq!(world.get_component(e, a), None);
    assert_eq!(world.insert_component(e, a, 1), Err(EcsError::EntityDead));
    assert!(world.entity(fresh).is_some());
}

#[test]
fn removing_an_entity_twice_frees_its_slot_once() {
    let mut world: World<u8> = World::new();
    let e = world.add_entity().entity();
    world.remove_entity(e);
    world.remove_entity(e);
    let first = world.add_entity().entity();
    let second = world.add_entity().entity();
    assert_eq!(first.index, e.index);
    assert_ne!(second.index, e.index);
}

#[test]
fn overlapping_sessions_are_refused() {
    let mut world: World<u8> = World::new();
    let a = world.register_component();
    let b = world.register_component();
    let c = world.register_component();
    world.add_entity().insert(a, 1).unwrap().insert(b, 2).unwrap();

    let held = world.iter(&vec![a, b]).unwrap();
    assert_eq!(world.iter(&vec![a]).err(), Some(EcsError::RecursiveBorrowConflict));
    assert_eq!(world.iter(&vec![c, b]).err(), Some(EcsError::RecursiveBorrowConflict));
    let other = world.iter(&vec![c]).unwrap();
    assert_eq!(other.len(), 0);
    world.finish(other);

    world.finish(held);
    let again = world.iter(&vec![a]).unwrap();
    assert_eq!(again.len(), 1);
    world.finish(again);
}

#[test]
fn session_holds_its_permits_until_finished() {
    let mut world: World<u8> = World::new();
    let a = world.register_component();
    world.add_entity().insert(a, 1).unwrap();
    let q = world.iter(&vec![a]).unwrap();
    assert!(world.query_mut(&q, 0, 0).is_some());
    let kinds = q.kinds_vec();
    let copy = world.iter(&kinds);
    assert_eq!(copy.err(), Some(EcsError::RecursiveBorrowConflict));
    world.finish(q);
    let q2 = world.iter(&kinds).unwrap();
    world.finish(q2);
}

#[test]
fn malformed_queries_are_refused() {
    let mut world: World<u8> = World::new();
    let a = world.register_component();
    assert_eq!(world.iter(&vec![a, a]).err(), Some(EcsError::DuplicateComponentInQuery));
    assert_eq!(
        world.iter(&vec![a, ComponentId(7)]).err(),
        Some(EcsError::ComponentNotRegistered)
    );
    // A refused session takes no permit.
    let q = world.iter(&vec![a]).unwrap();
    world.finish(q);
}

#[test]
fn unregistered_component_is_refused() {
    let mut world: World<u8> = World::new();
    let e = world.add_entity().entity();
    let missing = ComponentId(0);
    assert_eq!(world.insert_component(e, missing, 1), Err(EcsError::ComponentNotRegistered));
    assert_eq!(world.remove_component(e, missing), Err(EcsError::ComponentNotRegistered));
    assert_eq!(world.get_component(e, missing), None);
    assert!(world.add_entity().insert(missing, 1).is_err());
}

#[test]
fn insert_then_remove_gives_the_value_back() {
    let mut world: World<String> = World::new();
    let name = world.register_component();
    let e = world.add_entity().entity();
    world.insert_component(e, name, "first".to_string()).unwrap();
    world.insert_component(e, name, "second".to_string()).unwrap();
    assert_eq!(world.remove_component(e, name), Ok(Some("second".to_string())));
    assert_eq!(world.get_component(e, name), None);
    assert_eq!(world.remove_component(e, name), Ok(None));
}

#[test]
fn entry_remove_detaches_component() {
    let mut world: World<u8> = World::new();
    let a = world.register_component();
    let e = world.add_entity().insert(a, 5).unwrap().entity();
    let handle = world.entity(e).unwrap().remove(a).unwrap().entity();
    assert_eq!(handle, e);
    assert_eq!(world.get_component(e, a), None);
}

#[test]
fn empty_world_query_lists_nothing() {
    let mut world: World<u8> = World::new();
    let a = world.register_component();
    let q = world.iter(&vec![a]).unwrap();
    assert_eq!(q.len(), 0);
    assert_eq!(q.kind(0), a);
    world.finish(q);
}
