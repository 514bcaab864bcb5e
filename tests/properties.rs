use rollback::action::Action;
use rollback::buffer::RollbackBuffer;
use rollback::clone::{clear_world, clone_world, overwrite_world, RollbackError};
use rollback::entity::{Entity, EntityMap};
use rollback::reflect::{ReflectMapEntitiesResources, ReflectResource};
use rollback::registry::RollbackRegistry;
use rollback::schedule::{RollbackSchedule, RollbackStartupSchedule, rollback_startup};
use rollback::sync::{sync_rollback_entities, Synced};
use rollback::system::rollback_system;
use rollback::value::{Field, Prim, Scalar, TypeKey, Value};
use rollback::world::RollbackWorld;

fn isize_key() -> TypeKey {
    TypeKey::Prim(Prim::Isize)
}

fn isize_of(world: &RollbackWorld) -> isize {
    match world.get_resource(&isize_key()) {
        Some(Value::Scalar(Scalar::Isize(x))) => *x,
        other => panic!("no isize resource: {:?}", other),
    }
}

fn usize_of(world: &RollbackWorld, e: Entity) -> usize {
    match world.get(e, &TypeKey::Prim(Prim::Usize)) {
        Some(Value::Scalar(Scalar::Usize(x))) => *x,
        other => panic!("no usize component: {:?}", other),
    }
}

fn world_with_counter(i: usize) -> RollbackWorld {
    let mut w = RollbackWorld::new();
    let e = w.spawn();
    w.insert(e, Value::Scalar(Scalar::Usize(i)));
    w
}

#[test]
fn retention_keeps_exactly_the_last_capacity_frames() {
    let registry = RollbackRegistry::default();
    let mut buffer = RollbackBuffer::with_capacity(5);
    let n: usize = 12;
    for i in 0..n {
        buffer.push_world(i, &world_with_counter(i), &registry).unwrap();
        buffer.inc_frame();
    }
    for i in 0..n {
        let got = buffer.get_world(i);
        assert_eq!(got.is_some(), n - 1 - i < 5, "frame {}", i);
        if let Some(w) = got {
            let e = w.entities()[0].entity();
            assert_eq!(usize_of(w, e), i);
        }
    }
    assert!(buffer.get_world(n + 3).is_none());
}

#[test]
fn push_returns_the_evicted_snapshot() {
    let registry = RollbackRegistry::default();
    let mut buffer = RollbackBuffer::with_capacity(2);
    assert!(buffer.push_world(0, &world_with_counter(7), &registry).unwrap().is_none());
    assert!(buffer.push_world(1, &world_with_counter(8), &registry).unwrap().is_none());
    let evicted = buffer.push_world(2, &world_with_counter(9), &registry).unwrap().unwrap();
    let e = evicted.entities()[0].entity();
    assert_eq!(usize_of(&evicted, e), 7);
}

#[test]
fn clone_keeps_components_and_resources() {
    let mut w = RollbackWorld::new();
    for i in 0..10usize {
        let e = w.spawn();
        w.insert(e, Value::Scalar(Scalar::Usize(i)));
        w.insert(e, Value::Text(format!("e{}", i)));
    }
    w.insert_resource(Value::Scalar(Scalar::Bool(true)));
    w.insert_resource(Value::Scalar(Scalar::I64(-5)));
    w.insert_resource(Value::Text("name".to_string()));
    let registry = RollbackRegistry::default();
    let c = clone_world(&w, &registry).unwrap();
    assert_eq!(c.entities().len(), 10);
    let sum: usize = c.entities().iter().map(|r| usize_of(&c, r.entity())).sum();
    assert_eq!(sum, 45);
    match c.get(c.entities()[3].entity(), &TypeKey::Prim(Prim::Text)) {
        Some(Value::Text(s)) => assert_eq!(s, "e3"),
        other => panic!("{:?}", other),
    }
    assert!(matches!(c.get_resource(&TypeKey::Prim(Prim::Bool)), Some(Value::Scalar(Scalar::Bool(true)))));
    assert!(matches!(c.get_resource(&TypeKey::Prim(Prim::I64)), Some(Value::Scalar(Scalar::I64(-5)))));
    assert_eq!(c.resources().len(), 3);
}

#[test]
fn unregistered_type_is_rejected_until_registered() {
    let mut w = RollbackWorld::new();
    let e = w.spawn();
    w.insert(e, Value::Record("Health".to_string(), vec![Field::Int(3)]));
    let mut registry = RollbackRegistry::default();
    match clone_world(&w, &registry) {
        Err(RollbackError::UnregisteredType(name)) => assert_eq!(name, "Health"),
        Ok(_) => panic!("clone of an unregistered type succeeded"),
    }
    registry.register(TypeKey::Named("Health".to_string()));
    let c = clone_world(&w, &registry).unwrap();
    assert!(matches!(c.get(c.entities()[0].entity(), &TypeKey::Named("Health".to_string())), Some(Value::Record(_, _))));
}

#[test]
fn unregistered_resource_names_its_type() {
    let mut w = RollbackWorld::new();
    w.insert_resource(Value::Record("Pool".to_string(), vec![]));
    let registry = RollbackRegistry::default();
    let err = clone_world(&w, &registry).err().unwrap();
    assert_eq!(err.offending_type(), "Pool");
}

#[test]
fn opaque_type_is_skipped() {
    let mut w = RollbackWorld::new();
    w.insert_resource(Value::Record("TaskPool".to_string(), vec![]));
    w.insert_resource(Value::Scalar(Scalar::U8(4)));
    let mut registry = RollbackRegistry::default();
    registry.register_unreflectable(TypeKey::Named("TaskPool".to_string()));
    let c = clone_world(&w, &registry).unwrap();
    assert_eq!(c.resources().len(), 1);
    assert!(c.get_resource(&TypeKey::Named("TaskPool".to_string())).is_none());
}

#[test]
fn entity_references_follow_the_clone() {
    let mut w = RollbackWorld::new();
    let filler = w.spawn();
    w.despawn(filler);
    let a = w.spawn();
    let b = w.spawn();
    w.insert(b, Value::Record("Parent".to_string(), vec![Field::Ref(a)]));
    let mut registry = RollbackRegistry::default();
    registry.register_entity_mappable(TypeKey::Named("Parent".to_string()));
    let mut target = RollbackWorld::new();
    let mut map = EntityMap::new();
    rollback::clone::clone_rollback_world_entities(&w, &mut target, &mut map, &registry).unwrap();
    let a2 = map.get(a).unwrap();
    let b2 = map.get(b).unwrap();
    assert_ne!(a2, a);
    match target.get(b2, &TypeKey::Named("Parent".to_string())) {
        Some(Value::Record(_, fs)) => assert_eq!(fs[0], Field::Ref(a2)),
        other => panic!("{:?}", other),
    }
}

#[test]
fn plain_registration_keeps_references_unchanged() {
    let mut w = RollbackWorld::new();
    let filler = w.spawn();
    w.despawn(filler);
    let a = w.spawn();
    w.insert(a, Value::Record("Link".to_string(), vec![Field::Ref(a)]));
    let mut registry = RollbackRegistry::default();
    registry.register(TypeKey::Named("Link".to_string()));
    let c = clone_world(&w, &registry).unwrap();
    match c.get(c.entities()[0].entity(), &TypeKey::Named("Link".to_string())) {
        Some(Value::Record(_, fs)) => assert_eq!(fs[0], Field::Ref(a)),
        other => panic!("{:?}", other),
    }
}

#[test]
fn overwrite_replaces_everything() {
    let registry = RollbackRegistry::default();
    let source = world_with_counter(3);
    let mut target = world_with_counter(4);
    target.spawn();
    target.insert_resource(Value::Scalar(Scalar::U16(1)));
    overwrite_world(&source, &mut target, &registry).unwrap();
    assert_eq!(target.entities().len(), 1);
    assert_eq!(target.resources().len(), 0);
    let e = target.entities()[0].entity();
    assert_eq!(usize_of(&target, e), 3);
    assert_eq!(e.id, 2);
}

#[test]
fn overwrite_failure_leaves_target_alone() {
    let registry = RollbackRegistry::default();
    let mut source = RollbackWorld::new();
    source.insert_resource(Value::Record("Unknown".to_string(), vec![]));
    let mut target = world_with_counter(4);
    assert!(overwrite_world(&source, &mut target, &registry).is_err());
    assert_eq!(target.entities().len(), 1);
}

#[test]
fn clear_world_empties_the_container() {
    let mut w = world_with_counter(1);
    w.insert_resource(Value::Scalar(Scalar::U32(2)));
    clear_world(&mut w);
    assert!(w.entities().is_empty());
    assert!(w.resources().is_empty());
    assert_eq!(w.next_entity_id(), 1);
}

#[test]
fn overrides_run_in_order_before_the_step() {
    let registry = RollbackRegistry::default();
    let mut world = RollbackWorld::new();
    world.insert_resource(Value::Scalar(Scalar::Isize(0)));
    world.insert_resource(Value::Scalar(Scalar::I32(0)));
    let mut step = RollbackSchedule::new();
    step.add_system(Action::Accumulate(isize_key(), TypeKey::Prim(Prim::I32)));
    let mut buffer = RollbackBuffer::with_capacity(4);
    buffer.add_override(0, Action::InsertResource(Value::Scalar(Scalar::I32(5))));
    buffer.add_override(0, Action::InsertResource(Value::Scalar(Scalar::I32(7))));
    assert_eq!(buffer.get_override(0).unwrap().len(), 2);
    rollback_system(&mut world, &mut buffer, &step, &registry).unwrap();
    assert_eq!(isize_of(&world), 7);
}

#[test]
fn rollback_distance_tracks_the_oldest_override_and_resets() {
    let registry = RollbackRegistry::default();
    let mut world = RollbackWorld::new();
    world.insert_resource(Value::Scalar(Scalar::Isize(0)));
    let step = RollbackSchedule::new();
    let mut buffer = RollbackBuffer::with_capacity(10);
    for _ in 0..8 {
        rollback_system(&mut world, &mut buffer, &step, &registry).unwrap();
    }
    assert_eq!(buffer.current_frame(), 8);
    buffer.add_override(5, Action::RemoveResource(TypeKey::Prim(Prim::U8)));
    assert_eq!(buffer.rollback_needed(), 3);
    buffer.add_override(2, Action::RemoveResource(TypeKey::Prim(Prim::U8)));
    assert_eq!(buffer.rollback_needed(), 6);
    buffer.add_override(7, Action::RemoveResource(TypeKey::Prim(Prim::U8)));
    assert_eq!(buffer.rollback_needed(), 6);
    buffer.add_override(20, Action::RemoveResource(TypeKey::Prim(Prim::U8)));
    assert_eq!(buffer.rollback_needed(), 6);
    rollback_system(&mut world, &mut buffer, &step, &registry).unwrap();
    assert_eq!(buffer.rollback_needed(), 0);
    assert_eq!(buffer.current_frame(), 9);
}

#[test]
fn rollback_matches_simulation_from_scratch() {
    let registry = RollbackRegistry::default();
    let mut step = RollbackSchedule::new();
    step.add_system(Action::Accumulate(isize_key(), TypeKey::Prim(Prim::I64)));
    let fresh = || {
        let mut w = RollbackWorld::new();
        w.insert_resource(Value::Scalar(Scalar::Isize(0)));
        w.insert_resource(Value::Scalar(Scalar::I64(2)));
        w
    };
    let mut late = fresh();
    let mut late_buffer = RollbackBuffer::with_capacity(16);
    for _ in 0..10 {
        rollback_system(&mut late, &mut late_buffer, &step, &registry).unwrap();
    }
    late_buffer.add_override(4, Action::InsertResource(Value::Scalar(Scalar::I64(-3))));
    rollback_system(&mut late, &mut late_buffer, &step, &registry).unwrap();

    let mut early = fresh();
    let mut early_buffer = RollbackBuffer::with_capacity(16);
    early_buffer.add_override(4, Action::InsertResource(Value::Scalar(Scalar::I64(-3))));
    for _ in 0..11 {
        rollback_system(&mut early, &mut early_buffer, &step, &registry).unwrap();
    }
    assert_eq!(isize_of(&late), 4 * 2 + 7 * -3);
    assert_eq!(isize_of(&late), isize_of(&early));
}

#[test]
fn remove_override_takes_the_batch() {
    let mut buffer = RollbackBuffer::with_capacity(3);
    assert!(buffer.remove_override(1).is_none());
    buffer.add_override(1, Action::Despawn(Entity { id: 0 }));
    let batch = buffer.remove_override(1).unwrap();
    assert_eq!(batch.len(), 1);
    assert!(buffer.get_override(1).is_none());
}

#[test]
fn accumulate_ignores_overflow() {
    let mut world = RollbackWorld::new();
    world.insert_resource(Value::Scalar(Scalar::Isize(isize::MAX)));
    world.insert_resource(Value::Scalar(Scalar::I32(1)));
    Action::Accumulate(isize_key(), TypeKey::Prim(Prim::I32)).apply(&mut world);
    assert_eq!(isize_of(&world), isize::MAX);
}

#[test]
fn sync_follows_rollback_entities() {
    let mut outer = RollbackWorld::new();
    let mut rb = RollbackWorld::new();
    let a = rb.spawn();
    let b = rb.spawn();
    sync_rollback_entities(&mut outer, &mut rb);
    assert_eq!(outer.entities().len(), 2);
    let first = outer.entities()[0].entity();
    assert!(matches!(outer.get(first, &Synced::key()), Some(Value::Record(_, fs)) if fs[0] == Field::Ref(a)));
    sync_rollback_entities(&mut outer, &mut rb);
    assert_eq!(outer.entities().len(), 2);
    rb.despawn(b);
    sync_rollback_entities(&mut outer, &mut rb);
    assert_eq!(outer.entities().len(), 1);
    assert_eq!(outer.entities()[0].entity(), first);
}

#[test]
fn capability_records_copy_and_remap() {
    let key = TypeKey::Named("Target".to_string());
    let mut source = RollbackWorld::new();
    let e = source.spawn();
    source.insert_resource(Value::Record("Target".to_string(), vec![Field::Ref(e)]));
    let mut dest = RollbackWorld::new();
    let reflect = ReflectResource::from_type(key.clone());
    reflect.copy_resource(&source, &mut dest);
    assert!(reflect.reflect_resource(&dest).is_some());
    let mut map = EntityMap::new();
    map.insert(e, Entity { id: 42 });
    ReflectMapEntitiesResources::from_type(key.clone()).map_entities(&mut dest, &map);
    match dest.get_resource(&key) {
        Some(Value::Record(_, fs)) => assert_eq!(fs[0], Field::Ref(Entity { id: 42 })),
        other => panic!("{:?}", other),
    }
    reflect.apply_resource(&mut dest, &Value::Record("Target".to_string(), vec![]));
    assert!(matches!(dest.get_resource(&key), Some(Value::Record(_, fs)) if fs.is_empty()));
}

#[test]
fn startup_schedule_runs_once() {
    let mut world = RollbackWorld::new();
    let mut startup = RollbackStartupSchedule::new();
    startup.add_system(Action::InsertResource(Value::Scalar(Scalar::Isize(9))));
    rollback_startup(&mut world, &startup);
    assert_eq!(isize_of(&world), 9);
}

#[test]
fn type_names_of_primitives() {
    assert_eq!(TypeKey::Prim(Prim::Usize).name(), "usize");
    assert_eq!(TypeKey::Prim(Prim::Text).name(), "String");
    assert_eq!(TypeKey::Named("X".to_string()).name(), "X");
}

#[test]
fn mapped_source_entity_reuses_its_target() {
    let mut source = RollbackWorld::new();
    let a = source.spawn();
    source.insert(a, Value::Scalar(Scalar::U32(11)));
    let mut target = RollbackWorld::new();
    let existing = target.spawn();
    let mut map = EntityMap::new();
    map.insert(a, existing);
    let registry = RollbackRegistry::default();
    rollback::clone::clone_rollback_world_entities(&source, &mut target, &mut map, &registry).unwrap();
    assert_eq!(target.entities().len(), 1);
    assert_eq!(map.get(a), Some(existing));
    assert!(matches!(target.get(existing, &TypeKey::Prim(Prim::U32)), Some(Value::Scalar(Scalar::U32(11)))));
}

#[test]
fn push_keeps_override_batches() {
    let registry = RollbackRegistry::default();
    let mut buffer = RollbackBuffer::with_capacity(1);
    buffer.push_world(0, &RollbackWorld::new(), &registry).unwrap();
    buffer.add_override(0, Action::Despawn(Entity { id: 3 }));
    let evicted = buffer.push_world(1, &RollbackWorld::new(), &registry).unwrap();
    assert!(evicted.is_some());
    assert_eq!(buffer.remove_override(0).unwrap().len(), 1);
}

#[test]
fn batch_can_be_extended_in_place() {
    let mut buffer = RollbackBuffer::with_capacity(2);
    assert!(buffer.get_override_mut(0).is_none());
    buffer.add_override(0, Action::Despawn(Entity { id: 1 }));
    buffer.get_override_mut(0).unwrap().push(Action::Despawn(Entity { id: 2 }));
    assert_eq!(buffer.get_override(0).unwrap().len(), 2);
}
