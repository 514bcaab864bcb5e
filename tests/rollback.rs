use rollback::action::Action;
use rollback::buffer::RollbackBuffer;
use rollback::clone::{clone_rollback_world_entities, clone_rollback_world_resources};
use rollback::entity::EntityMap;
use rollback::registry::RollbackRegistry;
use rollback::schedule::RollbackSchedule;
use rollback::system::rollback_system;
use rollback::value::{Field, Prim, Scalar, TypeKey, Value};
use rollback::world::RollbackWorld;

fn isize_key() -> TypeKey {
    TypeKey::Prim(Prim::Isize)
}

fn incer_key() -> TypeKey {
    TypeKey::Named("Incer".to_string())
}

fn incer(inc: i128) -> Value {
    Value::Record("Incer".to_string(), vec![Field::Int(inc)])
}

fn resource_isize(world: &RollbackWorld) -> isize {
    match world.get_resource(&isize_key()) {
        Some(Value::Scalar(Scalar::Isize(x))) => *x,
        other => panic!("no isize resource: {:?}", other),
    }
}

#[test]
fn resource_clone() {
    let mut world = RollbackWorld::new();
    let e = world.spawn();
    world.insert(e, Value::Scalar(Scalar::Usize(10)));
    world.insert(e, Value::Scalar(Scalar::Isize(20)));
    world.insert(e, Value::Text("High".to_string()));

    world.insert_resource(Value::Scalar(Scalar::Usize(10)));
    world.insert_resource(Value::Scalar(Scalar::Isize(-10)));

    let mut other_world = RollbackWorld::new();

    let registry = RollbackRegistry::default();

    clone_rollback_world_entities(&world, &mut other_world, &mut EntityMap::new(), &registry).unwrap();
    clone_rollback_world_resources(&world, &mut other_world, &mut EntityMap::new(), &registry).unwrap();

    assert_eq!(-10, resource_isize(&other_world));
}

#[test]
fn sum_test() {
    let mut world = RollbackWorld::new();
    let mut rollback_buffer = RollbackBuffer::with_capacity(100);
    let registry = RollbackRegistry::default();

    for i in 0..1000usize {
        let e = world.spawn();
        world.insert(e, Value::Scalar(Scalar::Usize(i)));
        rollback_buffer.push_world(i, &world, &registry).unwrap();
        rollback_buffer.inc_frame();
    }

    for i in 0..1000usize {
        if let Some(world) = rollback_buffer.get_world_mut(i) {
            let key = TypeKey::Prim(Prim::Usize);
            let sum: usize = world
                .entities()
                .iter()
                .filter_map(|r| r.components().iter().find(|v| v.has_key(&key)))
                .map(|v| match v {
                    Value::Scalar(Scalar::Usize(x)) => *x,
                    _ => 0,
                })
                .sum();
            assert_eq!((0..=i).sum::<usize>(), sum);
        }
    }
}

#[test]
fn inc_test() {
    let mut world = RollbackWorld::new();
    let mut rollback_buffer = RollbackBuffer::with_capacity(101);
    let mut registry = RollbackRegistry::default();

    registry.register(incer_key());

    world.insert_resource(Value::Scalar(Scalar::Isize(0)));
    world.insert_resource(incer(1));

    let mut step = RollbackSchedule::new();
    step.add_system(Action::Accumulate(isize_key(), incer_key()));

    for _ in 0..100 {
        rollback_system(&mut world, &mut rollback_buffer, &step, &registry).unwrap();
    }

    assert_eq!(100, resource_isize(&world));

    rollback_buffer.add_overrides_relative(100, Action::InsertResource(incer(-1)));

    rollback_system(&mut world, &mut rollback_buffer, &step, &registry).unwrap();
    assert_eq!(-101, resource_isize(&world));
}
