use vstd::prelude::*;
use crate::entity::EntityMap;
use crate::value::{TypeKey, Value, KeyModel, key_of, remap_value};
use crate::world::{RollbackWorld, WorldModel, set_entry, lookup};

verus! {

/// The resource operations of one registered type: insert, apply onto the
/// present value, read, and copy between containers.
pub struct ReflectResource {
    key: TypeKey,
}

impl View for ReflectResource {
    type V = KeyModel;

    closed spec fn view(&self) -> KeyModel {
        self.key@
    }
}

impl ReflectResource {
    /// The operations of type `key`.
    pub fn from_type(key: TypeKey) -> (r: ReflectResource)
        ensures
            r@ == key@,
    {
        ReflectResource { key }
    }

    /// Puts a copy of `resource`, a value of this type, into `world`.
    pub fn add_resource(&self, world: &mut RollbackWorld, resource: &Value)
        requires
            old(world).wf(),
            key_of(resource@) == self@,
        ensures
            final(world).wf(),
            final(world)@ == (WorldModel { resources: set_entry(old(world)@.resources, resource@), ..old(world)@ }),
    {
        world.insert_resource(resource.duplicate());
    }

    /// Puts a copy of `resource` in place of the present value of this type.
    pub fn apply_resource(&self, world: &mut RollbackWorld, resource: &Value)
        requires
            old(world).wf(),
            key_of(resource@) == self@,
            lookup(old(world)@.resources, self@) is Some,
        ensures
            final(world).wf(),
            final(world)@ == (WorldModel { resources: set_entry(old(world)@.resources, resource@), ..old(world)@ }),
    {
        world.insert_resource(resource.duplicate());
    }

    /// The resource of this type in `world`.
    pub fn reflect_resource<'a>(&self, world: &'a RollbackWorld) -> (r: Option<&'a Value>)
        requires
            world.wf(),
        ensures
            match r {
                Some(v) => lookup(world@.resources, self@) == Some(v@),
                None => lookup(world@.resources, self@) is None,
            },
    {
        world.get_resource(&self.key)
    }

    /// Copies the resource of this type from `source_world`, where it must
    /// be, into `destination_world`.
    pub fn copy_resource(&self, source_world: &RollbackWorld, destination_world: &mut RollbackWorld)
        requires
            source_world.wf(),
            old(destination_world).wf(),
            lookup(source_world@.resources, self@) is Some,
        ensures
            final(destination_world).wf(),
            final(destination_world)@ == (WorldModel {
                resources: set_entry(
                    old(destination_world)@.resources,
                    lookup(source_world@.resources, self@).unwrap(),
                ),
                ..old(destination_world)@
            }),
    {
        match source_world.get_resource(&self.key) {
            Some(v) => {
                destination_world.insert_resource(v.duplicate());
            },
            None => {},
        }
    }
}

/// The entity-remapping operation of one registered type, on resources.
pub struct ReflectMapEntitiesResources {
    key: TypeKey,
}

impl View for ReflectMapEntitiesResources {
    type V = KeyModel;

    closed spec fn view(&self) -> KeyModel {
        self.key@
    }
}

impl ReflectMapEntitiesResources {
    /// The operation of type `key`.
    pub fn from_type(key: TypeKey) -> (r: ReflectMapEntitiesResources)
        ensures
            r@ == key@,
    {
        ReflectMapEntitiesResources { key }
    }

    /// Carries the entity references of the resource of this type, if
    /// `world` holds one, through `entity_map`.
    pub fn map_entities(&self, world: &mut RollbackWorld, entity_map: &EntityMap)
        requires
            old(world).wf(),
        ensures
            final(world).wf(),
            final(world)@ == match lookup(old(world)@.resources, self@) {
                Some(v) => WorldModel {
                    resources: set_entry(old(world)@.resources, remap_value(v, entity_map@)),
                    ..old(world)@
                },
                None => old(world)@,
            },
    {
        match world.get_resource(&self.key) {
            Some(v) => {
                let mut c = v.duplicate();
                c.map_entities(entity_map);
                world.insert_resource(c);
            },
            None => {},
        }
    }
}

} // verus!
