use vstd::prelude::*;
use crate::entity::Entity;
use crate::value::{Field, Scalar, TypeKey, Value, ValueModel, KeyModel};
use crate::world::{
    RollbackWorld, WorldModel, set_entry, remove_entry, lookup, has_entity, entity_index,
};

verus! {

/// A mutation of a state container, described as data so that it can be
/// queued for a frame and run again whenever that frame is recomputed.
#[derive(Debug)]
pub enum Action {
    /// Puts a resource in place of the one of its type.
    InsertResource(Value),
    /// Removes the resource of a type.
    RemoveResource(TypeKey),
    /// Attaches a component to an entity, in place of one of its type.
    Insert(Entity, Value),
    /// Removes an entity.
    Despawn(Entity),
    /// Adds the amount held by the resource of the second type (a signed
    /// scalar, or the leading integer field of a record) to the `isize`
    /// resource of the first; nothing happens if either is missing or the
    /// sum leaves the `isize` range.
    Accumulate(TypeKey, TypeKey),
}

/// An action as a mathematical value.
pub enum ActionModel {
    InsertResource(ValueModel),
    RemoveResource(KeyModel),
    Insert(Entity, ValueModel),
    Despawn(Entity),
    Accumulate(KeyModel, KeyModel),
}

impl View for Action {
    type V = ActionModel;

    open spec fn view(&self) -> ActionModel {
        match self {
            Action::InsertResource(v) => ActionModel::InsertResource(v@),
            Action::RemoveResource(k) => ActionModel::RemoveResource(k@),
            Action::Insert(e, v) => ActionModel::Insert(*e, v@),
            Action::Despawn(e) => ActionModel::Despawn(*e),
            Action::Accumulate(t, a) => ActionModel::Accumulate(t@, a@),
        }
    }
}

/// The `isize` resource of type `k`, if `w` holds one.
pub open spec fn isize_resource(w: WorldModel, k: KeyModel) -> Option<int> {
    match lookup(w.resources, k) {
        Some(ValueModel::Scalar(Scalar::Isize(x))) => Some(x as int),
        _ => None,
    }
}

/// The amount a value holds: a signed scalar, or a record's leading
/// integer field.
pub open spec fn amount_of(v: ValueModel) -> Option<int> {
    match v {
        ValueModel::Scalar(Scalar::Isize(x)) => Some(x as int),
        ValueModel::Scalar(Scalar::I32(x)) => Some(x as int),
        ValueModel::Scalar(Scalar::I64(x)) => Some(x as int),
        ValueModel::Record(_, fs) => if fs.len() > 0 {
            match fs[0] {
                Field::Int(i) => Some(i as int),
                _ => None,
            }
        } else {
            None
        },
        _ => None,
    }
}

/// The amount held by the resource of type `k`, if `w` holds one.
pub open spec fn amount_resource(w: WorldModel, k: KeyModel) -> Option<int> {
    match lookup(w.resources, k) {
        Some(v) => amount_of(v),
        None => None,
    }
}

/// What running `a` makes of `w`.
pub open spec fn apply_action(a: ActionModel, w: WorldModel) -> WorldModel {
    match a {
        ActionModel::InsertResource(v) => WorldModel { resources: set_entry(w.resources, v), ..w },
        ActionModel::RemoveResource(k) => WorldModel { resources: remove_entry(w.resources, k), ..w },
        ActionModel::Insert(e, v) => if has_entity(w, e) {
            WorldModel {
                entities: w.entities.update(
                    entity_index(w, e),
                    (e, set_entry(w.entities[entity_index(w, e)].1, v)),
                ),
                ..w
            }
        } else {
            w
        },
        ActionModel::Despawn(e) => if has_entity(w, e) {
            WorldModel { entities: w.entities.remove(entity_index(w, e)), ..w }
        } else {
            w
        },
        ActionModel::Accumulate(t, s) => match (isize_resource(w, t), amount_resource(w, s)) {
            (Some(x), Some(y)) => if isize::MIN <= x + y <= isize::MAX {
                WorldModel {
                    resources: set_entry(w.resources, ValueModel::Scalar(Scalar::Isize((x + y) as isize))),
                    ..w
                }
            } else {
                w
            },
            _ => w,
        },
    }
}

/// What running the actions of `b` in order makes of `w`.
pub open spec fn apply_batch(b: Seq<ActionModel>, w: WorldModel) -> WorldModel
    decreases b.len(),
{
    if b.len() == 0 {
        w
    } else {
        apply_action(b.last(), apply_batch(b.drop_last(), w))
    }
}

/// The `isize` value of the resource of type `k`.
fn read_isize(world: &RollbackWorld, k: &TypeKey) -> (r: Option<isize>)
    requires
        world.wf(),
    ensures
        match r {
            Some(x) => isize_resource(world@, k@) == Some(x as int),
            None => isize_resource(world@, k@) is None,
        },
{
    match world.get_resource(k) {
        Some(Value::Scalar(Scalar::Isize(x))) => Some(*x),
        _ => None,
    }
}

/// The amount held by the resource of type `k`.
fn read_amount(world: &RollbackWorld, k: &TypeKey) -> (r: Option<i128>)
    requires
        world.wf(),
    ensures
        match r {
            Some(x) => amount_resource(world@, k@) == Some(x as int),
            None => amount_resource(world@, k@) is None,
        },
{
    match world.get_resource(k) {
        Some(Value::Scalar(Scalar::Isize(x))) => Some(*x as i128),
        Some(Value::Scalar(Scalar::I32(x))) => Some(*x as i128),
        Some(Value::Scalar(Scalar::I64(x))) => Some(*x as i128),
        Some(Value::Record(_, fs)) => {
            if fs.len() > 0 {
                match fs[0] {
                    Field::Int(i) => Some(i),
                    _ => None,
                }
            } else {
                None
            }
        },
        _ => None,
    }
}

impl Action {
    /// Runs this action on `world`.
    pub fn apply(&self, world: &mut RollbackWorld)
        requires
            old(world).wf(),
        ensures
            final(world).wf(),
            final(world)@ == apply_action(self@, old(world)@),
    {
        match self {
            Action::InsertResource(v) => {
                world.insert_resource(v.duplicate());
            },
            Action::RemoveResource(k) => {
                world.remove_resource(k);
            },
            Action::Insert(e, v) => {
                world.insert(*e, v.duplicate());
            },
            Action::Despawn(e) => {
                world.despawn(*e);
            },
            Action::Accumulate(t, s) => {
                match (read_isize(world, t), read_amount(world, s)) {
                    (Some(x), Some(y)) => {
                        match (x as i128).checked_add(y) {
                            Some(z) => {
                                if (isize::MIN as i128) <= z && z <= (isize::MAX as i128) {
                                    world.insert_resource(Value::Scalar(Scalar::Isize(z as isize)));
                                }
                            },
                            None => {},
                        }
                    },
                    _ => {},
                }
            },
        }
    }

    /// An independent copy of this action.
    pub fn duplicate(&self) -> (r: Action)
        ensures
            r@ == self@,
    {
        match self {
            Action::InsertResource(v) => Action::InsertResource(v.duplicate()),
            Action::RemoveResource(k) => Action::RemoveResource(k.duplicate()),
            Action::Insert(e, v) => Action::Insert(*e, v.duplicate()),
            Action::Despawn(e) => Action::Despawn(*e),
            Action::Accumulate(t, s) => Action::Accumulate(t.duplicate(), s.duplicate()),
        }
    }
}

/// Runs the actions of `batch` on `world`, in order.
pub fn apply_all(batch: &Vec<Action>, world: &mut RollbackWorld)
    requires
        old(world).wf(),
    ensures
        final(world).wf(),
        final(world)@ == apply_batch(batch@.map_values(|a: Action| a@), old(world)@),
{
    let ghost b = batch@.map_values(|a: Action| a@);
    let ghost w0 = world@;
    let mut i: usize = 0;
    while i < batch.len()
        invariant
            i <= batch@.len(),
            b == batch@.map_values(|a: Action| a@),
            world.wf(),
            world@ == apply_batch(b.take(i as int), w0),
        decreases batch@.len() - i,
    {
        assert(b.take(i as int + 1).drop_last() =~= b.take(i as int));
        batch[i].apply(world);
        i = i + 1;
    }
    assert(b.take(b.len() as int) =~= b);
}

} // verus!
