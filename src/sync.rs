use vstd::prelude::*;
use crate::entity::Entity;
use crate::value::{Field, TypeKey, Value, ValueModel, KeyModel};
use crate::world::{
    RollbackWorld, WorldModel, EntityRecord, has_entity, has_entry, lookup, select, set_entry, unique_keys,
    lemma_entity_index,
};

verus! {

/// A component on an entity of the host's container that follows an entity
/// of the rollback container.
#[derive(Clone, Copy, Debug, PartialEq, Eq, Structural)]
pub struct Synced {
    pub target: Entity,
}

pub open spec fn synced_name() -> Seq<char> {
    "Synced"@
}

pub open spec fn marker_name() -> Seq<char> {
    "SyncedRollback"@
}

/// The component that makes an entity follow `t`.
pub open spec fn synced_model(t: Entity) -> ValueModel {
    ValueModel::Record(synced_name(), seq![Field::Ref(t)])
}

/// The component that marks a rollback entity as already followed.
pub open spec fn marker_model() -> ValueModel {
    ValueModel::Record(marker_name(), seq![])
}

/// The entity that components `c` make their owner follow, if any.
pub open spec fn synced_target(c: Seq<ValueModel>) -> Option<Entity> {
    match lookup(c, KeyModel::Named(synced_name())) {
        Some(ValueModel::Record(_, fs)) => if fs.len() > 0 {
            match fs[0] {
                Field::Ref(t) => Some(t),
                _ => None,
            }
        } else {
            None
        },
        _ => None,
    }
}

/// A host entity stays unless it follows a rollback entity that is gone.
pub open spec fn stays(rb: WorldModel, rec: (Entity, Seq<ValueModel>)) -> bool {
    match synced_target(rec.1) {
        Some(t) => has_entity(rb, t),
        None => true,
    }
}

/// Whether a rollback entity is already followed.
pub open spec fn marked(rec: (Entity, Seq<ValueModel>)) -> bool {
    has_entry(rec.1, KeyModel::Named(marker_name()))
}

/// A rollback entity once followed.
pub open spec fn mark(rec: (Entity, Seq<ValueModel>)) -> (Entity, Seq<ValueModel>) {
    if marked(rec) {
        rec
    } else {
        (rec.0, rec.1.push(marker_model()))
    }
}

/// The rollback entities not yet followed, in order.
pub open spec fn unmarked(s: Seq<(Entity, Seq<ValueModel>)>) -> Seq<Entity>
    decreases s.len(),
{
    if s.len() == 0 {
        seq![]
    } else if marked(s.last()) {
        unmarked(s.drop_last())
    } else {
        unmarked(s.drop_last()).push(s.last().0)
    }
}

proof fn lemma_unmarked_len(s: Seq<(Entity, Seq<ValueModel>)>)
    ensures
        unmarked(s).len() <= s.len(),
    decreases s.len(),
{
    if s.len() > 0 {
        lemma_unmarked_len(s.drop_last());
    }
}

/// The host entities that follow `u`, from identity `base` on.
pub open spec fn followers(u: Seq<Entity>, base: nat) -> Seq<(Entity, Seq<ValueModel>)> {
    Seq::new(u.len(), |j: int| (Entity { id: (base + j) as u64 }, seq![synced_model(u[j])]))
}

impl Synced {
    /// The type of the component.
    pub fn key() -> (r: TypeKey)
        ensures
            r@ == KeyModel::Named(synced_name()),
    {
        TypeKey::Named("Synced".to_owned())
    }

    /// The component as a value.
    pub fn to_value(&self) -> (r: Value)
        ensures
            r@ == synced_model(self.target),
    {
        let mut fs: Vec<Field> = Vec::new();
        fs.push(Field::Ref(self.target));
        assert(fs@ =~= seq![Field::Ref(self.target)]);
        Value::Record("Synced".to_owned(), fs)
    }
}

fn marker_key() -> (r: TypeKey)
    ensures
        r@ == KeyModel::Named(marker_name()),
{
    TypeKey::Named("SyncedRollback".to_owned())
}

fn marker_value() -> (r: Value)
    ensures
        r@ == marker_model(),
{
    let fs: Vec<Field> = Vec::new();
    assert(fs@ =~= seq![]);
    Value::Record("SyncedRollback".to_owned(), fs)
}

/// The entity that the `i`th host entity follows, if any.
fn target_of(outer: &RollbackWorld, i: usize) -> (r: Option<Entity>)
    requires
        outer.wf(),
        i < outer@.entities.len(),
    ensures
        r == synced_target(outer@.entities[i as int].1),
{
    let e = outer.entities()[i].entity();
    proof {
        lemma_entity_index(outer@, i as int);
    }
    match outer.get(e, &Synced::key()) {
        Some(Value::Record(_, fs)) => {
            if fs.len() > 0 {
                match fs[0] {
                    Field::Ref(t) => Some(t),
                    _ => None,
                }
            } else {
                None
            }
        },
        _ => None,
    }
}

/// Keeps the host container in step with the rollback container: host
/// entities that follow a rollback entity that is gone are despawned, and
/// each rollback entity not yet followed gets a new host entity that
/// follows it, and is marked as followed.
pub fn sync_rollback_entities(outer: &mut RollbackWorld, rollback_world: &mut RollbackWorld)
    requires
        old(outer).wf(),
        old(rollback_world).wf(),
        old(outer)@.next_id + old(rollback_world)@.entities.len() <= u64::MAX,
    ensures
        final(outer).wf(),
        final(rollback_world).wf(),
        final(outer)@ == (WorldModel {
            entities: select(
                old(outer)@.entities,
                Seq::new(old(outer)@.entities.len(), |i: int| stays(old(rollback_world)@, old(outer)@.entities[i])),
            ) + followers(unmarked(old(rollback_world)@.entities), old(outer)@.next_id),
            next_id: old(outer)@.next_id + unmarked(old(rollback_world)@.entities).len(),
            ..old(outer)@
        }),
        final(rollback_world)@ == (WorldModel {
            entities: old(rollback_world)@.entities.map_values(|r: (Entity, Seq<ValueModel>)| mark(r)),
            ..old(rollback_world)@
        }),
{
    let ghost o0 = outer@;
    let ghost rb0 = rollback_world@;
    let ghost ks = Seq::new(o0.entities.len(), |i: int| stays(rb0, o0.entities[i]));
    let n = outer.entities().len();
    let mut keep: Vec<bool> = Vec::new();
    let mut i: usize = 0;
    while i < n
        invariant
            i <= n,
            n == o0.entities.len(),
            outer@ == o0,
            outer.wf(),
            rollback_world@ == rb0,
            rollback_world.wf(),
            keep@ == ks.take(i as int),
            ks.len() == n,
            forall|j: int| 0 <= j < n ==> ks[j] == stays(rb0, #[trigger] o0.entities[j]),
        decreases n - i,
    {
        let stay = match target_of(outer, i) {
            Some(t) => rollback_world.contains(t),
            None => true,
        };
        assert(ks[i as int] == stays(rb0, o0.entities[i as int]));
        keep.push(stay);
        assert(keep@ =~= ks.take(i as int + 1));
        i = i + 1;
    }
    assert(keep@ =~= ks);
    outer.retain_entities(&keep);
    let ghost kept = outer@.entities;
    let ghost base = o0.next_id;
    let m = rollback_world.entities().len();
    assert(rollback_world@.entities =~= Seq::new(
        m as nat,
        |j: int| if j < 0 { mark(rb0.entities[j]) } else { rb0.entities[j] },
    ));
    assert(rb0.entities.take(0) =~= seq![]);
    assert(followers(seq![], base) =~= seq![]);
    assert(kept + followers(seq![], base) =~= kept);
    let mut i: usize = 0;
    while i < m
        invariant
            i <= m,
            m == rb0.entities.len(),
            outer.wf(),
            rollback_world.wf(),
            base + m <= u64::MAX,
            rollback_world@ == (WorldModel {
                entities: Seq::new(m as nat, |j: int| if j < i { mark(rb0.entities[j]) } else { rb0.entities[j] }),
                ..rb0
            }),
            outer@ == (WorldModel {
                entities: kept + followers(unmarked(rb0.entities.take(i as int)), base),
                next_id: base + unmarked(rb0.entities.take(i as int)).len(),
                ..o0
            }),
        decreases m - i,
    {
        let ents = rollback_world.entities();
        assert(ents@.map_values(|x: EntityRecord| x@).len() == ents@.len());
        assert(ents@.map_values(|x: EntityRecord| x@)[i as int] == ents@[i as int]@);
        let e = ents[i].entity();
        proof {
            lemma_entity_index(rollback_world@, i as int);
            lemma_unmarked_len(rb0.entities.take(i as int));
        }
        assert(rb0.entities.take(i as int + 1).drop_last() =~= rb0.entities.take(i as int));
        assert(rb0.entities.take(i as int + 1).last() == rb0.entities[i as int]);
        let ghost w = rollback_world@;
        let ghost u = unmarked(rb0.entities.take(i as int));
        let is_marked = rollback_world.get(e, &marker_key()).is_some();
        if !is_marked {
            let mut comps: Vec<Value> = Vec::new();
            comps.push(Synced { target: e }.to_value());
            assert(unique_keys(comps@.map_values(|y: Value| y@)));
            assert(comps@.map_values(|y: Value| y@) =~= seq![synced_model(e)]);
            let f = outer.spawn_with(comps);
            rollback_world.insert(e, marker_value());
            assert(followers(u.push(e), base) =~= followers(u, base).push((f, seq![synced_model(e)])));
            assert(outer@.entities =~= kept + followers(unmarked(rb0.entities.take(i as int + 1)), base));
            assert(set_entry(w.entities[i as int].1, marker_model()) == w.entities[i as int].1.push(marker_model()));
        }
        assert(rollback_world@.entities =~= Seq::new(
            m as nat,
            |j: int| if j < i + 1 { mark(rb0.entities[j]) } else { rb0.entities[j] },
        ));
        i = i + 1;
    }
    assert(rb0.entities.take(m as int) =~= rb0.entities);
    assert(rollback_world@.entities =~= rb0.entities.map_values(|r: (Entity, Seq<ValueModel>)| mark(r)));
}

} // verus!
