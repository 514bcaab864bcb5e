use vstd::prelude::*;
use crate::entity::{Entity, EntityMap};
use crate::registry::{RollbackRegistry, RegistryModel, registry_wf};
use crate::value::{Value, ValueModel, KeyModel, key_of, key_name, remap_value};
use crate::world::{RollbackWorld, WorldModel, EntityRecord, unique_keys, set_entry, world_wf, has_entity, entity_index, lemma_entity_index};

verus! {

/// The one way cloning fails: a type that is neither registered nor opaque.
#[derive(Debug)]
pub enum RollbackError {
    UnregisteredType(String),
}

impl RollbackError {
    /// The display name of the offending type.
    pub fn offending_type(&self) -> (r: &String)
        ensures
            r == match self {
                RollbackError::UnregisteredType(n) => n,
            },
    {
        match self {
            RollbackError::UnregisteredType(n) => n,
        }
    }
}

/// A type that the cloner can neither copy nor skip.
pub open spec fn rejected(r: RegistryModel, k: KeyModel) -> bool {
    !r.registered.contains(k) && !r.opaque.contains(k)
}

/// Every value of `s` can be copied or skipped.
pub open spec fn clonable(s: Seq<ValueModel>, r: RegistryModel) -> bool {
    forall|i: int| 0 <= i < s.len() ==> !rejected(r, key_of(#[trigger] s[i]))
}

/// Every component of every entity of `w` can be copied or skipped.
pub open spec fn entities_clonable(w: WorldModel, r: RegistryModel) -> bool {
    forall|i: int| 0 <= i < w.entities.len() ==> clonable(#[trigger] w.entities[i].1, r)
}

/// Some value of `s` has the rejected type whose name `n` is.
pub open spec fn names_rejected(s: Seq<ValueModel>, r: RegistryModel, n: Seq<char>) -> bool {
    exists|i: int| 0 <= i < s.len() && rejected(r, key_of(s[i])) && key_name(key_of(s[i])) == n
}

/// The copy of `v` in the destination: its entity references carried
/// through `m` when its type holds such references.
pub open spec fn copy_of(v: ValueModel, r: RegistryModel, m: Map<u64, u64>) -> ValueModel {
    if r.mappable.contains(key_of(v)) {
        remap_value(v, m)
    } else {
        v
    }
}

/// The copies of the values of `s` whose types are registered, in order.
pub open spec fn copied(s: Seq<ValueModel>, r: RegistryModel, m: Map<u64, u64>) -> Seq<ValueModel>
    decreases s.len(),
{
    if s.len() == 0 {
        seq![]
    } else {
        let rest = copied(s.drop_last(), r, m);
        if r.registered.contains(key_of(s.last())) {
            rest.push(copy_of(s.last(), r, m))
        } else {
            rest
        }
    }
}

/// `m` with the `i`th entity of `src` sent to identity `base + i`.
pub open spec fn extend_map(m: Map<u64, u64>, src: Seq<(Entity, Seq<ValueModel>)>, base: nat) -> Map<u64, u64>
    decreases src.len(),
{
    if src.len() == 0 {
        m
    } else {
        extend_map(m, src.drop_last(), base).insert(src.last().0.id, (base + src.len() - 1) as u64)
    }
}

/// The entities that cloning `src` adds, from identity `base` on.
pub open spec fn cloned_entities(
    src: Seq<(Entity, Seq<ValueModel>)>,
    r: RegistryModel,
    m: Map<u64, u64>,
    base: nat,
) -> Seq<(Entity, Seq<ValueModel>)> {
    Seq::new(src.len(), |i: int| (Entity { id: (base + i) as u64 }, copied(src[i].1, r, m)))
}

/// `s` with each value of `vs` put in, in order.
pub open spec fn set_entries(s: Seq<ValueModel>, vs: Seq<ValueModel>) -> Seq<ValueModel>
    decreases vs.len(),
{
    if vs.len() == 0 {
        s
    } else {
        set_entry(set_entries(s, vs.drop_last()), vs.last())
    }
}

proof fn lemma_copy_key(v: ValueModel, r: RegistryModel, m: Map<u64, u64>)
    ensures
        key_of(copy_of(v, r, m)) == key_of(v),
{
}

/// Every copied value has the type of some value of the source.
proof fn lemma_copied_keys(s: Seq<ValueModel>, r: RegistryModel, m: Map<u64, u64>, j: int)
    requires
        0 <= j < copied(s, r, m).len(),
    ensures
        exists|i: int| 0 <= i < s.len() && key_of(s[i]) == key_of(#[trigger] copied(s, r, m)[j]),
    decreases s.len(),
{
    let rest = copied(s.drop_last(), r, m);
    if j < rest.len() {
        lemma_copied_keys(s.drop_last(), r, m, j);
        let i = choose|i: int| 0 <= i < s.drop_last().len() && key_of(s.drop_last()[i]) == key_of(rest[j]);
        assert(s[i] == s.drop_last()[i]);
    } else {
        lemma_copy_key(s.last(), r, m);
        assert(key_of(s[s.len() - 1]) == key_of(copied(s, r, m)[j]));
    }
}

/// Copying keeps types unique.
proof fn lemma_copied_unique(s: Seq<ValueModel>, r: RegistryModel, m: Map<u64, u64>)
    requires
        unique_keys(s),
    ensures
        unique_keys(copied(s, r, m)),
    decreases s.len(),
{
    if s.len() > 0 {
        let d = s.drop_last();
        assert(unique_keys(d)) by {
            assert forall|a: int, b: int| 0 <= a < b < d.len() implies key_of(d[a]) != key_of(d[b]) by {
                assert(d[a] == s[a] && d[b] == s[b]);
            }
        }
        lemma_copied_unique(d, r, m);
        let rest = copied(d, r, m);
        if r.registered.contains(key_of(s.last())) {
            let c = copied(s, r, m);
            lemma_copy_key(s.last(), r, m);
            assert forall|a: int, b: int| 0 <= a < b < c.len() implies key_of(c[a]) != key_of(c[b]) by {
                if b == c.len() - 1 {
                    lemma_copied_keys(d, r, m, a);
                    let i = choose|i: int| 0 <= i < d.len() && key_of(d[i]) == key_of(#[trigger] rest[a]);
                    assert(d[i] == s[i]);
                    assert(key_of(s[i]) != key_of(s[s.len() - 1]));
                } else {
                    assert(c[a] == rest[a] && c[b] == rest[b]);
                }
            }
        }
    }
}

/// The copies of the values of `src` whose types are registered.
fn copy_values(src: &Vec<Value>, registry: &RollbackRegistry, map: &EntityMap) -> (r: Vec<Value>)
    ensures
        r@.map_values(|y: Value| y@) == copied(src@.map_values(|y: Value| y@), registry@, map@),
{
    let ghost s = src@.map_values(|y: Value| y@);
    let mut out: Vec<Value> = Vec::new();
    let mut i: usize = 0;
    while i < src.len()
        invariant
            i <= src@.len(),
            s == src@.map_values(|y: Value| y@),
            out@.map_values(|y: Value| y@) == copied(s.take(i as int), registry@, map@),
        decreases src@.len() - i,
    {
        let k = src[i].key();
        assert(s.take(i as int + 1).drop_last() =~= s.take(i as int));
        assert(s.take(i as int + 1).last() == s[i as int]);
        if registry.is_registered(&k) {
            let mut v = src[i].duplicate();
            if registry.is_entity_mappable(&k) {
                v.map_entities(map);
            }
            out.push(v);
            assert(out@.map_values(|y: Value| y@) =~= copied(s.take(i as int + 1), registry@, map@));
        }
        i = i + 1;
    }
    assert(s.take(src@.len() as int) =~= s);
    out
}

/// Finds a value of `src` whose type is rejected.
fn check_values(src: &Vec<Value>, registry: &RollbackRegistry) -> (r: Result<(), RollbackError>)
    ensures
        r is Ok <==> clonable(src@.map_values(|y: Value| y@), registry@),
        r matches Err(RollbackError::UnregisteredType(n)) ==> names_rejected(
            src@.map_values(|y: Value| y@),
            registry@,
            n@,
        ),
{
    let ghost s = src@.map_values(|y: Value| y@);
    let mut i: usize = 0;
    while i < src.len()
        invariant
            i <= src@.len(),
            s == src@.map_values(|y: Value| y@),
            forall|j: int| 0 <= j < i ==> !rejected(registry@, key_of(#[trigger] s[j])),
        decreases src@.len() - i,
    {
        let k = src[i].key();
        if !registry.is_registered(&k) && !registry.is_unreflectable(&k) {
            let n = k.name();
            assert(rejected(registry@, key_of(s[i as int])));
            return Err(RollbackError::UnregisteredType(n));
        }
        i = i + 1;
    }
    Ok(())
}

/// Some component of some entity of `w` has the rejected type whose name `n` is.
pub open spec fn entities_name_rejected(w: WorldModel, r: RegistryModel, n: Seq<char>) -> bool {
    exists|i: int| 0 <= i < w.entities.len() && names_rejected(#[trigger] w.entities[i].1, r, n)
}

/// Finds a component of `world` whose type is rejected.
fn check_entities(world: &RollbackWorld, registry: &RollbackRegistry) -> (r: Result<(), RollbackError>)
    ensures
        r is Ok <==> entities_clonable(world@, registry@),
        r matches Err(RollbackError::UnregisteredType(n)) ==> entities_name_rejected(world@, registry@, n@),
{
    let entities = world.entities();
    let mut i: usize = 0;
    while i < entities.len()
        invariant
            i <= entities@.len(),
            entities@.map_values(|x: EntityRecord| x@) == world@.entities,
            forall|j: int| 0 <= j < i ==> clonable(#[trigger] world@.entities[j].1, registry@),
        decreases entities@.len() - i,
    {
        let comps = entities[i].components();
        assert(world@.entities[i as int] == entities@[i as int]@);
        match check_values(comps, registry) {
            Ok(()) => {},
            Err(e) => {
                return Err(e);
            },
        }
        i = i + 1;
    }
    Ok(())
}

/// Copies every entity of `source` into `target` under a fresh identity,
/// recorded in `entity_map`, with the copies of its registered components;
/// entity references in the copies of entity-mappable types point at the
/// new identities. This is the cloning of a whole container, whose map
/// starts empty. Fails, changing nothing, where a component's type is
/// neither registered nor opaque.
fn clone_entities_fresh(
    source: &RollbackWorld,
    target: &mut RollbackWorld,
    entity_map: &mut EntityMap,
    registry: &RollbackRegistry,
) -> (r: Result<(), RollbackError>)
    requires
        source.wf(),
        old(target).wf(),
        old(target)@.next_id + source@.entities.len() <= u64::MAX,
    ensures
        final(target).wf(),
        r is Ok <==> entities_clonable(source@, registry@),
        r is Ok ==> final(entity_map)@ == extend_map(old(entity_map)@, source@.entities, old(target)@.next_id),
        r is Ok ==> final(target)@ == (WorldModel {
            entities: old(target)@.entities + cloned_entities(
                source@.entities,
                registry@,
                final(entity_map)@,
                old(target)@.next_id,
            ),
            next_id: old(target)@.next_id + source@.entities.len(),
            ..old(target)@
        }),
        r matches Err(RollbackError::UnregisteredType(n)) ==> entities_name_rejected(source@, registry@, n@),
        r is Err ==> final(target)@ == old(target)@ && final(entity_map)@ == old(entity_map)@,
{
    match check_entities(source, registry) {
        Ok(()) => {},
        Err(e) => {
            return Err(e);
        },
    }
    let entities = source.entities();
    let ghost src = source@.entities;
    let ghost m0 = entity_map@;
    let base = target.next_entity_id();
    let mut i: usize = 0;
    while i < entities.len()
        invariant
            i <= entities@.len(),
            entities@.map_values(|x: EntityRecord| x@) == src,
            base as nat + src.len() <= u64::MAX,
            entity_map@ == extend_map(m0, src.take(i as int), base as nat),
        decreases entities@.len() - i,
    {
        assert(src.take(i as int + 1).drop_last() =~= src.take(i as int));
        assert(src[i as int] == entities@[i as int]@);
        entity_map.insert(entities[i].entity(), Entity { id: base + i as u64 });
        i = i + 1;
    }
    assert(src.take(src.len() as int) =~= src);
    let ghost t0 = target@;
    let mut i: usize = 0;
    while i < entities.len()
        invariant
            i <= entities@.len(),
            entities@.map_values(|x: EntityRecord| x@) == src,
            src == source@.entities,
            world_wf(source@),
            target.wf(),
            t0.next_id == base,
            base as nat + src.len() <= u64::MAX,
            target@ == (WorldModel {
                entities: t0.entities + cloned_entities(src.take(i as int), registry@, entity_map@, base as nat),
                next_id: (base + i) as nat,
                ..t0
            }),
        decreases entities@.len() - i,
    {
        let comps = copy_values(entities[i].components(), registry, entity_map);
        proof {
            assert(src[i as int] == entities@[i as int]@);
            assert(unique_keys(src[i as int].1));
            lemma_copied_unique(src[i as int].1, registry@, entity_map@);
        }
        let e = target.spawn_with(comps);
        assert(cloned_entities(src.take(i as int + 1), registry@, entity_map@, base as nat) =~= cloned_entities(
            src.take(i as int),
            registry@,
            entity_map@,
            base as nat,
        ).push((e, copied(src[i as int].1, registry@, entity_map@))));
        assert(target@.entities =~= t0.entities + cloned_entities(
            src.take(i as int + 1),
            registry@,
            entity_map@,
            base as nat,
        ));
        i = i + 1;
    }
    assert(src.take(src.len() as int) =~= src);
    Ok(())
}

/// The map once every entity of `src` has a destination identity: those
/// that `m` lacks get `base`, `base + 1`, ... in order, and the second
/// component counts them.
pub open spec fn lazy_map(m: Map<u64, u64>, src: Seq<(Entity, Seq<ValueModel>)>, base: nat) -> (Map<u64, u64>, nat)
    decreases src.len(),
{
    if src.len() == 0 {
        (m, 0)
    } else {
        let prev = lazy_map(m, src.drop_last(), base);
        let id = src.last().0.id;
        if prev.0.contains_key(id) {
            prev
        } else {
            (prev.0.insert(id, (base + prev.1) as u64), prev.1 + 1)
        }
    }
}

/// `c` new entities without components, from identity `base` on.
pub open spec fn fresh_entities(base: nat, c: nat) -> Seq<(Entity, Seq<ValueModel>)> {
    Seq::new(c, |j: int| (Entity { id: (base + j) as u64 }, seq![]))
}

/// `w` after the copies of the registered components of each entity of
/// `src`, in order, were put on its destination entity under `m`.
pub open spec fn copy_into(w: WorldModel, src: Seq<(Entity, Seq<ValueModel>)>, r: RegistryModel, m: Map<u64, u64>) -> WorldModel
    decreases src.len(),
{
    if src.len() == 0 {
        w
    } else {
        let w1 = copy_into(w, src.drop_last(), r, m);
        let t = Entity { id: m[src.last().0.id] };
        let i = entity_index(w1, t);
        WorldModel { entities: w1.entities.update(i, (t, set_entries(w1.entities[i].1, copied(src.last().1, r, m)))), ..w1 }
    }
}

/// Every source entity that `m` knows has its destination living in `w`.
pub open spec fn mapped_live(m: Map<u64, u64>, src: Seq<(Entity, Seq<ValueModel>)>, w: WorldModel) -> bool {
    forall|i: int| 0 <= i < src.len() && m.contains_key(#[trigger] src[i].0.id) ==> has_entity(w, Entity { id: m[src[i].0.id] })
}

proof fn lemma_copy_into_ids(w: WorldModel, src: Seq<(Entity, Seq<ValueModel>)>, r: RegistryModel, m: Map<u64, u64>)
    requires
        world_wf(w),
        forall|i: int| 0 <= i < src.len() ==> has_entity(w, Entity { id: m[#[trigger] src[i].0.id] }),
    ensures
        copy_into(w, src, r, m).entities.len() == w.entities.len(),
        forall|k: int| 0 <= k < w.entities.len() ==> (#[trigger] copy_into(w, src, r, m).entities[k]).0 == w.entities[k].0,
        copy_into(w, src, r, m).next_id == w.next_id,
    decreases src.len(),
{
    if src.len() > 0 {
        let d = src.drop_last();
        assert forall|i: int| 0 <= i < d.len() implies has_entity(w, Entity { id: m[#[trigger] d[i].0.id] }) by {
            assert(d[i] == src[i]);
        }
        lemma_copy_into_ids(w, d, r, m);
        let w1 = copy_into(w, d, r, m);
        let t = Entity { id: m[src.last().0.id] };
        assert(has_entity(w, Entity { id: m[src[src.len() - 1].0.id] }));
        let j = choose|j: int| 0 <= j < w.entities.len() && w.entities[j].0 == t;
        assert(w1.entities[j].0 == t);
        assert(has_entity(w1, t));
    }
}

/// Puts each value of `vals`, in order, on entity `e`.
fn insert_all(world: &mut RollbackWorld, e: Entity, vals: &Vec<Value>)
    requires
        old(world).wf(),
        has_entity(old(world)@, e),
    ensures
        final(world).wf(),
        final(world)@ == (WorldModel {
            entities: old(world)@.entities.update(
                entity_index(old(world)@, e),
                (e, set_entries(old(world)@.entities[entity_index(old(world)@, e)].1, vals@.map_values(|y: Value| y@))),
            ),
            ..old(world)@
        }),
{
    let ghost w0 = world@;
    let ghost k = entity_index(w0, e);
    let ghost c0 = w0.entities[k].1;
    let ghost vs = vals@.map_values(|y: Value| y@);
    assert(w0.entities.update(k, (e, set_entries(c0, vs.take(0)))) =~= w0.entities) by {
        assert(vs.take(0) =~= seq![]);
    }
    let mut i: usize = 0;
    while i < vals.len()
        invariant
            i <= vals@.len(),
            vs == vals@.map_values(|y: Value| y@),
            0 <= k < w0.entities.len(),
            w0.entities[k].0 == e,
            world.wf(),
            world@ == (WorldModel { entities: w0.entities.update(k, (e, set_entries(c0, vs.take(i as int)))), ..w0 }),
        decreases vals@.len() - i,
    {
        proof {
            lemma_entity_index(world@, k);
        }
        world.insert(e, vals[i].duplicate());
        assert(vs.take(i as int + 1).drop_last() =~= vs.take(i as int));
        assert(world@.entities =~= w0.entities.update(k, (e, set_entries(c0, vs.take(i as int + 1)))));
        i = i + 1;
    }
    assert(vs.take(vals@.len() as int) =~= vs);
}

/// Copies every entity of `source` into `target`: a source entity that
/// `entity_map` lacks gets a new target entity, recorded in the map, while
/// one it knows keeps its target entity. Each target entity receives the
/// copies of its source's registered components; entity references in the
/// copies of entity-mappable types go through the completed map. Fails,
/// changing nothing, where a component's type is neither registered nor
/// opaque.
pub fn clone_rollback_world_entities(
    source: &RollbackWorld,
    target: &mut RollbackWorld,
    entity_map: &mut EntityMap,
    registry: &RollbackRegistry,
) -> (r: Result<(), RollbackError>)
    requires
        source.wf(),
        old(target).wf(),
        old(target)@.next_id + source@.entities.len() <= u64::MAX,
        mapped_live(old(entity_map)@, source@.entities, old(target)@),
    ensures
        final(target).wf(),
        r is Ok <==> entities_clonable(source@, registry@),
        r is Ok ==> {
            let lm = lazy_map(old(entity_map)@, source@.entities, old(target)@.next_id);
            &&& final(entity_map)@ == lm.0
            &&& final(target)@ == copy_into(
                WorldModel {
                    entities: old(target)@.entities + fresh_entities(old(target)@.next_id, lm.1),
                    next_id: old(target)@.next_id + lm.1,
                    ..old(target)@
                },
                source@.entities,
                registry@,
                lm.0,
            )
        },
        r matches Err(RollbackError::UnregisteredType(n)) ==> entities_name_rejected(source@, registry@, n@),
        r is Err ==> final(target)@ == old(target)@ && final(entity_map)@ == old(entity_map)@,
{
    match check_entities(source, registry) {
        Ok(()) => {},
        Err(e) => {
            return Err(e);
        },
    }
    let entities = source.entities();
    let ghost src = source@.entities;
    let ghost m0 = entity_map@;
    let ghost t0 = target@;
    let ghost base = t0.next_id;
    let n = entities.len();
    let mut i: usize = 0;
    while i < n
        invariant
            i <= n,
            n == src.len(),
            entities@.map_values(|x: EntityRecord| x@) == src,
            src == source@.entities,
            world_wf(source@),
            target.wf(),
            base == t0.next_id,
            base + n <= u64::MAX,
            mapped_live(m0, src, t0),
            lazy_map(m0, src.take(i as int), base).1 <= i,
            entity_map@ == lazy_map(m0, src.take(i as int), base).0,
            target@ == (WorldModel {
                entities: t0.entities + fresh_entities(base, lazy_map(m0, src.take(i as int), base).1),
                next_id: base + lazy_map(m0, src.take(i as int), base).1,
                ..t0
            }),
            first_mapped(entity_map@, src, target@, i as int),
        decreases n - i,
    {
        let ghost prev = lazy_map(m0, src.take(i as int), base);
        let ghost tw = target@;
        assert(src.take(i as int + 1).drop_last() =~= src.take(i as int));
        assert(src.take(i as int + 1).last() == src[i as int]);
        assert(src[i as int] == entities@[i as int]@);
        let e = entities[i].entity();
        match entity_map.get(e) {
            Some(t) => {
                proof {
                    if !m0.contains_key(e.id) {
                        lemma_lazy_keys(m0, src.take(i as int), base, e.id);
                        let j = choose|j: int| 0 <= j < src.take(i as int).len() && src.take(i as int)[j].0.id == e.id;
                        assert(src.take(i as int)[j] == src[j]);
                        assert(src[j].0 != src[i as int].0);
                    }
                    lemma_lazy_keeps(m0, src.take(i as int), base, e.id);
                    assert(m0.contains_key(src[i as int].0.id));
                    assert(has_entity(t0, Entity { id: m0[src[i as int].0.id] }));
                    let a = choose|a: int| 0 <= a < t0.entities.len() && t0.entities[a].0 == Entity { id: m0[e.id] };
                    assert(tw.entities[a] == t0.entities[a]);
                    assert(has_entity(tw, Entity { id: t.id }));
                    assert(entity_map@.contains_key(src[i as int].0.id));
                    assert forall|j: int| 0 <= j < i + 1 implies #[trigger] entity_map@.contains_key(src[j].0.id)
                        && has_entity(target@, Entity { id: entity_map@[src[j].0.id] }) by {
                        if j == i {
                            assert(entity_map@[src[j].0.id] == t.id);
                        }
                    }
                }
            },
            None => {
                let f = target.spawn();
                entity_map.insert(e, f);
                proof {
                    assert(target@.entities =~= t0.entities + fresh_entities(base, prev.1 + 1));
                    assert(target@.entities[target@.entities.len() - 1].0 == f);
                    assert forall|j: int| 0 <= j < i + 1 implies #[trigger] entity_map@.contains_key(src[j].0.id)
                        && has_entity(target@, Entity { id: entity_map@[src[j].0.id] }) by {
                        if j == i {
                            assert(entity_map@[src[j].0.id] == f.id);
                            assert(target@.entities[target@.entities.len() - 1].0 == Entity { id: f.id });
                        }
                        if j < i {
                            assert(prev.0.contains_key(src[j].0.id));
                            assert(has_entity(tw, Entity { id: prev.0[src[j].0.id] }));
                            let a = choose|a: int| 0 <= a < tw.entities.len() && tw.entities[a].0 == Entity { id: prev.0[src[j].0.id] };
                            assert(target@.entities[a] == tw.entities[a]);
                            assert(src[j].0.id != e.id) by {
                                if src[j].0.id == e.id {
                                    assert(prev.0.contains_key(src[j].0.id));
                                }
                            }
                        }
                    }
                }
            },
        }
        assert(first_mapped(entity_map@, src, target@, i + 1));
        i = i + 1;
    }
    assert(src.take(n as int) =~= src);
    let ghost lm = lazy_map(m0, src, base);
    let ghost t1 = target@;
    assert forall|j: int| 0 <= j < n implies lm.0.contains_key(#[trigger] src[j].0.id) && has_entity(
        t1,
        Entity { id: lm.0[src[j].0.id] },
    ) by {
        assert(first_mapped(entity_map@, src, target@, n as int));
        assert(entity_map@.contains_key(src[j].0.id));
    }
    proof {
        lemma_copy_into_ids(t1, src, registry@, lm.0);
    }
    let mut i: usize = 0;
    while i < n
        invariant
            i <= n,
            n == src.len(),
            entities@.map_values(|x: EntityRecord| x@) == src,
            src == source@.entities,
            world_wf(source@),
            world_wf(t1),
            entity_map@ == lm.0,
            target.wf(),
            forall|j: int| 0 <= j < n ==> lm.0.contains_key(#[trigger] src[j].0.id) && has_entity(
                t1,
                Entity { id: lm.0[src[j].0.id] },
            ),
            target@ == copy_into(t1, src.take(i as int), registry@, lm.0),
        decreases n - i,
    {
        assert(src.take(i as int + 1).drop_last() =~= src.take(i as int));
        assert(src.take(i as int + 1).last() == src[i as int]);
        assert(src[i as int] == entities@[i as int]@);
        let e = entities[i].entity();
        assert(lm.0.contains_key(src[i as int].0.id));
        let t = match entity_map.get(e) {
            Some(t) => t,
            None => {
                assert(false);
                e
            },
        };
        proof {
            let tk = src.take(i as int);
            assert forall|j: int| 0 <= j < tk.len() implies has_entity(t1, Entity { id: lm.0[#[trigger] tk[j].0.id] }) by {
                assert(tk[j] == src[j]);
            }
            lemma_copy_into_ids(t1, tk, registry@, lm.0);
            let a = choose|a: int| 0 <= a < t1.entities.len() && t1.entities[a].0 == t;
            assert(target@.entities[a].0 == t);
        }
        let comps = copy_values(entities[i].components(), registry, entity_map);
        insert_all(target, t, &comps);
        i = i + 1;
    }
    assert(src.take(n as int) =~= src);
    Ok(())
}

/// The first `i` entities of `src` have their destination, living in `w`.
pub open spec fn first_mapped(m: Map<u64, u64>, src: Seq<(Entity, Seq<ValueModel>)>, w: WorldModel, i: int) -> bool {
    forall|j: int| 0 <= j < i ==> #[trigger] m.contains_key(src[j].0.id) && has_entity(w, Entity { id: m[src[j].0.id] })
}

/// The lazily completed map knows only the keys of `m` and the source
/// entities.
proof fn lemma_lazy_keys(m: Map<u64, u64>, src: Seq<(Entity, Seq<ValueModel>)>, base: nat, k: u64)
    requires
        lazy_map(m, src, base).0.contains_key(k),
    ensures
        m.contains_key(k) || exists|j: int| 0 <= j < src.len() && src[j].0.id == k,
    decreases src.len(),
{
    if src.len() > 0 {
        let d = src.drop_last();
        if lazy_map(m, d, base).0.contains_key(k) {
            lemma_lazy_keys(m, d, base, k);
            if !m.contains_key(k) {
                let j = choose|j: int| 0 <= j < d.len() && d[j].0.id == k;
                assert(src[j] == d[j]);
            }
        } else {
            assert(src[src.len() - 1].0.id == k);
        }
    }
}

/// Completing a map lazily keeps every entry it had.
proof fn lemma_lazy_keeps(m: Map<u64, u64>, src: Seq<(Entity, Seq<ValueModel>)>, base: nat, k: u64)
    requires
        m.contains_key(k),
    ensures
        lazy_map(m, src, base).0.contains_key(k),
        lazy_map(m, src, base).0[k] == m[k],
    decreases src.len(),
{
    if src.len() > 0 {
        lemma_lazy_keeps(m, src.drop_last(), base, k);
    }
}

/// Puts into `target` the copy of every resource of `source` whose type is
/// registered; entity references in copies of entity-mappable types go
/// through `entity_map`. Fails, changing nothing, where a resource's type is
/// neither registered nor opaque.
pub fn clone_rollback_world_resources(
    source: &RollbackWorld,
    target: &mut RollbackWorld,
    entity_map: &EntityMap,
    registry: &RollbackRegistry,
) -> (r: Result<(), RollbackError>)
    requires
        source.wf(),
        old(target).wf(),
    ensures
        final(target).wf(),
        r is Ok <==> clonable(source@.resources, registry@),
        r is Ok ==> final(target)@ == (WorldModel {
            resources: set_entries(old(target)@.resources, copied(source@.resources, registry@, entity_map@)),
            ..old(target)@
        }),
        r matches Err(RollbackError::UnregisteredType(n)) ==> names_rejected(source@.resources, registry@, n@),
        r is Err ==> final(target)@ == old(target)@,
{
    let resources = source.resources();
    match check_values(resources, registry) {
        Ok(()) => {},
        Err(e) => {
            return Err(e);
        },
    }
    let copies = copy_values(resources, registry, entity_map);
    let ghost t0 = target@;
    let ghost cs = copies@.map_values(|y: Value| y@);
    let mut i: usize = 0;
    while i < copies.len()
        invariant
            i <= copies@.len(),
            cs == copies@.map_values(|y: Value| y@),
            target.wf(),
            target@ == (WorldModel { resources: set_entries(t0.resources, cs.take(i as int)), ..t0 }),
        decreases copies@.len() - i,
    {
        assert(cs.take(i as int + 1).drop_last() =~= cs.take(i as int));
        target.insert_resource(copies[i].duplicate());
        i = i + 1;
    }
    assert(cs.take(cs.len() as int) =~= cs);
    Ok(())
}

/// What a container becomes when `src` is cloned into an empty one whose
/// next identity is `base`.
pub open spec fn clone_model(src: WorldModel, r: RegistryModel, base: nat) -> WorldModel {
    let m = extend_map(Map::empty(), src.entities, base);
    WorldModel {
        entities: cloned_entities(src.entities, r, m, base),
        resources: set_entries(seq![], copied(src.resources, r, m)),
        next_id: base + src.entities.len(),
    }
}

/// Every component and resource of `w` can be copied or skipped.
pub open spec fn world_clonable(w: WorldModel, r: RegistryModel) -> bool {
    entities_clonable(w, r) && clonable(w.resources, r)
}

/// Some component or resource of `w` has the rejected type whose name `n` is.
pub open spec fn world_name_rejected(w: WorldModel, r: RegistryModel, n: Seq<char>) -> bool {
    entities_name_rejected(w, r, n) || names_rejected(w.resources, r, n)
}

/// Fails on the first component or resource whose type is rejected.
fn check_world(world: &RollbackWorld, registry: &RollbackRegistry) -> (r: Result<(), RollbackError>)
    ensures
        r is Ok <==> world_clonable(world@, registry@),
        r matches Err(RollbackError::UnregisteredType(n)) ==> world_name_rejected(world@, registry@, n@),
{
    match check_entities(world, registry) {
        Ok(()) => {},
        Err(e) => {
            return Err(e);
        },
    }
    check_values(world.resources(), registry)
}

/// Copies `source` into `target`, which must hold nothing, with a fresh
/// entity map; entities go first so that resources can refer to them.
fn clone_into_empty(source: &RollbackWorld, target: &mut RollbackWorld, registry: &RollbackRegistry)
    requires
        source.wf(),
        old(target).wf(),
        old(target)@.entities.len() == 0,
        old(target)@.resources.len() == 0,
        old(target)@.next_id + source@.entities.len() <= u64::MAX,
        world_clonable(source@, registry@),
    ensures
        final(target).wf(),
        final(target)@ == clone_model(source@, registry@, old(target)@.next_id),
{
    let mut entity_map = EntityMap::new();
    let ghost base = target@.next_id;
    assert(target@.resources =~= seq![]);
    let r1 = clone_entities_fresh(source, target, &mut entity_map, registry);
    assert(r1 is Ok);
    let r2 = clone_rollback_world_resources(source, target, &entity_map, registry);
    assert(r2 is Ok);
    assert(target@.entities =~= clone_model(source@, registry@, base).entities);
}

/// A new container holding the copy of every entity and resource of
/// `source` whose type is registered. Fails where a type is neither
/// registered nor opaque.
pub fn clone_world(source: &RollbackWorld, registry: &RollbackRegistry) -> (r: Result<RollbackWorld, RollbackError>)
    requires
        source.wf(),
    ensures
        r is Ok <==> world_clonable(source@, registry@),
        r matches Ok(w) ==> w.wf() && w@ == clone_model(source@, registry@, 0),
        r matches Err(RollbackError::UnregisteredType(n)) ==> world_name_rejected(source@, registry@, n@),
{
    match check_world(source, registry) {
        Ok(()) => {},
        Err(e) => {
            return Err(e);
        },
    }
    let mut target = RollbackWorld::new();
    let n = source.entities().len();
    assert(source@.entities.len() == n);
    clone_into_empty(source, &mut target, registry);
    Ok(target)
}

/// Despawns every entity.
pub fn clear_entities(world: &mut RollbackWorld)
    requires
        old(world).wf(),
    ensures
        final(world).wf(),
        final(world)@ == (WorldModel { entities: seq![], ..old(world)@ }),
{
    world.clear_entities();
}

/// Removes every resource.
pub fn clear_resources(world: &mut RollbackWorld)
    requires
        old(world).wf(),
    ensures
        final(world).wf(),
        final(world)@ == (WorldModel { resources: seq![], ..old(world)@ }),
{
    world.clear_resources();
}

/// Despawns every entity and removes every resource.
pub fn clear_world(world: &mut RollbackWorld)
    requires
        old(world).wf(),
    ensures
        final(world).wf(),
        final(world)@ == (WorldModel { entities: seq![], resources: seq![], ..old(world)@ }),
{
    clear_entities(world);
    clear_resources(world);
}

/// Replaces the whole content of `target` by the copy of `source`, as
/// `clone_world` makes it, with identities from `target`'s next one on.
/// Fails, changing nothing, where a type is neither registered nor opaque.
pub fn overwrite_world(source: &RollbackWorld, target: &mut RollbackWorld, registry: &RollbackRegistry) -> (r: Result<(), RollbackError>)
    requires
        source.wf(),
        old(target).wf(),
        old(target)@.next_id + source@.entities.len() <= u64::MAX,
    ensures
        final(target).wf(),
        r is Ok <==> world_clonable(source@, registry@),
        r is Ok ==> final(target)@ == clone_model(source@, registry@, old(target)@.next_id),
        r matches Err(RollbackError::UnregisteredType(n)) ==> world_name_rejected(source@, registry@, n@),
        r is Err ==> final(target)@ == old(target)@,
{
    match check_world(source, registry) {
        Ok(()) => {},
        Err(e) => {
            return Err(e);
        },
    }
    clear_world(target);
    clone_into_empty(source, target, registry);
    Ok(())
}

} // verus!
