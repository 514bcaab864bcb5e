use vstd::prelude::*;
use crate::entity::Entity;
use crate::value::{TypeKey, Value, ValueModel, KeyModel, key_of, opt_view};

verus! {

/// No two values of `s` share a type.
pub open spec fn unique_keys(s: Seq<ValueModel>) -> bool {
    forall|i: int, j: int| 0 <= i < j < s.len() ==> key_of(s[i]) != key_of(s[j])
}

/// Whether `s` holds a value of type `k`.
pub open spec fn has_entry(s: Seq<ValueModel>, k: KeyModel) -> bool {
    exists|i: int| 0 <= i < s.len() && key_of(s[i]) == k
}

/// The value of type `k` in `s`, if there is one.
pub open spec fn lookup(s: Seq<ValueModel>, k: KeyModel) -> Option<ValueModel> {
    if has_entry(s, k) {
        Some(s[choose|i: int| 0 <= i < s.len() && key_of(s[i]) == k])
    } else {
        None
    }
}

/// `s` with `v` in place of the value of its type, or with `v` added.
pub open spec fn set_entry(s: Seq<ValueModel>, v: ValueModel) -> Seq<ValueModel> {
    if has_entry(s, key_of(v)) {
        s.update(choose|i: int| 0 <= i < s.len() && key_of(s[i]) == key_of(v), v)
    } else {
        s.push(v)
    }
}

/// `s` without its value of type `k`.
pub open spec fn remove_entry(s: Seq<ValueModel>, k: KeyModel) -> Seq<ValueModel> {
    if has_entry(s, k) {
        s.remove(choose|i: int| 0 <= i < s.len() && key_of(s[i]) == k)
    } else {
        s
    }
}

/// Where keys are unique, the value of a type is the one at any index that
/// holds that type.
pub proof fn lemma_unique_index(s: Seq<ValueModel>, k: KeyModel, i: int)
    requires
        unique_keys(s),
        0 <= i < s.len(),
        key_of(s[i]) == k,
    ensures
        has_entry(s, k),
        (choose|j: int| 0 <= j < s.len() && key_of(s[j]) == k) == i,
        lookup(s, k) == Some(s[i]),
{
    let c = choose|j: int| 0 <= j < s.len() && key_of(s[j]) == k;
    if c < i {
        assert(key_of(s[c]) != key_of(s[i]));
    } else if c > i {
        assert(key_of(s[i]) != key_of(s[c]));
    }
}

/// Index of the value of type `k` in `v`, found by a scan.
fn find_key(v: &Vec<Value>, k: &TypeKey) -> (r: Option<usize>)
    requires
        unique_keys(v@.map_values(|x: Value| x@)),
    ensures
        match r {
            Some(i) => i < v@.len() && key_of(v@[i as int]@) == k@,
            None => !has_entry(v@.map_values(|x: Value| x@), k@),
        },
{
    let ghost s = v@.map_values(|x: Value| x@);
    let mut i: usize = 0;
    while i < v.len()
        invariant
            i <= v@.len(),
            s == v@.map_values(|x: Value| x@),
            forall|j: int| 0 <= j < i ==> key_of(s[j]) != k@,
        decreases v@.len() - i,
    {
        if v[i].has_key(k) {
            return Some(i);
        }
        i = i + 1;
    }
    None
}

/// Puts `x` in place of the value of its type in `v`, or adds it.
fn set_value(v: &mut Vec<Value>, x: Value)
    requires
        unique_keys(old(v)@.map_values(|y: Value| y@)),
    ensures
        final(v)@.map_values(|y: Value| y@) == set_entry(old(v)@.map_values(|y: Value| y@), x@),
        unique_keys(final(v)@.map_values(|y: Value| y@)),
{
    let k = x.key();
    let ghost s = old(v)@.map_values(|y: Value| y@);
    match find_key(v, &k) {
        Some(i) => {
            proof {
                lemma_unique_index(s, k@, i as int);
            }
            v.set(i, x);
            assert(v@.map_values(|y: Value| y@) =~= set_entry(s, x@));
        },
        None => {
            v.push(x);
            assert(v@.map_values(|y: Value| y@) =~= set_entry(s, x@));
        },
    }
}

/// Takes the value of type `k` out of `v`.
fn take_value(v: &mut Vec<Value>, k: &TypeKey) -> (r: Option<Value>)
    requires
        unique_keys(old(v)@.map_values(|y: Value| y@)),
    ensures
        final(v)@.map_values(|y: Value| y@) == remove_entry(old(v)@.map_values(|y: Value| y@), k@),
        opt_view(r) == lookup(old(v)@.map_values(|y: Value| y@), k@),
        unique_keys(final(v)@.map_values(|y: Value| y@)),
{
    let ghost s = old(v)@.map_values(|y: Value| y@);
    match find_key(v, k) {
        Some(i) => {
            proof {
                lemma_unique_index(s, k@, i as int);
            }
            let x = v.remove(i);
            assert(v@.map_values(|y: Value| y@) =~= remove_entry(s, k@));
            let ghost t = v@.map_values(|y: Value| y@);
            assert forall|a: int, b: int| 0 <= a < b < t.len() implies key_of(t[a]) != key_of(t[b]) by {
                let a2 = if a < i { a } else { a + 1 };
                let b2 = if b < i { b } else { b + 1 };
                assert(t[a] == s[a2] && t[b] == s[b2]);
            }
            Some(x)
        },
        None => None,
    }
}

/// A live or stored state container: entities that own typed components,
/// and singleton resources.
pub struct RollbackWorld {
    entities: Vec<EntityRecord>,
    resources: Vec<Value>,
    next_id: u64,
}

/// One entity and the components attached to it.
pub struct EntityRecord {
    entity: Entity,
    components: Vec<Value>,
}

/// A state container as a mathematical value.
pub struct WorldModel {
    pub entities: Seq<(Entity, Seq<ValueModel>)>,
    pub resources: Seq<ValueModel>,
    pub next_id: nat,
}

impl View for EntityRecord {
    type V = (Entity, Seq<ValueModel>);

    closed spec fn view(&self) -> (Entity, Seq<ValueModel>) {
        (self.entity, self.components@.map_values(|y: Value| y@))
    }
}

impl EntityRecord {
    pub fn entity(&self) -> (r: Entity)
        ensures
            r == self@.0,
    {
        self.entity
    }

    pub fn components(&self) -> (r: &Vec<Value>)
        ensures
            r@.map_values(|y: Value| y@) == self@.1,
    {
        &self.components
    }
}

impl View for RollbackWorld {
    type V = WorldModel;

    closed spec fn view(&self) -> WorldModel {
        WorldModel {
            entities: self.entities@.map_values(|r: EntityRecord| r@),
            resources: self.resources@.map_values(|y: Value| y@),
            next_id: self.next_id as nat,
        }
    }
}

/// Entity identities are distinct and below the next one to be handed out;
/// no entity holds two components of one type, nor the container two
/// resources of one type.
pub open spec fn world_wf(w: WorldModel) -> bool {
    &&& w.next_id <= u64::MAX
    &&& forall|i: int, j: int| 0 <= i < j < w.entities.len() ==> w.entities[i].0 != w.entities[j].0
    &&& forall|i: int| 0 <= i < w.entities.len() ==> (w.entities[i].0.id as nat) < w.next_id
    &&& forall|i: int| 0 <= i < w.entities.len() ==> unique_keys(#[trigger] w.entities[i].1)
    &&& unique_keys(w.resources)
}

/// Index of entity `e` in `w`, if it lives there.
pub open spec fn has_entity(w: WorldModel, e: Entity) -> bool {
    exists|i: int| 0 <= i < w.entities.len() && w.entities[i].0 == e
}

pub open spec fn entity_index(w: WorldModel, e: Entity) -> int {
    choose|i: int| 0 <= i < w.entities.len() && w.entities[i].0 == e
}

impl RollbackWorld {
    pub open spec fn wf(&self) -> bool {
        world_wf(self@)
    }

    /// An empty container.
    pub fn new() -> (r: RollbackWorld)
        ensures
            r@ == (WorldModel { entities: seq![], resources: seq![], next_id: 0 }),
            r.wf(),
    {
        let r = RollbackWorld { entities: Vec::new(), resources: Vec::new(), next_id: 0 };
        assert(r@.entities =~= seq![]);
        assert(r@.resources =~= seq![]);
        r
    }

    /// The identity the next spawned entity gets.
    pub fn next_entity_id(&self) -> (r: u64)
        ensures
            r == self@.next_id,
    {
        self.next_id
    }

    /// The entities with their components, in order of creation.
    pub fn entities(&self) -> (r: &Vec<EntityRecord>)
        ensures
            r@.map_values(|x: EntityRecord| x@) == self@.entities,
    {
        &self.entities
    }

    /// The resources.
    pub fn resources(&self) -> (r: &Vec<Value>)
        ensures
            r@.map_values(|y: Value| y@) == self@.resources,
    {
        &self.resources
    }

    /// Adds an entity with the given components under a fresh identity.
    pub(crate) fn spawn_with(&mut self, components: Vec<Value>) -> (r: Entity)
        requires
            old(self).wf(),
            old(self)@.next_id < u64::MAX,
            unique_keys(components@.map_values(|y: Value| y@)),
        ensures
            final(self).wf(),
            r.id == old(self)@.next_id,
            final(self)@ == (WorldModel {
                entities: old(self)@.entities.push((r, components@.map_values(|y: Value| y@))),
                next_id: old(self)@.next_id + 1,
                ..old(self)@
            }),
    {
        let e = Entity { id: self.next_id };
        let rec = EntityRecord { entity: e, components };
        self.entities.push(rec);
        self.next_id = self.next_id + 1;
        assert(self@.entities =~= old(self)@.entities.push(rec@));
        e
    }

    /// Adds an entity without components.
    pub fn spawn(&mut self) -> (r: Entity)
        requires
            old(self).wf(),
            old(self)@.next_id < u64::MAX,
        ensures
            final(self).wf(),
            r.id == old(self)@.next_id,
            final(self)@ == (WorldModel {
                entities: old(self)@.entities.push((r, seq![])),
                next_id: old(self)@.next_id + 1,
                ..old(self)@
            }),
    {
        let v: Vec<Value> = Vec::new();
        assert(v@.map_values(|y: Value| y@) =~= seq![]);
        self.spawn_with(v)
    }

    /// Position of entity `e`, found by a scan.
    fn find_entity(&self, e: Entity) -> (r: Option<usize>)
        requires
            self.wf(),
        ensures
            match r {
                Some(i) => i < self@.entities.len() && self@.entities[i as int].0 == e
                    && has_entity(self@, e) && entity_index(self@, e) == i,
                None => !has_entity(self@, e),
            },
    {
        let mut i: usize = 0;
        while i < self.entities.len()
            invariant
                self.wf(),
                i <= self.entities@.len(),
                forall|j: int| 0 <= j < i ==> self@.entities[j].0 != e,
            decreases self.entities@.len() - i,
        {
            if self.entities[i].entity == e {
                proof {
                    let w = self@;
                    assert(w.entities[i as int].0 == e);
                    assert(has_entity(w, e));
                    let c = entity_index(w, e);
                    if c < i as int {
                        assert(w.entities[c].0 != w.entities[i as int].0);
                    } else if c > i as int {
                        assert(w.entities[i as int].0 != w.entities[c].0);
                    }
                }
                return Some(i);
            }
            i = i + 1;
        }
        None
    }

    /// Attaches `v` to entity `e`, in place of a component of the same type;
    /// false, with nothing changed, if `e` does not live here.
    pub fn insert(&mut self, e: Entity, v: Value) -> (r: bool)
        requires
            old(self).wf(),
        ensures
            final(self).wf(),
            r == has_entity(old(self)@, e),
            r ==> final(self)@ == (WorldModel {
                entities: old(self)@.entities.update(
                    entity_index(old(self)@, e),
                    (e, set_entry(old(self)@.entities[entity_index(old(self)@, e)].1, v@)),
                ),
                ..old(self)@
            }),
            !r ==> final(self)@ == old(self)@,
    {
        match self.find_entity(e) {
            Some(i) => {
                let ghost w = self@;
                let mut rec = self.entities.remove(i);
                proof {
                    assert(w.entities[i as int] == rec@);
                    assert(unique_keys(w.entities[i as int].1));
                }
                set_value(&mut rec.components, v);
                self.entities.insert(i, rec);
                assert(self@.entities =~= w.entities.update(i as int, (e, set_entry(w.entities[i as int].1, v@))));
                true
            },
            None => false,
        }
    }

    /// The component of type `k` on entity `e`.
    pub fn get(&self, e: Entity, k: &TypeKey) -> (r: Option<&Value>)
        requires
            self.wf(),
        ensures
            match r {
                Some(v) => has_entity(self@, e) && lookup(self@.entities[entity_index(self@, e)].1, k@) == Some(v@),
                None => !has_entity(self@, e) || lookup(self@.entities[entity_index(self@, e)].1, k@) is None,
            },
    {
        match self.find_entity(e) {
            Some(i) => {
                let comps = &self.entities[i].components;
                proof {
                    assert(self@.entities[i as int].1 == comps@.map_values(|y: Value| y@));
                }
                match find_key(comps, k) {
                    Some(j) => {
                        proof {
                            lemma_unique_index(comps@.map_values(|y: Value| y@), k@, j as int);
                        }
                        Some(&comps[j])
                    },
                    None => None,
                }
            },
            None => None,
        }
    }

    /// Removes entity `e` and its components; false if it did not live here.
    pub fn despawn(&mut self, e: Entity) -> (r: bool)
        requires
            old(self).wf(),
        ensures
            final(self).wf(),
            r == has_entity(old(self)@, e),
            r ==> final(self)@ == (WorldModel {
                entities: old(self)@.entities.remove(entity_index(old(self)@, e)),
                ..old(self)@
            }),
            !r ==> final(self)@ == old(self)@,
            !has_entity(final(self)@, e),
    {
        match self.find_entity(e) {
            Some(i) => {
                let ghost w = self@;
                self.entities.remove(i);
                assert(self@.entities =~= w.entities.remove(i as int));
                proof {
                    let t = self@.entities;
                    assert forall|a: int, b: int| 0 <= a < b < t.len() implies t[a].0 != t[b].0 by {
                        let a2 = if a < i { a } else { a + 1 };
                        let b2 = if b < i { b } else { b + 1 };
                        assert(t[a] == w.entities[a2] && t[b] == w.entities[b2]);
                    }
                    assert forall|a: int| 0 <= a < t.len() implies unique_keys(#[trigger] t[a].1) by {
                        let a2 = if a < i { a } else { a + 1 };
                        assert(t[a] == w.entities[a2]);
                    }
                    assert forall|a: int| 0 <= a < t.len() implies (t[a].0.id as nat) < w.next_id by {
                        let a2 = if a < i { a } else { a + 1 };
                        assert(t[a] == w.entities[a2]);
                    }
                    if has_entity(self@, e) {
                        let a = entity_index(self@, e);
                        let a2 = if a < i { a } else { a + 1 };
                        assert(t[a] == w.entities[a2]);
                        assert(w.entities[a2].0 != w.entities[i as int].0);
                    }
                }
                true
            },
            None => false,
        }
    }

    /// Puts `v` in place of the resource of its type, or adds it.
    pub fn insert_resource(&mut self, v: Value)
        requires
            old(self).wf(),
        ensures
            final(self).wf(),
            final(self)@ == (WorldModel { resources: set_entry(old(self)@.resources, v@), ..old(self)@ }),
    {
        set_value(&mut self.resources, v);
    }

    /// The resource of type `k`.
    pub fn get_resource(&self, k: &TypeKey) -> (r: Option<&Value>)
        requires
            self.wf(),
        ensures
            match r {
                Some(v) => lookup(self@.resources, k@) == Some(v@),
                None => lookup(self@.resources, k@) is None,
            },
    {
        match find_key(&self.resources, k) {
            Some(j) => {
                proof {
                    lemma_unique_index(self@.resources, k@, j as int);
                }
                Some(&self.resources[j])
            },
            None => None,
        }
    }

    /// Takes out the resource of type `k`.
    pub fn remove_resource(&mut self, k: &TypeKey) -> (r: Option<Value>)
        requires
            old(self).wf(),
        ensures
            final(self).wf(),
            opt_view(r) == lookup(old(self)@.resources, k@),
            final(self)@ == (WorldModel { resources: remove_entry(old(self)@.resources, k@), ..old(self)@ }),
    {
        take_value(&mut self.resources, k)
    }

    /// Despawns every entity; identities already handed out stay used.
    pub fn clear_entities(&mut self)
        requires
            old(self).wf(),
        ensures
            final(self).wf(),
            final(self)@ == (WorldModel { entities: seq![], ..old(self)@ }),
    {
        self.entities.clear();
        assert(self@.entities =~= seq![]);
    }

    /// Removes every resource.
    pub fn clear_resources(&mut self)
        requires
            old(self).wf(),
        ensures
            final(self).wf(),
            final(self)@ == (WorldModel { resources: seq![], ..old(self)@ }),
    {
        self.resources.clear();
        assert(self@.resources =~= seq![]);
    }

    /// Whether entity `e` lives here.
    pub fn contains(&self, e: Entity) -> (r: bool)
        requires
            self.wf(),
        ensures
            r == has_entity(self@, e),
    {
        self.find_entity(e).is_some()
    }

    /// Keeps the `i`th entity exactly where `keep[i]` holds, in order.
    pub fn retain_entities(&mut self, keep: &Vec<bool>)
        requires
            old(self).wf(),
            keep@.len() == old(self)@.entities.len(),
        ensures
            final(self).wf(),
            final(self)@ == (WorldModel { entities: select(old(self)@.entities, keep@), ..old(self)@ }),
    {
        let ghost w0 = self@;
        let mut rest: Vec<EntityRecord> = Vec::new();
        std::mem::swap(&mut self.entities, &mut rest);
        let n = rest.len();
        let mut i: usize = 0;
        while i < n
            invariant
                i <= n,
                n == w0.entities.len(),
                keep@.len() == n,
                rest@.map_values(|x: EntityRecord| x@) == w0.entities.skip(i as int),
                self.entities@.map_values(|x: EntityRecord| x@) == select(w0.entities.take(i as int), keep@.take(i as int)),
                self.next_id == w0.next_id,
                self.resources@.map_values(|y: Value| y@) == w0.resources,
            decreases n - i,
        {
            let ghost s = self.entities@.map_values(|x: EntityRecord| x@);
            assert(rest@.map_values(|x: EntityRecord| x@).len() == n - i);
            assert(rest@.map_values(|x: EntityRecord| x@)[0] == rest@[0]@);
            let ghost r0 = rest@;
            let rec = rest.remove(0);
            assert(rest@ =~= r0.subrange(1, r0.len() as int));
            assert forall|j: int| 0 <= j < rest@.len() implies rest@.map_values(|x: EntityRecord| x@)[j]
                == #[trigger] w0.entities.skip(i as int + 1)[j] by {
                assert(rest@[j] == r0[j + 1]);
                assert(r0.map_values(|x: EntityRecord| x@)[j + 1] == w0.entities.skip(i as int)[j + 1]);
            }
            assert(rec@ == w0.entities[i as int]);
            assert(w0.entities.take(i as int + 1).drop_last() =~= w0.entities.take(i as int));
            assert(keep@.take(i as int + 1).drop_last() =~= keep@.take(i as int));
            if keep[i] {
                self.entities.push(rec);
                assert(self.entities@.map_values(|x: EntityRecord| x@) =~= s.push(rec@));
            }
            assert(rest@.map_values(|x: EntityRecord| x@) =~= w0.entities.skip(i as int + 1));
            i = i + 1;
        }
        assert(w0.entities.take(n as int) =~= w0.entities);
        assert(keep@.take(n as int) =~= keep@);
        proof {
            assert(entities_wf(w0.entities, w0.next_id));
            lemma_select_wf(w0.entities, keep@, w0.next_id);
        }
    }
}

impl Default for RollbackWorld {
    /// An empty container.
    fn default() -> (r: RollbackWorld)
        ensures
            r@ == (WorldModel { entities: seq![], resources: seq![], next_id: 0 }),
            r.wf(),
    {
        RollbackWorld::new()
    }
}

/// The entities of `s` at the positions where `keep` holds, in order.
pub open spec fn select(s: Seq<(Entity, Seq<ValueModel>)>, keep: Seq<bool>) -> Seq<(Entity, Seq<ValueModel>)>
    decreases s.len(),
{
    if s.len() == 0 {
        seq![]
    } else {
        let rest = select(s.drop_last(), keep.take(s.len() - 1));
        if keep[s.len() - 1] {
            rest.push(s.last())
        } else {
            rest
        }
    }
}

/// Each selected entity is one of `s`.
proof fn lemma_select_from(s: Seq<(Entity, Seq<ValueModel>)>, keep: Seq<bool>, j: int)
    requires
        keep.len() == s.len(),
        0 <= j < select(s, keep).len(),
    ensures
        exists|i: int| 0 <= i < s.len() && s[i] == #[trigger] select(s, keep)[j],
    decreases s.len(),
{
    let d = s.drop_last();
    let k = keep.take(s.len() - 1);
    let rest = select(d, k);
    if j < rest.len() {
        lemma_select_from(d, k, j);
        let i = choose|i: int| 0 <= i < d.len() && d[i] == rest[j];
        assert(s[i] == d[i]);
    } else {
        assert(s[s.len() - 1] == select(s, keep)[j]);
    }
}

/// Entities of `s` have distinct identities below `next`, and no entity
/// holds two components of one type.
pub open spec fn entities_wf(s: Seq<(Entity, Seq<ValueModel>)>, next: nat) -> bool {
    &&& forall|i: int, j: int| 0 <= i < j < s.len() ==> s[i].0 != s[j].0
    &&& forall|i: int| 0 <= i < s.len() ==> (s[i].0.id as nat) < next
    &&& forall|i: int| 0 <= i < s.len() ==> unique_keys(#[trigger] s[i].1)
}

/// Selecting entities keeps them well formed.
proof fn lemma_select_wf(s: Seq<(Entity, Seq<ValueModel>)>, keep: Seq<bool>, next: nat)
    requires
        entities_wf(s, next),
        keep.len() == s.len(),
    ensures
        entities_wf(select(s, keep), next),
    decreases s.len(),
{
    if s.len() > 0 {
        let d = s.drop_last();
        let k = keep.take(s.len() - 1);
        assert(entities_wf(d, next)) by {
            assert forall|a: int, b: int| 0 <= a < b < d.len() implies d[a].0 != d[b].0 by {
                assert(d[a] == s[a] && d[b] == s[b]);
            }
            assert forall|a: int| 0 <= a < d.len() implies unique_keys(#[trigger] d[a].1) by {
                assert(d[a] == s[a]);
            }
            assert forall|a: int| 0 <= a < d.len() implies (d[a].0.id as nat) < next by {
                assert(d[a] == s[a]);
            }
        }
        lemma_select_wf(d, k, next);
        let rest = select(d, k);
        let t = select(s, keep);
        if keep[s.len() - 1] {
            assert(t == rest.push(s.last()));
            assert forall|a: int, b: int| 0 <= a < b < t.len() implies t[a].0 != t[b].0 by {
                if b == t.len() - 1 {
                    lemma_select_from(d, k, a);
                    let i = choose|i: int| 0 <= i < d.len() && d[i] == #[trigger] rest[a];
                    assert(d[i] == s[i]);
                    assert(s[i].0 != s[s.len() - 1].0);
                } else {
                    assert(t[a] == rest[a] && t[b] == rest[b]);
                }
            }
            assert forall|a: int| 0 <= a < t.len() implies unique_keys(#[trigger] t[a].1) by {
                if a < t.len() - 1 {
                    assert(t[a] == rest[a]);
                } else {
                    assert(t[a] == s[s.len() - 1]);
                }
            }
            assert forall|a: int| 0 <= a < t.len() implies (t[a].0.id as nat) < next by {
                if a < t.len() - 1 {
                    assert(t[a] == rest[a]);
                } else {
                    assert(t[a] == s[s.len() - 1]);
                }
            }
        }
    }
}

/// In a well-formed container, the position of an entity is the one that
/// holds it.
pub proof fn lemma_entity_index(w: WorldModel, i: int)
    requires
        world_wf(w),
        0 <= i < w.entities.len(),
    ensures
        has_entity(w, w.entities[i].0),
        entity_index(w, w.entities[i].0) == i,
{
    let e = w.entities[i].0;
    assert(has_entity(w, e));
    let c = entity_index(w, e);
    if c < i {
        assert(w.entities[c].0 != w.entities[i].0);
    } else if c > i {
        assert(w.entities[i].0 != w.entities[c].0);
    }
}

} // verus!
