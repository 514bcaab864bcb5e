use vstd::prelude::*;
use vstd::arithmetic::div_mod::{lemma_mod_equivalence, lemma_small_mod, lemma_mod_add_multiples_vanish, lemma_mod_decreases};
use crate::action::{ActionModel, apply_action, apply_batch};
use crate::buffer::{BufferModel, snapshot_at};
use crate::clone::{clone_model, copied, set_entries, world_clonable, world_name_rejected, rejected, names_rejected};
use crate::registry::RegistryModel;
use crate::schedule::Simulation;
use crate::system::{replay, tick_start, rollback_target};
use crate::value::{KeyModel, ValueModel, key_of, key_name};
use crate::world::{WorldModel, world_wf, unique_keys, has_entry, set_entry};

verus! {

/// The buffer of `c` slots after the snapshots `ws[0]`, `ws[1]`, ... were
/// pushed for frames 0, 1, ..., each push followed by a move to the next
/// frame.
pub open spec fn pushed(c: nat, ws: Seq<WorldModel>) -> BufferModel
    decreases ws.len(),
{
    if ws.len() == 0 {
        BufferModel { slots: Seq::new(c, |i: int| None), overrides: seq![], current_frame: 0, rollback_needed: 0 }
    } else {
        let b = pushed(c, ws.drop_last());
        let n = (ws.len() - 1) as nat;
        BufferModel {
            slots: b.slots.update((n % c) as int, Some((n, ws.last()))),
            current_frame: n + 1,
            ..b
        }
    }
}

/// After frames `0..ws.len()` were pushed, each slot holds the latest frame
/// of its residue class, or nothing if no frame of that class was pushed.
proof fn lemma_pushed_slots(c: nat, ws: Seq<WorldModel>)
    requires
        c > 0,
    ensures
        pushed(c, ws).slots.len() == c,
        pushed(c, ws).current_frame == ws.len(),
        forall|k: int| 0 <= k < c ==> match #[trigger] pushed(c, ws).slots[k] {
            Some((f, w)) => f < ws.len() && f % c == k && f + c >= ws.len() && w == ws[f as int],
            None => k >= ws.len(),
        },
    decreases ws.len(),
{
    if ws.len() > 0 {
        let d = ws.drop_last();
        lemma_pushed_slots(c, d);
        let n = (ws.len() - 1) as nat;
        let b = pushed(c, d);
        let s = pushed(c, ws).slots;
        assert forall|k: int| 0 <= k < c implies match #[trigger] s[k] {
            Some((f, w)) => f < ws.len() && f % c == k && f + c >= ws.len() && w == ws[f as int],
            None => k >= ws.len(),
        } by {
            if k == (n % c) as int {
                lemma_mod_bound_nat(n, c);
            } else {
                assert(s[k] == b.slots[k]);
                match b.slots[k] {
                    Some((f, w)) => {
                        assert(w == d[f as int]);
                        if f + c == n {
                            lemma_mod_add_multiples_vanish(f as int, c as int);
                        }
                    },
                    None => {
                        if k == n {
                            lemma_small_mod(n, c);
                        }
                    },
                }
            }
        }
    }
}

proof fn lemma_mod_bound_nat(n: nat, c: nat)
    requires
        c > 0,
    ensures
        0 <= n % c < c,
{
}

/// Two frames of one residue class less than the capacity apart are one.
pub(crate) proof fn lemma_same_slot(f: nat, i: nat, c: nat)
    requires
        c > 0,
        f % c == i % c,
        f < i + c,
        i < f + c,
    ensures
        f == i,
{
    lemma_mod_equivalence(f as int, i as int, c as int);
    lemma_mod_equivalence(i as int, f as int, c as int);
    if f > i {
        lemma_small_mod((f - i) as nat, c);
    } else if i > f {
        lemma_small_mod((i - f) as nat, c);
    }
}

/// A buffer of capacity `c` that was given frames `0..N` keeps exactly the
/// frames `i` with `N - 1 - i < c`, each with the content pushed for it.
pub proof fn lemma_retention(c: nat, ws: Seq<WorldModel>, i: nat)
    requires
        c > 0,
        i < ws.len(),
    ensures
        snapshot_at(pushed(c, ws), i) == if ws.len() - 1 - i < c {
            Some(ws[i as int])
        } else {
            None::<WorldModel>
        },
{
    lemma_pushed_slots(c, ws);
    let b = pushed(c, ws);
    let k = (i % c) as int;
    lemma_mod_bound_nat(i, c);
    lemma_mod_decreases(i, c);
    if ws.len() - 1 - i < c {
        assert(b.slots[k] is Some);
        match b.slots[k] {
            Some((f, w)) => {
                lemma_same_slot(f, i, c);
            },
            None => {},
        }
    }
}

/// `push_world` of the present frame followed by `inc_frame`, as their
/// contracts state them, extends the history of pushed frames by one: a
/// buffer made by `with_capacity(c)` and driven this way stays `pushed`.
pub proof fn lemma_push_extends(c: nat, ws: Seq<WorldModel>, b: BufferModel, w: WorldModel)
    requires
        c > 0,
        b.slots == pushed(c, ws).slots,
        b.current_frame == ws.len(),
    ensures
        b.slots.len() == c,
        b.slots.update((b.current_frame % b.slots.len()) as int, Some((b.current_frame, w))) == pushed(
            c,
            ws.push(w),
        ).slots,
        b.current_frame + 1 == pushed(c, ws.push(w)).current_frame,
{
    lemma_pushed_slots(c, ws);
    assert(ws.push(w).drop_last() =~= ws);
}

/// The buffer of `with_capacity(c)` is the one with no frame pushed.
pub proof fn lemma_pushed_empty(c: nat)
    ensures
        pushed(c, seq![]).slots == Seq::new(c, |i: int| None::<(nat, WorldModel)>),
        pushed(c, seq![]).current_frame == 0,
{
}

/// Retention holds of any buffer whose slots and present frame are those of
/// a pushed history, whatever its override batches.
pub proof fn lemma_retention_of(c: nat, ws: Seq<WorldModel>, b: BufferModel, i: nat)
    requires
        c > 0,
        i < ws.len(),
        b.slots == pushed(c, ws).slots,
        b.current_frame == ws.len(),
    ensures
        snapshot_at(b, i) == if ws.len() - 1 - i < c {
            Some(ws[i as int])
        } else {
            None::<WorldModel>
        },
{
    lemma_pushed_slots(c, ws);
    lemma_retention(c, ws, i);
}

/// Copying keeps every value when every type is registered and none holds
/// entity references.
proof fn lemma_copied_identity(s: Seq<ValueModel>, r: RegistryModel, m: Map<u64, u64>)
    requires
        forall|i: int| 0 <= i < s.len() ==> r.registered.contains(key_of(#[trigger] s[i])),
        forall|i: int| 0 <= i < s.len() ==> !r.mappable.contains(key_of(#[trigger] s[i])),
    ensures
        copied(s, r, m) == s,
    decreases s.len(),
{
    if s.len() > 0 {
        let d = s.drop_last();
        assert forall|i: int| 0 <= i < d.len() implies r.registered.contains(key_of(#[trigger] d[i])) by {
            assert(d[i] == s[i]);
        }
        assert forall|i: int| 0 <= i < d.len() implies !r.mappable.contains(key_of(#[trigger] d[i])) by {
            assert(d[i] == s[i]);
        }
        lemma_copied_identity(d, r, m);
        assert(s.last() == s[s.len() - 1]);
        assert(d.push(s.last()) =~= s);
    }
}

/// Putting in values of distinct types, one by one, into nothing gives
/// those values.
proof fn lemma_set_entries_fresh(vs: Seq<ValueModel>)
    requires
        unique_keys(vs),
    ensures
        set_entries(seq![], vs) == vs,
    decreases vs.len(),
{
    if vs.len() > 0 {
        let d = vs.drop_last();
        assert(unique_keys(d)) by {
            assert forall|a: int, b: int| 0 <= a < b < d.len() implies key_of(d[a]) != key_of(d[b]) by {
                assert(d[a] == vs[a] && d[b] == vs[b]);
            }
        }
        lemma_set_entries_fresh(d);
        assert(!has_entry(d, key_of(vs.last()))) by {
            if has_entry(d, key_of(vs.last())) {
                let j = choose|j: int| 0 <= j < d.len() && key_of(d[j]) == key_of(vs.last());
                assert(d[j] == vs[j]);
                assert(key_of(vs[j]) != key_of(vs[vs.len() - 1]));
            }
        }
        assert(d.push(vs.last()) =~= vs);
    }
}

/// Every type of `w` is registered and none holds entity references.
pub open spec fn plain_registered(w: WorldModel, r: RegistryModel) -> bool {
    &&& forall|i: int, j: int| 0 <= i < w.entities.len() && 0 <= j < w.entities[i].1.len()
        ==> r.registered.contains(key_of(#[trigger] w.entities[i].1[j]))
            && !r.mappable.contains(key_of(w.entities[i].1[j]))
    &&& forall|j: int| 0 <= j < w.resources.len() ==> r.registered.contains(key_of(#[trigger] w.resources[j]))
        && !r.mappable.contains(key_of(w.resources[j]))
}

/// Cloning a container whose types are all registered, and hold no entity
/// references, keeps every component of every entity, in order, and every
/// resource; only the entity identities are new.
pub proof fn lemma_clone_fidelity(w: WorldModel, r: RegistryModel)
    requires
        world_wf(w),
        plain_registered(w, r),
    ensures
        world_clonable(w, r),
        clone_model(w, r, 0).entities.len() == w.entities.len(),
        forall|i: int| 0 <= i < w.entities.len() ==> (#[trigger] clone_model(w, r, 0).entities[i]).1 == w.entities[i].1,
        clone_model(w, r, 0).resources == w.resources,
{
    let m = crate::clone::extend_map(Map::empty(), w.entities, 0);
    assert forall|i: int| 0 <= i < w.entities.len() implies (#[trigger] clone_model(w, r, 0).entities[i]).1
        == w.entities[i].1 by {
        let s = w.entities[i].1;
        assert forall|j: int| 0 <= j < s.len() implies r.registered.contains(key_of(#[trigger] s[j])) by {
            assert(r.registered.contains(key_of(w.entities[i].1[j])));
        }
        assert forall|j: int| 0 <= j < s.len() implies !r.mappable.contains(key_of(#[trigger] s[j])) by {
            assert(!r.mappable.contains(key_of(w.entities[i].1[j])));
        }
        lemma_copied_identity(s, r, m);
    }
    assert forall|i: int| 0 <= i < w.entities.len() implies crate::clone::clonable(#[trigger] w.entities[i].1, r) by {
        assert forall|j: int| 0 <= j < w.entities[i].1.len() implies !rejected(r, key_of(#[trigger] w.entities[i].1[j])) by {
        }
    }
    lemma_copied_identity(w.resources, r, m);
    lemma_set_entries_fresh(w.resources);
}

/// A container whose only type that is neither registered nor opaque is
/// `k`: cloning it fails naming `k`, and succeeds once `k` is registered.
pub proof fn lemma_unregistered_rejection(w: WorldModel, r: RegistryModel, k: KeyModel)
    requires
        forall|i: int, j: int| 0 <= i < w.entities.len() && 0 <= j < w.entities[i].1.len() ==> key_of(
            #[trigger] w.entities[i].1[j],
        ) == k || !rejected(r, key_of(w.entities[i].1[j])),
        forall|j: int| 0 <= j < w.resources.len() ==> key_of(#[trigger] w.resources[j]) == k || !rejected(
            r,
            key_of(w.resources[j]),
        ),
    ensures
        forall|n: Seq<char>| world_name_rejected(w, r, n) ==> n == key_name(k),
        world_clonable(w, RegistryModel { registered: r.registered.insert(k), ..r }),
{
    let r2 = RegistryModel { registered: r.registered.insert(k), ..r };
    assert forall|i: int| 0 <= i < w.entities.len() implies crate::clone::clonable(#[trigger] w.entities[i].1, r2) by {
        assert forall|j: int| 0 <= j < w.entities[i].1.len() implies !rejected(r2, key_of(#[trigger] w.entities[i].1[j])) by {
        }
    }
    assert forall|n: Seq<char>| world_name_rejected(w, r, n) implies n == key_name(k) by {
        if crate::clone::entities_name_rejected(w, r, n) {
            let i = choose|i: int| 0 <= i < w.entities.len() && names_rejected(#[trigger] w.entities[i].1, r, n);
            let j = choose|j: int| 0 <= j < w.entities[i].1.len() && rejected(r, key_of(w.entities[i].1[j]))
                && key_name(key_of(w.entities[i].1[j])) == n;
            assert(key_of(w.entities[i].1[j]) == k);
        } else {
            let j = choose|j: int| 0 <= j < w.resources.len() && rejected(r, key_of(w.resources[j]))
                && key_name(key_of(w.resources[j])) == n;
            assert(key_of(w.resources[j]) == k);
        }
    }
}

/// Two actions queued for one frame, with nothing queued before, both run
/// in the order they were added, after the step of the frame before and
/// before that frame's step, in any replay that reaches the frame: the
/// replay of `n + 1` frames from `from` through frame `from + n`.
pub proof fn lemma_override_order<S: Simulation>(
    s: &S,
    w: WorldModel,
    from: nat,
    n: nat,
    a1: ActionModel,
    a2: ActionModel,
    ov0: Seq<(nat, Seq<ActionModel>)>,
    ov1: Seq<(nat, Seq<ActionModel>)>,
    ov2: Seq<(nat, Seq<ActionModel>)>,
)
    requires
        crate::buffer::batch_of(ov0, from + n) == Seq::<ActionModel>::empty(),
        crate::buffer::batch_of(ov1, from + n) == crate::buffer::batch_of(ov0, from + n).push(a1),
        crate::buffer::batch_of(ov2, from + n) == crate::buffer::batch_of(ov1, from + n).push(a2),
    ensures
        crate::buffer::batch_of(ov2, from + n) == seq![a1, a2],
        replay(s, w, ov2, from, n + 1) == s.next(apply_action(a2, apply_action(a1, replay(s, w, ov2, from, n)))),
{
    let b = crate::buffer::batch_of(ov2, from + n);
    let prev = replay(s, w, ov2, from, n);
    assert(b =~= seq![a1, a2]);
    assert(b.drop_last() =~= seq![a1]);
    assert(b.drop_last().drop_last() =~= Seq::<ActionModel>::empty());
    assert(apply_batch(b.drop_last().drop_last(), prev) == prev);
    assert(apply_batch(b.drop_last(), prev) == apply_action(a1, prev));
    assert(apply_batch(b, prev) == apply_action(a2, apply_action(a1, prev)));
    assert((from + (n + 1) - 1) as nat == from + n);
}

/// Replaying `a` frames and then `b` more is replaying `a + b` frames.
pub proof fn lemma_replay_split<S: Simulation>(
    s: &S,
    w: WorldModel,
    ov: Seq<(nat, Seq<ActionModel>)>,
    from: nat,
    a: nat,
    b: nat,
)
    ensures
        replay(s, replay(s, w, ov, from, a), ov, from + a, b) == replay(s, w, ov, from, a + b),
    decreases b,
{
    if b > 0 {
        lemma_replay_split(s, w, ov, from, a, (b - 1) as nat);
        assert((from + a + b - 1) as nat == (from + (a + b) - 1) as nat);
    }
}

/// Where the state a tick starts from (the restored snapshot, or the live
/// state) is what a simulation from frame zero reaches at the target frame,
/// the live state that `rollback_system` leaves is what a simulation from
/// frame zero through the present gives, with every queued action known
/// from the start.
pub proof fn lemma_rollback_from_scratch<S: Simulation>(
    s: &S,
    b: BufferModel,
    live: WorldModel,
    r: RegistryModel,
    w0: WorldModel,
)
    requires
        b.rollback_needed <= b.current_frame,
        tick_start(b, live, r) == replay(s, w0, b.overrides, 0, rollback_target(b)),
    ensures
        replay(s, tick_start(b, live, r), b.overrides, rollback_target(b), b.rollback_needed + 1) == replay(
            s,
            w0,
            b.overrides,
            0,
            b.current_frame + 1,
        ),
{
    lemma_replay_split(s, w0, b.overrides, 0, rollback_target(b), b.rollback_needed + 1);
}

} // verus!
