use vstd::prelude::*;
use crate::action::{Action, ActionModel};
use crate::clone::{RollbackError, clone_world, clone_model, world_clonable, world_name_rejected};
use crate::registry::RollbackRegistry;
use crate::world::{RollbackWorld, WorldModel, world_wf};

verus! {

/// A stored copy of the state container as it was when a frame began.
pub struct Snapshot {
    frame: usize,
    world: RollbackWorld,
}

/// The retained history: one slot per frame modulo the capacity, the
/// override batches queued per frame, the present frame, and how many
/// frames back the next tick must recompute.
pub struct RollbackBuffer {
    buffer: Vec<Option<Snapshot>>,
    overrides: Vec<(usize, Vec<Action>)>,
    current_frame: usize,
    rollback_needed: usize,
}

/// A buffer as a mathematical value.
pub struct BufferModel {
    pub slots: Seq<Option<(nat, WorldModel)>>,
    pub overrides: Seq<(nat, Seq<ActionModel>)>,
    pub current_frame: nat,
    pub rollback_needed: nat,
}

pub closed spec fn slot_view(s: Option<Snapshot>) -> Option<(nat, WorldModel)> {
    match s {
        Some(x) => Some((x.frame as nat, x.world@)),
        None => None,
    }
}

pub open spec fn batch_view(b: (usize, Vec<Action>)) -> (nat, Seq<ActionModel>) {
    (b.0 as nat, b.1@.map_values(|a: Action| a@))
}

pub open spec fn opt_world_view(w: Option<RollbackWorld>) -> Option<WorldModel> {
    match w {
        Some(x) => Some(x@),
        None => None,
    }
}

impl View for RollbackBuffer {
    type V = BufferModel;

    closed spec fn view(&self) -> BufferModel {
        BufferModel {
            slots: self.buffer@.map_values(|s: Option<Snapshot>| slot_view(s)),
            overrides: self.overrides@.map_values(|b: (usize, Vec<Action>)| batch_view(b)),
            current_frame: self.current_frame as nat,
            rollback_needed: self.rollback_needed as nat,
        }
    }
}

/// Whether a batch is queued for frame `f`.
pub open spec fn has_batch(ov: Seq<(nat, Seq<ActionModel>)>, f: nat) -> bool {
    exists|i: int| 0 <= i < ov.len() && ov[i].0 == f
}

/// The actions queued for frame `f`, in the order they were added.
pub open spec fn batch_of(ov: Seq<(nat, Seq<ActionModel>)>, f: nat) -> Seq<ActionModel> {
    if has_batch(ov, f) {
        ov[choose|i: int| 0 <= i < ov.len() && ov[i].0 == f].1
    } else {
        seq![]
    }
}

/// Capacity is positive, each stored snapshot sits in the slot of its
/// frame, at most one batch per frame, and the rollback distance reaches
/// neither before frame zero nor past the capacity.
pub open spec fn buffer_wf(b: BufferModel) -> bool {
    &&& b.slots.len() > 0
    &&& forall|i: int| 0 <= i < b.slots.len() ==> match #[trigger] b.slots[i] {
        Some((f, w)) => f % b.slots.len() == i && world_wf(w),
        None => true,
    }
    &&& forall|i: int, j: int| 0 <= i < j < b.overrides.len() ==> b.overrides[i].0 != b.overrides[j].0
    &&& b.rollback_needed <= b.current_frame
    &&& b.rollback_needed <= b.slots.len()
}

/// The snapshot of frame `i`, if it is still retained: `i` is at most the
/// capacity behind the present frame, and its slot still holds it.
pub open spec fn snapshot_at(b: BufferModel, i: nat) -> Option<WorldModel> {
    if i <= b.current_frame && b.current_frame - i <= b.slots.len() {
        match b.slots[(i % b.slots.len()) as int] {
            Some((f, w)) => if f == i {
                Some(w)
            } else {
                None
            },
            None => None,
        }
    } else {
        None
    }
}

/// `ov` without the batch of frame `f`.
pub open spec fn remove_batch(ov: Seq<(nat, Seq<ActionModel>)>, f: nat) -> Seq<(nat, Seq<ActionModel>)> {
    if has_batch(ov, f) {
        ov.remove(choose|i: int| 0 <= i < ov.len() && ov[i].0 == f)
    } else {
        ov
    }
}

/// No two batches are queued for one frame.
pub open spec fn unique_frames(ov: Seq<(nat, Seq<ActionModel>)>) -> bool {
    forall|i: int, j: int| 0 <= i < j < ov.len() ==> ov[i].0 != ov[j].0
}

proof fn lemma_batch_index(ov: Seq<(nat, Seq<ActionModel>)>, f: nat, i: int)
    requires
        unique_frames(ov),
        0 <= i < ov.len(),
        ov[i].0 == f,
    ensures
        has_batch(ov, f),
        (choose|j: int| 0 <= j < ov.len() && ov[j].0 == f) == i,
        batch_of(ov, f) == ov[i].1,
{
    let c = choose|j: int| 0 <= j < ov.len() && ov[j].0 == f;
    if c < i {
        assert(ov[c].0 != ov[i].0);
    } else if c > i {
        assert(ov[i].0 != ov[c].0);
    }
}

/// Dropping the batch of `f` leaves the others as they were.
proof fn lemma_remove_batch(ov: Seq<(nat, Seq<ActionModel>)>, f: nat)
    requires
        unique_frames(ov),
    ensures
        unique_frames(remove_batch(ov, f)),
        forall|g: nat| #[trigger] batch_of(remove_batch(ov, f), g) == if g == f {
            seq![]
        } else {
            batch_of(ov, g)
        },
{
    if has_batch(ov, f) {
        let i = choose|j: int| 0 <= j < ov.len() && ov[j].0 == f;
        let t = ov.remove(i);
        assert forall|a: int, b: int| 0 <= a < b < t.len() implies t[a].0 != t[b].0 by {
            let a2 = if a < i { a } else { a + 1 };
            let b2 = if b < i { b } else { b + 1 };
            assert(t[a] == ov[a2] && t[b] == ov[b2]);
        }
        assert forall|g: nat| #[trigger] batch_of(t, g) == if g == f {
            seq![]
        } else {
            batch_of(ov, g)
        } by {
            if has_batch(t, g) {
                let a = choose|j: int| 0 <= j < t.len() && t[j].0 == g;
                let a2 = if a < i { a } else { a + 1 };
                assert(t[a] == ov[a2]);
                lemma_batch_index(ov, g, a2);
                lemma_batch_index(t, g, a);
                if g == f {
                    assert(ov[a2].0 != ov[i].0 || a2 == i);
                }
            } else if has_batch(ov, g) && g != f {
                let a2 = choose|j: int| 0 <= j < ov.len() && ov[j].0 == g;
                let a = if a2 < i { a2 } else { a2 - 1 };
                assert(a2 != i);
                assert(t[a] == ov[a2]);
            }
        }
    }
}

impl RollbackBuffer {
    pub open spec fn wf(&self) -> bool {
        buffer_wf(self@)
    }

    /// An empty buffer of `capacity` slots at frame zero.
    pub fn with_capacity(capacity: usize) -> (r: RollbackBuffer)
        requires
            capacity > 0,
        ensures
            r.wf(),
            r@ == (BufferModel {
                slots: Seq::new(capacity as nat, |i: int| None),
                overrides: seq![],
                current_frame: 0,
                rollback_needed: 0,
            }),
    {
        let mut buffer: Vec<Option<Snapshot>> = Vec::with_capacity(capacity);
        let mut i: usize = 0;
        while i < capacity
            invariant
                i <= capacity,
                buffer@.len() == i,
                forall|j: int| 0 <= j < i ==> buffer@[j] is None,
            decreases capacity - i,
        {
            buffer.push(None);
            i = i + 1;
        }
        let r = RollbackBuffer { buffer, overrides: Vec::new(), current_frame: 0, rollback_needed: 0 };
        assert(r@.slots =~= Seq::new(capacity as nat, |i: int| None::<(nat, WorldModel)>));
        assert(r@.overrides =~= seq![]);
        r
    }

    /// The number of slots.
    pub fn capacity(&self) -> (r: usize)
        ensures
            r == self@.slots.len(),
    {
        self.buffer.len()
    }

    /// The present frame.
    pub fn current_frame(&self) -> (r: usize)
        ensures
            r == self@.current_frame,
    {
        self.current_frame
    }

    /// How many frames back the next tick recomputes.
    pub fn rollback_needed(&self) -> (r: usize)
        ensures
            r == self@.rollback_needed,
    {
        self.rollback_needed
    }

    /// Moves the present one frame on.
    pub fn inc_frame(&mut self)
        requires
            old(self).wf(),
            old(self)@.current_frame < usize::MAX,
        ensures
            final(self).wf(),
            final(self)@ == (BufferModel { current_frame: old(self)@.current_frame + 1, ..old(self)@ }),
    {
        self.current_frame = self.current_frame + 1;
    }

    /// Forgets the pending rollback distance.
    pub fn reset_rollback_needed(&mut self)
        requires
            old(self).wf(),
        ensures
            final(self).wf(),
            final(self)@ == (BufferModel { rollback_needed: 0, ..old(self)@ }),
    {
        self.rollback_needed = 0;
    }

    fn find_batch(&self, f: usize) -> (r: Option<usize>)
        requires
            self.wf(),
        ensures
            match r {
                Some(i) => i < self@.overrides.len() && self@.overrides[i as int].0 == f,
                None => !has_batch(self@.overrides, f as nat),
            },
    {
        let mut i: usize = 0;
        while i < self.overrides.len()
            invariant
                i <= self.overrides@.len(),
                forall|j: int| 0 <= j < i ==> self@.overrides[j].0 != f,
            decreases self.overrides@.len() - i,
        {
            if self.overrides[i].0 == f {
                return Some(i);
            }
            i = i + 1;
        }
        None
    }

    /// The snapshot of frame `index`, if it is still retained.
    pub fn get_world(&self, index: usize) -> (r: Option<&RollbackWorld>)
        requires
            self.wf(),
        ensures
            match r {
                Some(w) => snapshot_at(self@, index as nat) == Some(w@) && w.wf(),
                None => snapshot_at(self@, index as nat) is None,
            },
    {
        let len = self.buffer.len();
        if index > self.current_frame || self.current_frame - index > len {
            return None;
        }
        let ghost k = (index % len) as int;
        assert(self@.slots[k] == slot_view(self.buffer@[k]));
        match &self.buffer[index % len] {
            Some(s) => {
                if s.frame == index {
                    Some(&s.world)
                } else {
                    None
                }
            },
            None => None,
        }
    }

    /// Stores a copy of `world` as the snapshot of frame `index`, in the slot
    /// of that frame, and hands back the snapshot it replaces, so that a
    /// caller may take that frame's batch with `remove_override` before
    /// discarding it. The batches are left as they are. Fails, changing
    /// nothing, where `world` holds a type that is neither registered nor
    /// opaque.
    pub fn push_world(&mut self, index: usize, world: &RollbackWorld, registry: &RollbackRegistry) -> (r: Result<
        Option<RollbackWorld>,
        RollbackError,
    >)
        requires
            old(self).wf(),
            world.wf(),
        ensures
            final(self).wf(),
            r is Ok <==> world_clonable(world@, registry@),
            r matches Ok(ev) ==> {
                let k = (index as nat % old(self)@.slots.len()) as int;
                &&& final(self)@ == (BufferModel {
                    slots: old(self)@.slots.update(k, Some((index as nat, clone_model(world@, registry@, 0)))),
                    ..old(self)@
                })
                &&& opt_world_view(ev) == match old(self)@.slots[k] {
                    Some((_, w)) => Some(w),
                    None => None,
                }
            },
            r matches Err(RollbackError::UnregisteredType(n)) ==> world_name_rejected(world@, registry@, n@),
            r is Err ==> final(self)@ == old(self)@,
    {
        let copy = match clone_world(world, registry) {
            Ok(w) => w,
            Err(e) => {
                return Err(e);
            },
        };
        let len = self.buffer.len();
        let k = index % len;
        let ghost b0 = self@;
        let old_slot = self.buffer.remove(k);
        self.buffer.insert(k, Some(Snapshot { frame: index, world: copy }));
        assert(self@.slots =~= b0.slots.update(k as int, Some((index as nat, clone_model(world@, registry@, 0)))));
        assert(slot_view(old_slot) == b0.slots[k as int]);
        assert(self@.slots[k as int] == Some((index as nat, clone_model(world@, registry@, 0))));
        proof {
            assert((index as nat) % (len as nat) == k as nat);
        }
        let evicted = match old_slot {
            Some(snap) => Some(snap.world),
            None => None,
        };
        Ok(evicted)
    }

    /// Queues `action` at the end of the batch of frame `frame`, an absolute
    /// frame number, and widens the rollback distance to reach that frame
    /// where it lies at or before the present. A frame more than the
    /// capacity behind the present can no longer be recomputed, and is not
    /// to be asked for.
    pub fn add_override(&mut self, frame: usize, action: Action)
        requires
            old(self).wf(),
            frame <= old(self)@.current_frame ==> old(self)@.current_frame - frame <= old(self)@.slots.len(),
        ensures
            final(self).wf(),
            final(self)@.slots == old(self)@.slots,
            final(self)@.current_frame == old(self)@.current_frame,
            has_batch(final(self)@.overrides, frame as nat),
            forall|g: nat| #[trigger] batch_of(final(self)@.overrides, g) == if g == frame as nat {
                batch_of(old(self)@.overrides, g).push(action@)
            } else {
                batch_of(old(self)@.overrides, g)
            },
            final(self)@.rollback_needed == if frame <= old(self)@.current_frame && old(self)@.current_frame
                - frame > old(self)@.rollback_needed {
                (old(self)@.current_frame - frame) as nat
            } else {
                old(self)@.rollback_needed
            },
    {
        let ghost ov = self@.overrides;
        let ghost a = action@;
        match self.find_batch(frame) {
            Some(i) => {
                proof {
                    lemma_batch_index(ov, frame as nat, i as int);
                }
                let (f, mut batch) = self.overrides.remove(i);
                assert(batch_view((f, batch)) == ov[i as int]);
                batch.push(action);
                assert(batch@.map_values(|x: Action| x@) =~= ov[i as int].1.push(a));
                self.overrides.insert(i, (f, batch));
                let ghost t = self@.overrides;
                assert(t =~= ov.update(i as int, (frame as nat, ov[i as int].1.push(a))));
                assert forall|g: nat| #[trigger] batch_of(t, g) == if g == frame as nat {
                    batch_of(ov, g).push(a)
                } else {
                    batch_of(ov, g)
                } by {
                    if g == frame as nat {
                        lemma_batch_index(t, g, i as int);
                    } else if has_batch(t, g) {
                        let j = choose|j: int| 0 <= j < t.len() && t[j].0 == g;
                        assert(t[j] == ov[j]);
                        lemma_batch_index(ov, g, j);
                    } else if has_batch(ov, g) {
                        let j = choose|j: int| 0 <= j < ov.len() && ov[j].0 == g;
                        assert(t[j] == ov[j]);
                    }
                }
            },
            None => {
                let mut batch: Vec<Action> = Vec::new();
                batch.push(action);
                assert(batch@.map_values(|x: Action| x@) =~= seq![a]);
                self.overrides.push((frame, batch));
                let ghost t = self@.overrides;
                assert(t =~= ov.push((frame as nat, seq![a])));
                assert forall|g: nat| #[trigger] batch_of(t, g) == if g == frame as nat {
                    batch_of(ov, g).push(a)
                } else {
                    batch_of(ov, g)
                } by {
                    if g == frame as nat {
                        lemma_batch_index(t, g, ov.len() as int);
                        assert(batch_of(ov, g) == Seq::<ActionModel>::empty());
                        assert(seq![a] =~= Seq::<ActionModel>::empty().push(a));
                    } else if has_batch(t, g) {
                        let j = choose|j: int| 0 <= j < t.len() && t[j].0 == g;
                        assert(t[j] == ov[j]);
                        lemma_batch_index(ov, g, j);
                        lemma_batch_index(t, g, j);
                    } else if has_batch(ov, g) {
                        let j = choose|j: int| 0 <= j < ov.len() && ov[j].0 == g;
                        assert(t[j] == ov[j]);
                    }
                }
            },
        }
        assert(batch_of(self@.overrides, frame as nat).len() > 0);
        if frame <= self.current_frame && self.current_frame - frame > self.rollback_needed {
            self.rollback_needed = self.current_frame - frame;
        }
    }

    /// Queues `action` for the frame `frames_back` frames before the present.
    pub fn add_overrides_relative(&mut self, frames_back: usize, action: Action)
        requires
            old(self).wf(),
            frames_back <= old(self)@.current_frame,
            frames_back <= old(self)@.slots.len(),
        ensures
            final(self).wf(),
            final(self)@.slots == old(self)@.slots,
            final(self)@.current_frame == old(self)@.current_frame,
            has_batch(final(self)@.overrides, (old(self)@.current_frame - frames_back) as nat),
            forall|g: nat| #[trigger] batch_of(final(self)@.overrides, g) == if g == old(self)@.current_frame
                - frames_back {
                batch_of(old(self)@.overrides, g).push(action@)
            } else {
                batch_of(old(self)@.overrides, g)
            },
            final(self)@.rollback_needed == if frames_back > old(self)@.rollback_needed {
                frames_back as nat
            } else {
                old(self)@.rollback_needed
            },
    {
        let frame = self.current_frame - frames_back;
        self.add_override(frame, action);
    }

    /// Takes out the batch of frame `frame`, if one is queued.
    pub fn remove_override(&mut self, frame: usize) -> (r: Option<Vec<Action>>)
        requires
            old(self).wf(),
        ensures
            final(self).wf(),
            final(self)@ == (BufferModel { overrides: remove_batch(old(self)@.overrides, frame as nat), ..old(self)@ }),
            match r {
                Some(b) => has_batch(old(self)@.overrides, frame as nat)
                    && b@.map_values(|a: Action| a@) == batch_of(old(self)@.overrides, frame as nat),
                None => !has_batch(old(self)@.overrides, frame as nat),
            },
    {
        let ghost ov = self@.overrides;
        proof {
            lemma_remove_batch(ov, frame as nat);
        }
        match self.find_batch(frame) {
            Some(i) => {
                proof {
                    lemma_batch_index(ov, frame as nat, i as int);
                }
                let (_, batch) = self.overrides.remove(i);
                assert(self@.overrides =~= remove_batch(ov, frame as nat));
                Some(batch)
            },
            None => None,
        }
    }

    /// The batch of frame `frame`, if one is queued, for changes.
    pub fn get_override_mut(&mut self, frame: usize) -> (r: Option<&mut Vec<Action>>)
        requires
            old(self).wf(),
        ensures
            match r {
                Some(b) => has_batch(old(self)@.overrides, frame as nat)
                    && b@.map_values(|a: Action| a@) == batch_of(old(self)@.overrides, frame as nat),
                None => !has_batch(old(self)@.overrides, frame as nat),
            },
    {
        match self.find_batch(frame) {
            Some(i) => {
                proof {
                    lemma_batch_index(self@.overrides, frame as nat, i as int);
                }
                let batches = self.overrides.as_mut_slice();
                let entry = &mut batches[i];
                Some(&mut entry.1)
            },
            None => None,
        }
    }

    /// The batch of frame `frame`, if one is queued.
    pub fn get_override(&self, frame: usize) -> (r: Option<&Vec<Action>>)
        requires
            self.wf(),
        ensures
            match r {
                Some(b) => has_batch(self@.overrides, frame as nat)
                    && b@.map_values(|a: Action| a@) == batch_of(self@.overrides, frame as nat),
                None => !has_batch(self@.overrides, frame as nat),
            },
    {
        match self.find_batch(frame) {
            Some(i) => {
                proof {
                    lemma_batch_index(self@.overrides, frame as nat, i as int);
                }
                Some(&self.overrides[i].1)
            },
            None => None,
        }
    }

    /// The snapshot of frame `index`, if it is still retained, for changes.
    pub fn get_world_mut(&mut self, index: usize) -> (r: Option<&mut RollbackWorld>)
        requires
            old(self).wf(),
        ensures
            match r {
                Some(w) => snapshot_at(old(self)@, index as nat) == Some(w@) && w.wf(),
                None => snapshot_at(old(self)@, index as nat) is None,
            },
    {
        let len = self.buffer.len();
        if index > self.current_frame || self.current_frame - index > len {
            return None;
        }
        let ghost k = (index % len) as int;
        assert(self@.slots[k] == slot_view(self.buffer@[k]));
        let slots = self.buffer.as_mut_slice();
        match &mut slots[index % len] {
            Some(s) => {
                if s.frame == index {
                    Some(&mut s.world)
                } else {
                    None
                }
            },
            _ => None,
        }
    }
}

} // verus!
