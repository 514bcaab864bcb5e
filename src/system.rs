use vstd::prelude::*;
use crate::action::{ActionModel, apply_all, apply_batch};
use crate::buffer::{RollbackBuffer, batch_of, snapshot_at};
use crate::clone::{RollbackError, overwrite_world, clone_model, world_clonable};
use crate::registry::RollbackRegistry;
use crate::schedule::Simulation;
use crate::world::{RollbackWorld, WorldModel};
use crate::laws::lemma_same_slot;

verus! {

/// The state reached from `w` by running, for each of the `n` frames from
/// `from` on, that frame's queued actions and then one step of `s`.
pub open spec fn replay<S: Simulation>(
    s: &S,
    w: WorldModel,
    ov: Seq<(nat, Seq<ActionModel>)>,
    from: nat,
    n: nat,
) -> WorldModel
    decreases n,
{
    if n == 0 {
        w
    } else {
        s.next(apply_batch(batch_of(ov, (from + n - 1) as nat), replay(s, w, ov, from, (n - 1) as nat)))
    }
}

/// The frame a tick starts recomputing from.
pub open spec fn rollback_target(b: crate::buffer::BufferModel) -> nat {
    (b.current_frame - b.rollback_needed) as nat
}

/// The state a tick starts from: the present live state, or, where a
/// rollback is pending, the copy of the target frame's snapshot.
pub open spec fn tick_start(b: crate::buffer::BufferModel, live: WorldModel, r: crate::registry::RegistryModel) -> WorldModel {
    if b.rollback_needed > 0 {
        clone_model(snapshot_at(b, rollback_target(b)).unwrap(), r, live.next_id)
    } else {
        live
    }
}

/// Every state a tick copies can be copied: the snapshot it restores, and
/// the state at the start of each frame it recomputes.
pub open spec fn tick_clonable<S: Simulation>(
    s: &S,
    b: crate::buffer::BufferModel,
    live: WorldModel,
    r: crate::registry::RegistryModel,
) -> bool {
    &&& b.rollback_needed > 0 ==> world_clonable(snapshot_at(b, rollback_target(b)).unwrap(), r)
    &&& forall|j: nat| j <= b.rollback_needed ==> world_clonable(
        #[trigger] replay(s, tick_start(b, live, r), b.overrides, rollback_target(b), j),
        r,
    )
}

/// Whether slot `k` of a buffer of `c` slots holds none of the frames from
/// `from` up to, but not including, `to`.
pub open spec fn slot_untouched(k: int, c: nat, from: nat, to: nat) -> bool {
    forall|u: nat| from <= u < to ==> #[trigger] (u % c) != k
}

/// One scheduling tick. Where a rollback is pending, the live state is
/// restored from the snapshot of the target frame; then each frame from the
/// target through the present is recomputed in turn: its snapshot is
/// stored, its queued actions run, and the step runs once. The rollback
/// distance then goes back to zero and the present moves one frame on.
/// Queued batches are all kept, so a frame recomputed by a later tick runs
/// its batch again; slots of frames outside the recomputed range are left
/// as they are. A tick that fails leaves the present frame, the rollback
/// distance and the batches as they were.
pub fn rollback_system<S: Simulation>(
    current_world: &mut RollbackWorld,
    rollback_buffer: &mut RollbackBuffer,
    rollback_schedule: &S,
    rollback_registry: &RollbackRegistry,
) -> (r: Result<(), RollbackError>)
    requires
        old(current_world).wf(),
        old(rollback_buffer).wf(),
        old(rollback_buffer)@.current_frame < usize::MAX,
        old(rollback_buffer)@.rollback_needed > 0 ==> {
            &&& snapshot_at(old(rollback_buffer)@, rollback_target(old(rollback_buffer)@)) is Some
            &&& old(current_world)@.next_id + snapshot_at(
                old(rollback_buffer)@,
                rollback_target(old(rollback_buffer)@),
            ).unwrap().entities.len() <= u64::MAX
        },
    ensures
        final(current_world).wf(),
        final(rollback_buffer).wf(),
        r is Ok <==> tick_clonable(rollback_schedule, old(rollback_buffer)@, old(current_world)@, rollback_registry@),
        r is Err ==> {
            &&& final(rollback_buffer)@.current_frame == old(rollback_buffer)@.current_frame
            &&& final(rollback_buffer)@.rollback_needed == old(rollback_buffer)@.rollback_needed
            &&& final(rollback_buffer)@.overrides == old(rollback_buffer)@.overrides
        },
        r is Ok ==> {
            &&& final(rollback_buffer)@.overrides == old(rollback_buffer)@.overrides
            &&& forall|k: int| 0 <= k < old(rollback_buffer)@.slots.len() && slot_untouched(
                k,
                old(rollback_buffer)@.slots.len(),
                rollback_target(old(rollback_buffer)@),
                old(rollback_buffer)@.current_frame + 1,
            ) ==> #[trigger] final(rollback_buffer)@.slots[k] == old(rollback_buffer)@.slots[k]
            &&& final(rollback_buffer)@.current_frame == old(rollback_buffer)@.current_frame + 1
            &&& final(rollback_buffer)@.rollback_needed == 0
            &&& final(rollback_buffer)@.slots.len() == old(rollback_buffer)@.slots.len()
            &&& forall|u: nat| rollback_target(old(rollback_buffer)@) <= u <= old(rollback_buffer)@.current_frame
                && old(rollback_buffer)@.current_frame < u + old(rollback_buffer)@.slots.len()
                ==> #[trigger] final(rollback_buffer)@.slots[(u % old(rollback_buffer)@.slots.len()) as int] == Some((
                u,
                clone_model(
                    replay(
                        rollback_schedule,
                        tick_start(old(rollback_buffer)@, old(current_world)@, rollback_registry@),
                        old(rollback_buffer)@.overrides,
                        rollback_target(old(rollback_buffer)@),
                        (u - rollback_target(old(rollback_buffer)@)) as nat,
                    ),
                    rollback_registry@,
                    0,
                ),
            ))
            &&& final(current_world)@ == replay(
                rollback_schedule,
                tick_start(old(rollback_buffer)@, old(current_world)@, rollback_registry@),
                old(rollback_buffer)@.overrides,
                rollback_target(old(rollback_buffer)@),
                old(rollback_buffer)@.rollback_needed + 1,
            )
        },
{
    let ghost b0 = rollback_buffer@;
    let ghost start = tick_start(b0, current_world@, rollback_registry@);
    let present = rollback_buffer.current_frame();
    let target = present - rollback_buffer.rollback_needed();
    if rollback_buffer.rollback_needed() > 0 {
        match rollback_buffer.get_world(target) {
            Some(snapshot) => {
                match overwrite_world(snapshot, current_world, rollback_registry) {
                    Ok(()) => {},
                    Err(e) => {
                        return Err(e);
                    },
                }
            },
            None => {
                assert(false);
            },
        }
    }
    let mut t: usize = target;
    while t <= present
        invariant
            target <= t <= present + 1,
            present == b0.current_frame,
            present < usize::MAX,
            target == rollback_target(b0),
            current_world.wf(),
            rollback_buffer.wf(),
            rollback_buffer@.current_frame == b0.current_frame,
            rollback_buffer@.rollback_needed == b0.rollback_needed,
            rollback_buffer@.overrides == b0.overrides,
            forall|k: int| 0 <= k < b0.slots.len() && slot_untouched(k, b0.slots.len(), target as nat, t as nat)
                ==> #[trigger] rollback_buffer@.slots[k] == b0.slots[k],
            start == tick_start(b0, old(current_world)@, rollback_registry@),
            b0 == old(rollback_buffer)@,
            rollback_buffer@.slots.len() == b0.slots.len(),
            forall|u: nat| target <= u < t && t <= u + b0.slots.len() ==> #[trigger] rollback_buffer@.slots[(u
                % b0.slots.len()) as int] == Some((
                u,
                clone_model(
                    replay(rollback_schedule, start, b0.overrides, target as nat, (u - target) as nat),
                    rollback_registry@,
                    0,
                ),
            )),
            current_world@ == replay(rollback_schedule, start, b0.overrides, target as nat, (t - target) as nat),
            b0.rollback_needed > 0 ==> world_clonable(snapshot_at(b0, rollback_target(b0)).unwrap(), rollback_registry@),
            forall|j: nat| j < t - target ==> world_clonable(
                #[trigger] replay(rollback_schedule, start, b0.overrides, target as nat, j),
                rollback_registry@,
            ),
        decreases present + 1 - t,
    {
        match rollback_buffer.push_world(t, current_world, rollback_registry) {
            Ok(_) => {},
            Err(e) => {
                assert(!world_clonable(
                    replay(
                        rollback_schedule,
                        tick_start(b0, old(current_world)@, rollback_registry@),
                        b0.overrides,
                        rollback_target(b0),
                        (t - target) as nat,
                    ),
                    rollback_registry@,
                ));
                return Err(e);
            },
        }
        proof {
            let c = b0.slots.len();
            assert forall|u: nat| target <= u < t + 1 && t + 1 <= u + c implies #[trigger] rollback_buffer@.slots[(u
                % c) as int] == Some((
                u,
                clone_model(
                    replay(rollback_schedule, start, b0.overrides, target as nat, (u - target) as nat),
                    rollback_registry@,
                    0,
                ),
            )) by {
                if u < t {
                    if u % c == t as nat % c {
                        lemma_same_slot(u, t as nat, c);
                    }
                }
            }
            assert forall|k: int| 0 <= k < c && slot_untouched(k, c, target as nat, (t + 1) as nat)
                implies #[trigger] rollback_buffer@.slots[k] == b0.slots[k] by {
                assert((t as nat) % c != k);
                assert(slot_untouched(k, c, target as nat, t as nat));
            }
        }
        let ghost before = current_world@;
        match rollback_buffer.get_override(t) {
            Some(batch) => {
                apply_all(batch, current_world);
            },
            None => {
                assert(apply_batch(batch_of(rollback_buffer@.overrides, t as nat), before) == before);
            },
        }
        rollback_schedule.step(current_world);
        assert(batch_of(rollback_buffer@.overrides, t as nat) == batch_of(b0.overrides, t as nat));
        assert(((target as nat) + ((t + 1 - target) as nat) - 1) as nat == t as nat);
        t = t + 1;
    }
    rollback_buffer.reset_rollback_needed();
    rollback_buffer.inc_frame();
    Ok(())
}

} // verus!
