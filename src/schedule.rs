use vstd::prelude::*;
use crate::action::{Action, ActionModel, apply_all, apply_batch};
use crate::world::{RollbackWorld, WorldModel};

verus! {

/// The deterministic simulation step that the host runs once per frame.
pub trait Simulation {
    /// What one step makes of a state.
    spec fn next(&self, w: WorldModel) -> WorldModel;

    /// Runs one step on `world`.
    fn step(&self, world: &mut RollbackWorld)
        requires
            old(world).wf(),
        ensures
            final(world).wf(),
            final(world)@ == self.next(old(world)@),
    ;
}

/// A step made of actions, run in the order they were added.
pub struct RollbackSchedule {
    systems: Vec<Action>,
}

impl View for RollbackSchedule {
    type V = Seq<ActionModel>;

    closed spec fn view(&self) -> Seq<ActionModel> {
        self.systems@.map_values(|a: Action| a@)
    }
}

impl RollbackSchedule {
    /// A schedule that does nothing.
    pub fn new() -> (r: RollbackSchedule)
        ensures
            r@ == Seq::<ActionModel>::empty(),
    {
        let r = RollbackSchedule { systems: Vec::new() };
        assert(r@ =~= Seq::<ActionModel>::empty());
        r
    }

    /// Appends `a` to the actions of each step.
    pub fn add_system(&mut self, a: Action)
        ensures
            final(self)@ == old(self)@.push(a@),
    {
        self.systems.push(a);
        assert(self@ =~= old(self)@.push(a@));
    }
}

impl Simulation for RollbackSchedule {
    open spec fn next(&self, w: WorldModel) -> WorldModel {
        apply_batch(self@, w)
    }

    fn step(&self, world: &mut RollbackWorld) {
        apply_all(&self.systems, world);
    }
}

/// The actions run once on the rollback world before the first tick.
pub struct RollbackStartupSchedule {
    schedule: RollbackSchedule,
}

impl View for RollbackStartupSchedule {
    type V = Seq<ActionModel>;

    closed spec fn view(&self) -> Seq<ActionModel> {
        self.schedule@
    }
}

impl RollbackStartupSchedule {
    /// A startup schedule that does nothing.
    pub fn new() -> (r: RollbackStartupSchedule)
        ensures
            r@ == Seq::<ActionModel>::empty(),
    {
        RollbackStartupSchedule { schedule: RollbackSchedule::new() }
    }

    /// Appends `a` to the startup actions.
    pub fn add_system(&mut self, a: Action)
        ensures
            final(self)@ == old(self)@.push(a@),
    {
        self.schedule.add_system(a);
    }
}

impl Simulation for RollbackStartupSchedule {
    open spec fn next(&self, w: WorldModel) -> WorldModel {
        apply_batch(self@, w)
    }

    fn step(&self, world: &mut RollbackWorld) {
        self.schedule.step(world);
    }
}

/// Where in a host's frame the rollback work runs.
#[derive(Clone, Copy, Debug, PartialEq, Eq, Structural, Hash)]
pub enum RollbackStage {
    PreUpdate,
    Update,
    PostUpdate,
    Startup,
}

/// Runs the startup step once on the rollback world.
pub fn rollback_startup<S: Simulation>(world: &mut RollbackWorld, startup: &S)
    requires
        old(world).wf(),
    ensures
        final(world).wf(),
        final(world)@ == startup.next(old(world)@),
{
    startup.step(world);
}

} // verus!
