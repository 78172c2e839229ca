//! The run state of the tick loop and the work of one loop iteration.
//!
//! The loop itself, its thread, its sleep and the transport of snapshots
//! belong to the driver. The driver holds a `SimulationContext` under
//! mutual exclusion and asks it, once per tick boundary, whether to go on.

use crate::engine::domain::{all_valid, is_all_valid, Particle, SystemState};
use crate::engine::solver::{advanced, solve_step};
use crate::interface::seeding::{initialize_system, seeded};
use crate::math::fixed::{clamp_to_limit, saturate};
use vstd::prelude::*;

verus! {

/// Number of particles a fresh system holds.
pub const PARTICLE_COUNT: usize = 100;

/// Simulated seconds per tick, as a fixed-point scalar (0.016).
pub const TICK_SECONDS: i64 = 16_000;

/// Milliseconds the loop rests between two ticks.
pub const TICK_INTERVAL_MILLIS: u64 = 16;

/// The state of the tick loop.
#[derive(Debug, Clone, Copy, PartialEq, Eq, Structural)]
pub enum RunState {
    /// No worker is looping.
    Stopped,
    /// A worker is looping.
    Running,
    /// A worker is looping and has been asked to stop. It stops at its next
    /// tick boundary.
    StopRequested,
}

/// What can happen to the tick loop.
#[derive(Debug, Clone, Copy, PartialEq, Eq, Structural)]
pub enum Event {
    /// The controller asks for a run.
    Start,
    /// The controller asks for the run to end.
    Stop,
    /// The worker is about to begin a tick.
    TickBoundary,
    /// The worker could not deliver a snapshot to its consumer.
    PublishFailed,
}

/// What the driver has to do after an event.
#[derive(Debug, Clone, Copy, PartialEq, Eq, Structural)]
pub enum Action {
    /// Nothing.
    Nothing,
    /// Start a worker on a copy of the stored particles.
    SpawnWorker,
    /// Advance the worker's particles by one tick and publish them.
    Advance,
    /// Leave the loop.
    Exit,
}

/// The state after `event` and the action it asks for.
///
/// A run starts only from `Stopped`, so at most one worker loops at a time;
/// a start that arrives while a worker runs or winds down is declined. A
/// stop takes effect at the worker's next tick boundary. A snapshot that
/// cannot be delivered ends the run.
pub open spec fn transition(state: RunState, event: Event) -> (RunState, Action) {
    match event {
        Event::Start => match state {
            RunState::Stopped => (RunState::Running, Action::SpawnWorker),
            _ => (state, Action::Nothing),
        },
        Event::Stop => match state {
            RunState::Running => (RunState::StopRequested, Action::Nothing),
            _ => (state, Action::Nothing),
        },
        Event::TickBoundary => match state {
            RunState::Running => (RunState::Running, Action::Advance),
            _ => (RunState::Stopped, Action::Exit),
        },
        Event::PublishFailed => (RunState::Stopped, Action::Exit),
    }
}

impl RunState {
    /// Takes one event and returns the next state and the action for the
    /// driver.
    pub fn on(self, event: Event) -> (r: (RunState, Action))
        ensures
            r == transition(self, event),
    {
        match event {
            Event::Start => match self {
                RunState::Stopped => (RunState::Running, Action::SpawnWorker),
                _ => (self, Action::Nothing),
            },
            Event::Stop => match self {
                RunState::Running => (RunState::StopRequested, Action::Nothing),
                _ => (self, Action::Nothing),
            },
            Event::TickBoundary => match self {
                RunState::Running => (RunState::Running, Action::Advance),
                _ => (RunState::Stopped, Action::Exit),
            },
            Event::PublishFailed => (RunState::Stopped, Action::Exit),
        }
    }
}

/// Asking twice for a stop is asking once.
pub proof fn lemma_stop_is_idempotent(state: RunState)
    ensures
        transition(transition(state, Event::Stop).0, Event::Stop).0 == transition(
            state,
            Event::Stop,
        ).0,
{
}

/// A worker is started only when none is looping.
pub proof fn lemma_one_worker_at_a_time(state: RunState, event: Event)
    ensures
        transition(state, event).1 == Action::SpawnWorker <==> state == RunState::Stopped && event
            == Event::Start,
{
}

/// A stop ends a run at the worker's next tick boundary, whatever the
/// controller asks for in between.
pub proof fn lemma_stop_takes_effect_within_a_tick(state: RunState, between: Event)
    requires
        state != RunState::Stopped,
        between == Event::Start || between == Event::Stop,
    ensures
        ({
            let asked = transition(state, Event::Stop).0;
            let later = transition(asked, between).0;
            transition(later, Event::TickBoundary) == (RunState::Stopped, Action::Exit)
        }),
{
}

/// What the controller and the worker share: the run state and the
/// particle set a run starts from.
#[derive(Debug)]
pub struct SimulationContext {
    pub run: RunState,
    pub particles: Vec<Particle>,
}

impl SimulationContext {
    /// The context of a driver that has not started anything: no run, no
    /// particles.
    pub fn new() -> (ctx: SimulationContext)
        ensures
            ctx.run == RunState::Stopped,
            ctx.particles@.len() == 0,
    {
        SimulationContext { run: RunState::Stopped, particles: Vec::new() }
    }
}

/// Replaces the stored particles by a fresh random set and returns its
/// snapshot at time zero, for the driver to publish. The run state stays as
/// it is.
pub fn init_simulation(ctx: &mut SimulationContext) -> (snapshot: SystemState)
    ensures
        final(ctx).run == old(ctx).run,
        final(ctx).particles@.len() == PARTICLE_COUNT,
        forall|k: int| 0 <= k < PARTICLE_COUNT ==> seeded(#[trigger] final(ctx).particles@[k]),
        snapshot.particles@ == final(ctx).particles@,
        snapshot.timestamp == 0,
{
    let initial = initialize_system(PARTICLE_COUNT);
    let snapshot = SystemState::capture(&initial, 0);
    ctx.particles = initial;
    snapshot
}

/// Asks for the run to end. The worker leaves its loop at its next tick
/// boundary.
pub fn stop_simulation(ctx: &mut SimulationContext)
    ensures
        final(ctx).run == transition(old(ctx).run, Event::Stop).0,
        final(ctx).particles@ == old(ctx).particles@,
{
    let (next, _) = ctx.run.on(Event::Stop);
    ctx.run = next;
}

/// Asks for a run. Where no worker is looping, the run begins and the
/// result is the copy of the stored particles that the new worker is to
/// advance; otherwise the call changes nothing and the result is `None`.
pub fn start_simulation(ctx: &mut SimulationContext) -> (worker: Option<Vec<Particle>>)
    ensures
        final(ctx).run == transition(old(ctx).run, Event::Start).0,
        final(ctx).particles@ == old(ctx).particles@,
        worker.is_some() <==> old(ctx).run == RunState::Stopped,
        worker matches Some(w) ==> w@ == old(ctx).particles@,
{
    let (next, action) = ctx.run.on(Event::Start);
    ctx.run = next;
    match action {
        Action::SpawnWorker => Some(SystemState::capture(&ctx.particles, 0).particles),
        _ => None,
    }
}

/// The worker's question at a tick boundary: whether to run another tick.
/// A worker that has been asked to stop is told to leave, and the run is
/// over.
pub fn tick_boundary(ctx: &mut SimulationContext) -> (go: bool)
    ensures
        final(ctx).run == transition(old(ctx).run, Event::TickBoundary).0,
        final(ctx).particles@ == old(ctx).particles@,
        go <==> old(ctx).run == RunState::Running,
{
    let (next, action) = ctx.run.on(Event::TickBoundary);
    ctx.run = next;
    match action {
        Action::Advance => true,
        _ => false,
    }
}

/// The worker's report that its consumer is unreachable: the run is over.
pub fn publish_failed(ctx: &mut SimulationContext)
    ensures
        final(ctx).run == RunState::Stopped,
        final(ctx).particles@ == old(ctx).particles@,
{
    let (next, _) = ctx.run.on(Event::PublishFailed);
    ctx.run = next;
}

/// The work of one loop iteration: advances the particles by one tick and
/// returns their snapshot, stamped with the elapsed time after the tick.
/// Particles the kernel does not accept are left frozen as they are.
pub fn worker_tick(particles: &mut Vec<Particle>, elapsed: i64) -> (snapshot: SystemState)
    ensures
        all_valid(old(particles)@) ==> final(particles)@ == advanced(old(particles)@),
        !all_valid(old(particles)@) ==> final(particles)@ == old(particles)@,
        snapshot.particles@ == final(particles)@,
        snapshot.timestamp == saturate(elapsed + TICK_SECONDS),
{
    if is_all_valid(particles) {
        solve_step(particles);
    }
    SystemState::capture(particles, clamp_to_limit(elapsed as i128 + TICK_SECONDS as i128))
}

} // verus!
