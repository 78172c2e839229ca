use particle_kernel::engine::domain::Particle;
use particle_kernel::interface::controller::{
    init_simulation, publish_failed, start_simulation, stop_simulation, tick_boundary,
    worker_tick, Action, Event, RunState, SimulationContext, PARTICLE_COUNT,
    TICK_INTERVAL_MILLIS, TICK_SECONDS,
};
use particle_kernel::math::fixed::{LIMIT, ONE};
use particle_kernel::math::vector::Vec2;

fn marble(x: i64, y: i64) -> Particle {
    Particle::new(Vec2::new(x, y), Vec2::new(0, 0), ONE, String::from("#C8C8FF"))
}

#[test]
fn a_tick_is_sixteen_milliseconds() {
    assert_eq!(TICK_SECONDS, 16_000);
    assert_eq!(TICK_INTERVAL_MILLIS, 16);
    assert_eq!(PARTICLE_COUNT, 100);
}

#[test]
fn a_start_from_stopped_spawns_a_worker() {
    assert_eq!(RunState::Stopped.on(Event::Start), (RunState::Running, Action::SpawnWorker));
}

#[test]
fn a_second_start_is_declined() {
    assert_eq!(RunState::Running.on(Event::Start), (RunState::Running, Action::Nothing));
    assert_eq!(
        RunState::StopRequested.on(Event::Start),
        (RunState::StopRequested, Action::Nothing)
    );
}

#[test]
fn a_stop_is_a_request() {
    assert_eq!(RunState::Running.on(Event::Stop), (RunState::StopRequested, Action::Nothing));
}

#[test]
fn a_stop_is_idempotent() {
    for state in [RunState::Stopped, RunState::Running, RunState::StopRequested] {
        let (once, _) = state.on(Event::Stop);
        let (twice, action) = once.on(Event::Stop);
        assert_eq!(twice, once);
        assert_eq!(action, Action::Nothing);
    }
    assert_eq!(RunState::Stopped.on(Event::Stop), (RunState::Stopped, Action::Nothing));
}

#[test]
fn a_running_worker_advances_at_a_tick_boundary() {
    assert_eq!(RunState::Running.on(Event::TickBoundary), (RunState::Running, Action::Advance));
}

#[test]
fn a_worker_asked_to_stop_exits_at_a_tick_boundary() {
    assert_eq!(
        RunState::StopRequested.on(Event::TickBoundary),
        (RunState::Stopped, Action::Exit)
    );
    assert_eq!(RunState::Stopped.on(Event::TickBoundary), (RunState::Stopped, Action::Exit));
}

#[test]
fn a_failed_publish_ends_the_run() {
    for state in [RunState::Stopped, RunState::Running, RunState::StopRequested] {
        assert_eq!(state.on(Event::PublishFailed), (RunState::Stopped, Action::Exit));
    }
}

#[test]
fn only_a_start_from_stopped_spawns() {
    for state in [RunState::Stopped, RunState::Running, RunState::StopRequested] {
        for event in [Event::Start, Event::Stop, Event::TickBoundary, Event::PublishFailed] {
            let (_, action) = state.on(event);
            let expected = state == RunState::Stopped && event == Event::Start;
            assert_eq!(action == Action::SpawnWorker, expected);
        }
    }
}

#[test]
fn a_new_context_is_stopped_and_empty() {
    let ctx = SimulationContext::new();
    assert_eq!(ctx.run, RunState::Stopped);
    assert!(ctx.particles.is_empty());
}

#[test]
fn init_stores_a_fresh_system_and_returns_its_snapshot() {
    let mut ctx = SimulationContext::new();
    let snapshot = init_simulation(&mut ctx);
    assert_eq!(ctx.run, RunState::Stopped);
    assert_eq!(ctx.particles.len(), 100);
    assert_eq!(snapshot.timestamp, 0);
    assert_eq!(snapshot.particles.len(), 100);
    for k in 0..100 {
        assert!(ctx.particles[k].is_valid());
        assert_eq!(ctx.particles[k].vel, Vec2::new(0, 0));
        assert_eq!(snapshot.particles[k].pos, ctx.particles[k].pos);
        assert_eq!(snapshot.particles[k].vel, ctx.particles[k].vel);
        assert_eq!(snapshot.particles[k].radius, ctx.particles[k].radius);
        assert_eq!(snapshot.particles[k].mass, ctx.particles[k].mass);
        assert_eq!(snapshot.particles[k].color, ctx.particles[k].color);
    }
}

#[test]
fn init_keeps_the_run_state() {
    let mut ctx = SimulationContext { run: RunState::Running, particles: vec![marble(0, 0)] };
    let _ = init_simulation(&mut ctx);
    assert_eq!(ctx.run, RunState::Running);
    assert_eq!(ctx.particles.len(), 100);
}

#[test]
fn start_hands_the_worker_a_copy_of_the_particles() {
    let mut ctx = SimulationContext {
        run: RunState::Stopped,
        particles: vec![marble(1, 2), marble(3, 4)],
    };
    let worker = start_simulation(&mut ctx).unwrap();
    assert_eq!(ctx.run, RunState::Running);
    assert_eq!(worker.len(), 2);
    assert_eq!(worker[0].pos, Vec2::new(1, 2));
    assert_eq!(worker[1].pos, Vec2::new(3, 4));
    assert_eq!(worker[1].color, "#C8C8FF");
    assert_eq!(ctx.particles.len(), 2);
    assert_eq!(ctx.particles[0].pos, Vec2::new(1, 2));
}

#[test]
fn start_while_running_changes_nothing() {
    let mut ctx = SimulationContext { run: RunState::Running, particles: vec![marble(1, 2)] };
    assert!(start_simulation(&mut ctx).is_none());
    assert_eq!(ctx.run, RunState::Running);
    let mut ctx = SimulationContext { run: RunState::StopRequested, particles: vec![marble(1, 2)] };
    assert!(start_simulation(&mut ctx).is_none());
    assert_eq!(ctx.run, RunState::StopRequested);
    assert_eq!(ctx.particles.len(), 1);
}

#[test]
fn stop_then_boundary_ends_the_run() {
    let mut ctx = SimulationContext { run: RunState::Stopped, particles: vec![marble(1, 2)] };
    assert!(start_simulation(&mut ctx).is_some());
    assert!(tick_boundary(&mut ctx));
    assert!(tick_boundary(&mut ctx));
    stop_simulation(&mut ctx);
    assert_eq!(ctx.run, RunState::StopRequested);
    stop_simulation(&mut ctx);
    assert_eq!(ctx.run, RunState::StopRequested);
    assert!(start_simulation(&mut ctx).is_none());
    assert!(!tick_boundary(&mut ctx));
    assert_eq!(ctx.run, RunState::Stopped);
    assert!(start_simulation(&mut ctx).is_some());
    assert_eq!(ctx.run, RunState::Running);
}

#[test]
fn stop_without_a_run_changes_nothing() {
    let mut ctx = SimulationContext::new();
    stop_simulation(&mut ctx);
    assert_eq!(ctx.run, RunState::Stopped);
    assert!(!tick_boundary(&mut ctx));
    assert_eq!(ctx.run, RunState::Stopped);
}

#[test]
fn a_failed_publish_stops_the_context() {
    let mut ctx = SimulationContext { run: RunState::Running, particles: vec![marble(1, 2)] };
    publish_failed(&mut ctx);
    assert_eq!(ctx.run, RunState::Stopped);
    assert_eq!(ctx.particles.len(), 1);
    assert!(!tick_boundary(&mut ctx));
}

#[test]
fn a_worker_tick_advances_and_stamps() {
    let mut particles = vec![marble(250 * ONE, 100 * ONE)];
    let first = worker_tick(&mut particles, 0);
    assert_eq!(first.timestamp, 16_000);
    assert_eq!(particles[0].vel, Vec2::new(0, 800_000));
    assert_eq!(particles[0].pos, Vec2::new(250 * ONE, 100_800_000));
    assert_eq!(first.particles.len(), 1);
    assert_eq!(first.particles[0].pos, particles[0].pos);
    assert_eq!(first.particles[0].vel, particles[0].vel);
    let second = worker_tick(&mut particles, first.timestamp);
    assert_eq!(second.timestamp, 32_000);
    assert_eq!(particles[0].vel, Vec2::new(0, 1_600_000));
    assert_eq!(particles[0].pos, Vec2::new(250 * ONE, 102_400_000));
    assert_eq!(second.particles[0].pos, particles[0].pos);
    assert_eq!(first.particles[0].pos, Vec2::new(250 * ONE, 100_800_000));
}

#[test]
fn a_worker_tick_freezes_particles_the_kernel_does_not_accept() {
    let mut bad = marble(250 * ONE, 100 * ONE);
    bad.mass = 0;
    let mut particles = vec![marble(1, 2), bad];
    let snapshot = worker_tick(&mut particles, 48_000);
    assert_eq!(snapshot.timestamp, 64_000);
    assert_eq!(particles[0].pos, Vec2::new(1, 2));
    assert_eq!(particles[0].vel, Vec2::new(0, 0));
    assert_eq!(particles[1].pos, Vec2::new(250 * ONE, 100 * ONE));
    assert_eq!(particles[1].mass, 0);
    assert_eq!(snapshot.particles[1].mass, 0);
}

#[test]
fn the_elapsed_time_saturates() {
    let mut particles: Vec<Particle> = Vec::new();
    assert_eq!(worker_tick(&mut particles, LIMIT).timestamp, LIMIT);
    assert_eq!(worker_tick(&mut particles, i64::MAX).timestamp, LIMIT);
    assert_eq!(worker_tick(&mut particles, LIMIT - 16_000).timestamp, LIMIT);
    assert_eq!(worker_tick(&mut particles, LIMIT - 16_001).timestamp, LIMIT - 1);
    assert_eq!(worker_tick(&mut particles, -LIMIT - 5).timestamp, -LIMIT + 15_995);
    assert_eq!(worker_tick(&mut particles, i64::MIN).timestamp, -LIMIT);
}
