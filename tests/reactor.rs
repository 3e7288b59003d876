use flurx::delay::{frames, Frames};
use flurx::either::Either;
use flurx::host::{FlurxPlugin, Reactors, ScheduleReactor};
use flurx::once::event::{app_exit, AppExit, SendEvent};
use flurx::once::{self, Instant};
use flurx::reactor::Reactor;
use flurx::runner::Action;

#[test]
fn delay_2frames() {
    let mut world: Vec<AppExit> = Vec::new();
    let steps: Vec<Either<Action<Frames, usize>, SendEvent<AppExit>>> =
        vec![Either::Left(frames().with(2)), Either::Right(app_exit())];
    let mut reactor = Reactor::schedule(steps);
    assert!(!reactor.drive(&mut world));
    assert!(world.is_empty());
    assert!(reactor.drive(&mut world));
    assert_eq!(world, vec![AppExit]);
    assert!(reactor.drive(&mut world));
    assert_eq!(world, vec![AppExit]);
}

#[test]
fn frames_wait_exactly_n_drives() {
    let mut world = ();
    let mut reactor = Reactor::schedule(vec![frames().with(4)]);
    assert!(!reactor.drive(&mut world));
    assert!(!reactor.drive(&mut world));
    assert!(!reactor.drive(&mut world));
    assert!(reactor.drive(&mut world));
    assert_eq!(reactor.outputs().len(), 1);
}

#[test]
fn zero_frames_finish_on_first_drive() {
    let mut world = ();
    let mut reactor = Reactor::schedule(vec![frames().with(0)]);
    assert!(reactor.drive(&mut world));
}

#[test]
fn single_immediate_action_completes_in_one_drive() {
    let mut world = ();
    let steps: Vec<Action<Instant, ()>> = vec![once::run().with(())];
    let mut reactor = Reactor::schedule(steps);
    assert!(!reactor.is_completed());
    assert!(reactor.drive(&mut world));
    assert!(reactor.is_completed());
    assert_eq!(reactor.outputs().len(), 1);
}

#[test]
fn immediate_actions_chain_within_one_drive() {
    let mut world: Vec<AppExit> = Vec::new();
    let mut reactor = Reactor::schedule(vec![app_exit(), app_exit(), app_exit()]);
    assert!(reactor.drive(&mut world));
    assert_eq!(world.len(), 3);
    assert_eq!(reactor.outputs().len(), 3);
}

#[test]
fn empty_workflow_completes_at_once() {
    let mut world = ();
    let steps: Vec<Action<Frames, usize>> = Vec::new();
    let mut reactor = Reactor::schedule(steps);
    assert!(reactor.drive(&mut world));
    assert!(reactor.outputs().is_empty());
}

#[test]
fn cancelled_reactor_never_touches_the_context() {
    let mut world: Vec<AppExit> = Vec::new();
    let mut reactor = Reactor::schedule(vec![app_exit()]);
    reactor.cancel();
    assert!(!reactor.drive(&mut world));
    assert!(!reactor.drive(&mut world));
    assert!(world.is_empty());
    assert!(!reactor.is_completed());
}

#[test]
fn cancel_mid_workflow_stops_it() {
    let mut world = ();
    let mut reactor = Reactor::schedule(vec![frames().with(3)]);
    assert!(!reactor.drive(&mut world));
    reactor.cancel();
    assert!(!reactor.drive(&mut world));
    assert!(!reactor.drive(&mut world));
    assert!(!reactor.drive(&mut world));
    assert!(!reactor.is_completed());
}

type Host = Reactors<(), Action<Frames, usize>, flurx::delay::FramesRunner, ()>;

#[test]
fn new_reactor_is_driven_twice_on_first_steady_pass() {
    let mut world = ();
    let mut host: Host = FlurxPlugin.build();
    host.spawn(Reactor::schedule(vec![frames().with(2)]));
    host.run_reactors(&mut world);
    assert!(host.get(0).is_completed());
}

#[test]
fn registration_pass_then_steady_pass() {
    let mut world = ();
    let mut host: Host = FlurxPlugin.build();
    host.spawn(Reactor::schedule(vec![frames().with(3)]));
    host.initialize_reactors(&mut world);
    assert!(!host.get(0).is_completed());
    host.run_reactors(&mut world);
    assert!(!host.get(0).is_completed());
    host.run_reactors(&mut world);
    assert!(host.get(0).is_completed());
}

#[test]
fn initialized_reactor_is_driven_once_per_pass() {
    let mut world = ();
    let mut host: Host = FlurxPlugin.build();
    let i = host.spawn_initialized_reactor(&mut world, Reactor::schedule(vec![frames().with(3)]));
    assert_eq!(i, 0);
    host.initialize_reactors(&mut world);
    host.run_reactors(&mut world);
    assert!(!host.get(0).is_completed());
    host.run_reactors(&mut world);
    assert!(host.get(0).is_completed());
}

type EventHost<A, R, O> = Reactors<Vec<AppExit>, A, R, O>;

fn first_update<A, R, O>(host: &mut EventHost<A, R, O>, world: &mut Vec<AppExit>)
where
    A: flurx::runner::IntoRunner<Vec<AppExit>, Run = R>,
    R: flurx::runner::Runner<Vec<AppExit>, Out = O>,
{
    host.initialize_reactors(world);
    host.run_reactors(world);
}

#[test]
fn send_event() {
    let mut world: Vec<AppExit> = Vec::new();
    let mut host: EventHost<_, _, _> = FlurxPlugin.build();
    host.spawn(Reactor::schedule(vec![flurx::once::event::send(AppExit)]));
    first_update(&mut host, &mut world);
    assert_eq!(world, vec![AppExit]);
}

#[test]
fn it_s1_to_be_true() {
    let mut world: Vec<AppExit> = Vec::new();
    let mut host: EventHost<_, _, _> = FlurxPlugin.build();
    let steps: Vec<Either<Action<Instant, ()>, SendEvent<AppExit>>> =
        vec![Either::Left(once::run().with(())), Either::Right(app_exit())];
    host.spawn(Reactor::schedule(steps));
    first_update(&mut host, &mut world);
    assert_eq!(world, vec![AppExit]);
    assert!(host.get(0).is_completed());
}

#[test]
fn send_default_event() {
    let mut world: Vec<AppExit> = Vec::new();
    let mut host: EventHost<_, _, _> = FlurxPlugin.build();
    host.spawn(Reactor::schedule(vec![flurx::once::event::send_default::<AppExit>()]));
    first_update(&mut host, &mut world);
    assert_eq!(world, vec![AppExit]);
}
