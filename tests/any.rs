use flurx::delay::{frames, Frames, FramesRunner};
use flurx::either::Either;
use flurx::host::{FlurxPlugin, Reactors};
use flurx::once::event::{app_exit, AppExit, SendEvent, SendRunner};
use flurx::once::{self, Instant};
use flurx::reactor::Reactor;
use flurx::runner::{Action, IntoRunner, Runner};
use flurx::token::CancellationTree;
use flurx::wait;
use flurx::wait::any::{Any, AnyRunner};
use flurx::wait::until::{until, Condition, Constant, Until};

/// A condition that always gives the same answer.
struct Always(bool);

impl<W> Condition<W> for Always {
    fn holds(&mut self, _world: &W) -> bool {
        self.0
    }
}

type Host<A, R> = Reactors<
    Vec<AppExit>,
    Either<Action<Any<A>, Vec<A>>, SendEvent<AppExit>>,
    Either<AnyRunner<R>, SendRunner<AppExit>>,
    Either<usize, ()>,
>;

fn host_with<A, R>(candidates: Vec<A>) -> Host<A, R>
where
    A: IntoRunner<Vec<AppExit>, Run = R>,
    R: Runner<Vec<AppExit>>,
{
    let mut host: Host<A, R> = FlurxPlugin.build();
    host.spawn(Reactor::schedule(vec![
        Either::Left(wait::any().with(candidates)),
        Either::Right(app_exit()),
    ]));
    host
}

fn update<A, R>(host: &mut Host<A, R>, world: &mut Vec<AppExit>, first: bool)
where
    A: IntoRunner<Vec<AppExit>, Run = R>,
    R: Runner<Vec<AppExit>>,
{
    if first {
        host.initialize_reactors(world);
    }
    host.run_reactors(world);
}

#[test]
fn return_1() {
    let mut world: Vec<AppExit> = Vec::new();
    let candidates: Vec<Either<Until<Constant>, Action<Instant, ()>>> = vec![
        Either::Left(until(Constant(false))),
        Either::Right(once::run().with(())),
    ];
    let mut host = host_with(candidates);
    update(&mut host, &mut world, true);
    update(&mut host, &mut world, false);
    assert!(matches!(host.get(0).outputs()[0], Either::Left(1)));
    assert_eq!(world, vec![AppExit]);
}

#[test]
fn return_0() {
    let mut world: Vec<AppExit> = Vec::new();
    let candidates: Vec<Either<Action<Frames, usize>, Until<Constant>>> = vec![
        Either::Left(frames().with(1)),
        Either::Left(frames().with(3)),
        Either::Right(until(Constant(false))),
    ];
    let mut host = host_with(candidates);
    update(&mut host, &mut world, true);
    assert!(matches!(host.get(0).outputs()[0], Either::Left(0)));
    update(&mut host, &mut world, false);
    update(&mut host, &mut world, false);
    assert_eq!(world, vec![AppExit]);
    assert!(host.get(0).is_completed());
}

fn race(ticks: Vec<usize>) -> AnyRunner<FramesRunner> {
    let actions: Vec<Action<Frames, usize>> = ticks.into_iter().map(|n| frames().with(n)).collect();
    IntoRunner::<()>::into_runner(wait::any().with(actions))
}

#[test]
fn race_reports_earliest_finisher() {
    let mut tokens = CancellationTree::new();
    let token = tokens.root();
    let mut world = ();
    let mut r = race(vec![2, 1, 3]);
    assert!(r.run(&mut world, &tokens, token));
    assert_eq!(Runner::<()>::take_output(&mut r), Some(1));
    assert_eq!(Runner::<()>::take_output(&mut r), None);
}

#[test]
fn race_ties_go_to_lowest_index() {
    let mut tokens = CancellationTree::new();
    let token = tokens.root();
    let mut world = ();
    let mut r = race(vec![4, 2, 2]);
    assert!(!r.run(&mut world, &tokens, token));
    assert!(r.run(&mut world, &tokens, token));
    assert_eq!(Runner::<()>::take_output(&mut r), Some(1));
}

#[test]
fn race_waits_until_one_finishes() {
    let mut tokens = CancellationTree::new();
    let token = tokens.root();
    let mut world = ();
    let mut r = race(vec![3, 5]);
    assert!(!r.run(&mut world, &tokens, token));
    assert!(!r.run(&mut world, &tokens, token));
    assert!(r.run(&mut world, &tokens, token));
    assert_eq!(Runner::<()>::take_output(&mut r), Some(0));
}

#[test]
fn cancelled_race_never_finishes() {
    let mut tokens = CancellationTree::new();
    let token = tokens.root();
    tokens.cancel(token);
    let mut world = ();
    let mut r = race(vec![0, 1]);
    assert!(!r.run(&mut world, &tokens, token));
    assert!(!r.run(&mut world, &tokens, token));
    assert_eq!(Runner::<()>::take_output(&mut r), None);
}

/// Holds from its `n`-th check on.
struct AfterChecks(usize);

impl<W> Condition<W> for AfterChecks {
    fn holds(&mut self, _world: &W) -> bool {
        self.0 = self.0.saturating_sub(1);
        self.0 == 0
    }
}

#[test]
fn until_finishes_on_first_tick_condition_holds() {
    let mut tokens = CancellationTree::new();
    let token = tokens.root();
    let mut world = ();
    let mut r = IntoRunner::<()>::into_runner(until(AfterChecks(3)));
    assert!(!r.run(&mut world, &tokens, token));
    assert!(!r.run(&mut world, &tokens, token));
    assert!(r.run(&mut world, &tokens, token));
    assert_eq!(Runner::<()>::take_output(&mut r), Some(()));
}

#[test]
fn cancelled_until_does_not_check() {
    let mut tokens = CancellationTree::new();
    let token = tokens.root();
    tokens.cancel(token);
    let mut world = ();
    let mut r = IntoRunner::<()>::into_runner(until(Always(true)));
    assert!(!r.run(&mut world, &tokens, token));
    assert_eq!(Runner::<()>::take_output(&mut r), None);
}

#[test]
fn constant_false_never_wins_a_race() {
    let mut tokens = CancellationTree::new();
    let token = tokens.root();
    let mut world = ();
    let candidates: Vec<Either<Until<Constant>, Action<Frames, usize>>> =
        vec![Either::Left(until(Constant(false))), Either::Right(frames().with(2))];
    let mut r = IntoRunner::<()>::into_runner(wait::any().with(candidates));
    assert!(!r.run(&mut world, &tokens, token));
    assert!(r.run(&mut world, &tokens, token));
    assert_eq!(Runner::<()>::take_output(&mut r), Some(1));
}
