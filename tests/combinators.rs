use flurx::delay::{frames, FramesRunner};
use flurx::omit::Omit;
use flurx::once::event::{app_exit, AppExit};
use flurx::pipe::pipe;
use flurx::runner::{IntoRunner, Runner};
use flurx::switch::switch;
use flurx::then::then;
use flurx::token::CancellationTree;
use flurx::wait;

fn frames_runner(n: usize) -> FramesRunner {
    IntoRunner::<()>::into_runner(frames().with(n))
}

#[test]
fn pipe_binds_second_stage_to_first_output() {
    let mut tokens = CancellationTree::new();
    let token = tokens.root();
    let mut world = ();
    let race = IntoRunner::<()>::into_runner(wait::any().with(vec![
        frames().with(usize::MAX),
        frames().with(usize::MAX),
        frames().with(usize::MAX),
        frames().with(1),
    ]));
    // the race ends on the first tick with index 3, so the second stage
    // waits for 3 frames, counting that tick
    let mut p = pipe::<(), _, _>(race, frames());
    assert!(!p.run(&mut world, &tokens, token));
    assert!(!p.run(&mut world, &tokens, token));
    assert!(p.run(&mut world, &tokens, token));
    assert_eq!(Runner::<()>::take_output(&mut p), Some(()));
}

#[test]
fn pipe_output_is_second_stage_output() {
    let mut tokens = CancellationTree::new();
    let token = tokens.root();
    let mut world = ();
    let mut q = pipe::<(), _, _>(frames_runner(2), flurx::once::run());
    assert!(!q.run(&mut world, &tokens, token));
    assert_eq!(Runner::<()>::take_output(&mut q), None);
    assert!(q.run(&mut world, &tokens, token));
    assert_eq!(Runner::<()>::take_output(&mut q), Some(()));
}

#[test]
fn switch_follows_selection_made_between_ticks() {
    let mut tokens = CancellationTree::new();
    let token = tokens.root();
    let mut world = ();
    let mut s = switch::<(), _, _>(frames_runner(5), frames_runner(2));
    assert!(!s.run(&mut world, &tokens, token));
    s.select(true);
    assert!(!s.run(&mut world, &tokens, token));
    assert!(s.run(&mut world, &tokens, token));
    assert_eq!(Runner::<()>::take_output(&mut s), Some(()));
}

#[test]
fn switch_keeps_progress_of_unselected_branch() {
    let mut tokens = CancellationTree::new();
    let token = tokens.root();
    let mut world = ();
    let mut s = switch::<(), _, _>(frames_runner(3), frames_runner(10));
    assert!(!s.run(&mut world, &tokens, token));
    assert!(!s.run(&mut world, &tokens, token));
    s.select(true);
    assert!(!s.run(&mut world, &tokens, token));
    s.select(false);
    assert!(s.run(&mut world, &tokens, token));
}

#[test]
fn then_runs_second_on_the_tick_first_finishes() {
    let mut tokens = CancellationTree::new();
    let token = tokens.root();
    let mut world: Vec<AppExit> = Vec::new();
    let mut t = then(IntoRunner::<Vec<AppExit>>::into_runner(frames().with(2)), app_exit());
    assert!(!t.run(&mut world, &tokens, token));
    assert!(world.is_empty());
    assert!(t.run(&mut world, &tokens, token));
    assert_eq!(world, vec![AppExit]);
}

#[test]
fn cancelled_runner_reports_not_finished_and_leaves_context() {
    let mut tokens = CancellationTree::new();
    let root = tokens.root();
    let child = tokens.child(root);
    tokens.cancel(root);
    let mut world: Vec<AppExit> = Vec::new();
    let mut t = then(IntoRunner::<Vec<AppExit>>::into_runner(frames().with(0)), app_exit());
    assert!(!t.run(&mut world, &tokens, child));
    assert!(!t.run(&mut world, &tokens, child));
    assert!(world.is_empty());
    assert_eq!(Runner::<Vec<AppExit>>::take_output(&mut t), None);
}

#[test]
fn remade_race_drops_its_index() {
    let mut tokens = CancellationTree::new();
    let token = tokens.root();
    let mut world = ();
    let action = wait::any().with(vec![frames().with(2), frames().with(1)]).remake(Omit);
    let mut r = IntoRunner::<()>::into_runner(action);
    assert!(r.run(&mut world, &tokens, token));
    assert_eq!(Runner::<()>::take_output(&mut r), Some(()));
}
