use vstd::prelude::*;

use crate::output::Output;
use crate::runner::{Action, ActionSeed, Runner};
use crate::token::{CancellationToken, CancellationTree};

pub mod event;

verus! {

/// Work that is done on the first tick it is run.
pub struct Instant;

/// Finishes on its first uncancelled tick, leaving the context as it was.
pub struct InstantRunner {
    pub finished: bool,
    pub output: Output<()>,
}

/// The seed of work that finishes at once.
pub fn run() -> (r: Instant) {
    Instant
}

impl Instant {
    pub fn with(self, input: ()) -> (r: Action<Instant, ()>) {
        Action::new(self, input)
    }
}

impl<W> Runner<W> for InstantRunner {
    type Out = ();

    open spec fn inv(&self) -> bool {
        true
    }

    open spec fn is_finished(&self) -> bool {
        self.finished
    }

    open spec fn output(&self) -> Option<()> {
        self.output@
    }

    open spec fn step(&self, world: W, next: Self, next_world: W, finished: bool) -> bool {
        finished && next_world == world
    }

    fn run(&mut self, world: &mut W, tokens: &CancellationTree, token: CancellationToken) -> (r:
        bool) {
        if tokens.is_cancelled(token) {
            return false;
        }
        self.finished = true;
        self.output.set(());
        true
    }

    fn take_output(&mut self) -> (r: Option<()>) {
        self.output.take()
    }
}

impl<W> ActionSeed<W> for Instant {
    type Input = ();

    type Run = InstantRunner;

    open spec fn accepts(&self, input: ()) -> bool {
        true
    }

    open spec fn builds(&self, input: (), r: InstantRunner) -> bool {
        true
    }

    fn create_runner(&self, input: ()) -> (r: InstantRunner) {
        InstantRunner { finished: false, output: Output::new() }
    }
}

/// Work that finishes at once does so on its first uncancelled tick and
/// leaves the context as it was.
pub proof fn lemma_instant_step<W>(
    r: InstantRunner,
    world: W,
    next: InstantRunner,
    next_world: W,
    finished: bool,
)
    requires
        <InstantRunner as Runner<W>>::step(&r, world, next, next_world, finished),
    ensures
        finished,
        next_world == world,
{
}

} // verus!
