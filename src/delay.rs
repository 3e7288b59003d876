use vstd::prelude::*;

use crate::output::Output;
use crate::reactor::Reactor;
use crate::runner::{fresh, Action, ActionSeed, IntoRunner, Runner};
use crate::token::{CancellationToken, CancellationTree};

verus! {

/// Delays by a number of ticks.
pub struct Frames;

/// Waits for a number of ticks: the tick on which it is run for the
/// `frames`-th time (the first, for zero frames) it finishes.
pub struct FramesRunner {
    pub frames: usize,
    pub now: usize,
    pub finished: bool,
    pub output: Output<()>,
}

/// The seed of a delay counted in ticks.
pub fn frames() -> (r: Frames) {
    Frames
}

impl Frames {
    pub fn with(self, frames: usize) -> (r: Action<Frames, usize>)
        ensures
            r.input == frames,
    {
        Action::new(self, frames)
    }
}

impl FramesRunner {
    /// The number of frames asked for.
    pub open spec fn target(&self) -> nat {
        self.frames as nat
    }

    /// The ticks counted so far.
    pub open spec fn ticks(&self) -> nat {
        self.now as nat
    }

    /// The runner is finished after `ticks` uncancelled runs exactly when
    /// `frames <= ticks` (and at least one run happened).
    pub open spec fn finishes_after(frames: usize, ticks: nat) -> bool {
        ticks >= 1 && frames as nat <= ticks
    }
}

impl<W> Runner<W> for FramesRunner {
    type Out = ();

    open spec fn inv(&self) -> bool {
        self.finished == Self::finishes_after(self.frames, self.now as nat)
    }

    open spec fn is_finished(&self) -> bool {
        self.finished
    }

    open spec fn output(&self) -> Option<()> {
        self.output@
    }

    open spec fn step(&self, world: W, next: Self, next_world: W, finished: bool) -> bool {
        &&& next.frames == self.frames
        &&& next.now == self.now + 1
        &&& finished == Self::finishes_after(self.frames, next.now as nat)
        &&& next_world == world
    }

    fn run(&mut self, world: &mut W, tokens: &CancellationTree, token: CancellationToken) -> (r:
        bool) {
        if tokens.is_cancelled(token) {
            return false;
        }
        self.now = self.now + 1;
        if self.frames <= self.now {
            self.finished = true;
            self.output.set(());
        }
        self.finished
    }

    fn take_output(&mut self) -> (r: Option<()>) {
        self.output.take()
    }
}

impl<W> ActionSeed<W> for Frames {
    type Input = usize;

    type Run = FramesRunner;

    open spec fn accepts(&self, input: usize) -> bool {
        true
    }

    open spec fn builds(&self, input: usize, r: FramesRunner) -> bool {
        r.frames == input && r.now == 0
    }

    fn create_runner(&self, input: usize) -> (r: FramesRunner) {
        FramesRunner { frames: input, now: 0, finished: false, output: Output::new() }
    }
}

/// A runner for `n` frames starts with no tick counted.
pub proof fn lemma_frames_start<W>(n: usize, r: FramesRunner)
    requires
        <Frames as ActionSeed<W>>::builds(&Frames, n, r),
    ensures
        r.target() == n,
        r.ticks() == 0,
{
}

/// Each uncancelled tick counts one more frame, and the tick that counts
/// the `k`-th frame finishes exactly when `k` reaches the number of frames
/// asked for (the first tick, for zero): a delay of `n` ticks reports "not
/// finished" on ticks `1..n-1` and finishes on tick `n`.
pub proof fn lemma_frames_finish_on_tick<W>(
    r: FramesRunner,
    world: W,
    next: FramesRunner,
    next_world: W,
    finished: bool,
)
    requires
        <FramesRunner as Runner<W>>::step(&r, world, next, next_world, finished),
    ensures
        next.target() == r.target(),
        next.ticks() == r.ticks() + 1,
        finished == (r.target() <= next.ticks()),
        next_world == world,
{
}

/// Ticks that a workflow's delay has counted before a drive: those of the
/// awaited runner, or none when the delay has not started.
pub open spec fn counted<W>(r: Reactor<W, Action<Frames, usize>, FramesRunner, ()>) -> nat {
    match r.awaited() {
        Some(c) => c.ticks(),
        None => 0,
    }
}

/// The frames that a workflow's delay waits for.
pub open spec fn asked<W>(r: Reactor<W, Action<Frames, usize>, FramesRunner, ()>) -> nat {
    match r.awaited() {
        Some(c) => c.target(),
        None => r.pending()[0].input as nat,
    }
}

/// A workflow whose last await is a delay of `n` frames is not done after
/// the drives that count frames `1..n-1` and is done after the drive that
/// counts frame `n` (the first, for zero).
pub proof fn lemma_delay_workflow<W>(
    old: Reactor<W, Action<Frames, usize>, FramesRunner, ()>,
    world: W,
    new: Reactor<W, Action<Frames, usize>, FramesRunner, ()>,
    new_world: W,
)
    requires
        Reactor::drives(old, world, new, new_world),
        !old.done(),
        !old.cancelled(),
        old.awaited() is Some || old.pending().len() > 0,
        old.rest().len() == 0,
    ensures
        new.done() == (asked(old) <= counted(old) + 1),
        !new.done() ==> counted(new) == counted(old) + 1 && asked(new) == asked(old),
{
    let (c0, c1, w1, f) = choose|c0: FramesRunner, c1: FramesRunner, w1: W, f: bool|
        {
            &&& #[trigger] old.starts(c0)
            &&& #[trigger] <FramesRunner as Runner<W>>::step(&c0, world, c1, w1, f)
            &&& !f ==> {
                &&& !new.done()
                &&& !new.cancelled()
                &&& new.awaited() == Some(c1)
                &&& new.pending() == old.rest()
                &&& new.results() == old.results()
                &&& new_world == w1
            }
            &&& f ==> {
                &&& <FramesRunner as Runner<W>>::output(&c1) is Some
                &&& exists|mid: Reactor<W, Action<Frames, usize>, FramesRunner, ()>|
                    #[trigger] Reactor::moved_on(
                        old,
                        <FramesRunner as Runner<W>>::output(&c1).unwrap(),
                        mid,
                    ) && Reactor::drives(mid, w1, new, new_world)
            }
        };
    if f {
        let mid = choose|mid: Reactor<W, Action<Frames, usize>, FramesRunner, ()>|
            #[trigger] Reactor::moved_on(
                old,
                <FramesRunner as Runner<W>>::output(&c1).unwrap(),
                mid,
            ) && Reactor::drives(mid, w1, new, new_world);
        assert(mid.pending().len() == 0);
    }
    lemma_frames_finish_on_tick::<W>(c0, world, c1, w1, f);
    if old.awaited() is None {
        let a = old.pending()[0];
        assert(<Action<Frames, usize> as IntoRunner<W>>::builds(&a, c0));
        lemma_frames_start::<W>(a.input, c0);
    }
}

} // verus!
