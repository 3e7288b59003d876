use vstd::prelude::*;

use crate::token::{CancellationToken, CancellationTree};

verus! {

/// A unit of work in flight, stepped once per host tick against the context
/// `W`.
///
/// Its owner calls `run` only while the runner has not finished, and checks
/// the token first: a cancelled runner reports "not finished" and leaves the
/// context and itself untouched.
pub trait Runner<W>: Sized {
    type Out;

    /// The runner's internal invariant.
    spec fn inv(&self) -> bool;

    /// The runner has reported completion.
    spec fn is_finished(&self) -> bool;

    /// What its output slot holds.
    spec fn output(&self) -> Option<Self::Out>;

    /// One uncancelled tick takes the runner from `self` to `next` and the
    /// context from `world` to `next_world`, reporting `finished`.
    spec fn step(&self, world: W, next: Self, next_world: W, finished: bool) -> bool;

    /// Advances the work by one tick; returns whether it has finished.
    fn run(&mut self, world: &mut W, tokens: &CancellationTree, token: CancellationToken) -> (r:
        bool)
        requires
            old(self).inv(),
            !old(self).is_finished(),
            tokens.wf(),
            tokens.contains(token),
        ensures
            final(self).inv(),
            final(self).is_finished() == r,
            r ==> final(self).output() is Some,
            !tokens.cancelled(token) ==> old(self).step(*old(world), *final(self), *final(world), r),
            tokens.cancelled(token) ==> !r && *final(world) == *old(world) && *final(self)
                == *old(self),
    ;

    /// Consumes the output slot.
    fn take_output(&mut self) -> (r: Option<Self::Out>)
        requires
            old(self).inv(),
        ensures
            final(self).inv(),
            r == old(self).output(),
            final(self).output() is None,
            final(self).is_finished() == old(self).is_finished(),
    ;
}

/// A runner that has not started: not finished, nothing in its slot.
pub open spec fn fresh<W, R: Runner<W>>(r: R) -> bool {
    &&& r.inv()
    &&& !r.is_finished()
    &&& r.output() is None
}

/// A reusable blueprint: each input it accepts gives an independent runner.
pub trait ActionSeed<W> {
    type Input;

    type Run: Runner<W>;

    /// The inputs the seed can build a runner for.
    spec fn accepts(&self, input: Self::Input) -> bool;

    /// `r` is a runner this seed builds for `input`.
    spec fn builds(&self, input: Self::Input, r: Self::Run) -> bool;

    /// Builds the runner; no work on the context is done here.
    fn create_runner(&self, input: Self::Input) -> (r: Self::Run)
        requires
            self.accepts(input),
        ensures
            self.builds(input, r),
            fresh::<W, Self::Run>(r),
    ;
}

/// A unit of work ready to become a runner without further parameters.
pub trait IntoRunner<W>: Sized {
    type Run: Runner<W>;

    /// The action can be turned into a runner.
    spec fn ready(&self) -> bool;

    /// `r` is a runner this action becomes.
    spec fn builds(&self, r: Self::Run) -> bool;

    fn into_runner(self) -> (r: Self::Run)
        requires
            self.ready(),
        ensures
            self.builds(r),
            fresh::<W, Self::Run>(r),
    ;
}

/// A seed bound to its input.
pub struct Action<S, I> {
    pub seed: S,
    pub input: I,
}

impl<S, I> Action<S, I> {
    pub fn new(seed: S, input: I) -> (r: Self)
        ensures
            r.seed == seed,
            r.input == input,
    {
        Action { seed, input }
    }
}

impl<W, I, S: ActionSeed<W, Input = I>> IntoRunner<W> for Action<S, I> {
    type Run = S::Run;

    open spec fn ready(&self) -> bool {
        self.seed.accepts(self.input)
    }

    open spec fn builds(&self, r: S::Run) -> bool {
        self.seed.builds(self.input, r)
    }

    fn into_runner(self) -> (r: S::Run) {
        self.seed.create_runner(self.input)
    }
}

} // verus!
