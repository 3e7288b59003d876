use vstd::prelude::*;

use crate::output::Output;
use crate::remake::Remaker;
use crate::runner::{fresh, Runner};
use crate::token::{CancellationToken, CancellationTree};

verus! {

/// Drops the output of the work it wraps: its own output is `()`.
pub struct Omit;

/// Runs the inner runner and, when it finishes, discards its output.
pub struct OmitRunner<R> {
    pub inner: R,
    pub output: Output<()>,
}

impl<R> OmitRunner<R> {
    /// The wrapped runner.
    pub open spec fn inner(&self) -> R {
        self.inner
    }
}

impl<W, R: Runner<W>> Runner<W> for OmitRunner<R> {
    type Out = ();

    open spec fn inv(&self) -> bool {
        self.inner.inv()
    }

    open spec fn is_finished(&self) -> bool {
        self.inner.is_finished()
    }

    open spec fn output(&self) -> Option<()> {
        self.output@
    }

    /// The inner runner takes the step; on finishing, the output is `()`.
    open spec fn step(&self, world: W, next: Self, next_world: W, finished: bool) -> bool {
        &&& exists|r1: R|
            #[trigger] self.inner.step(world, r1, next_world, finished) && next.inner.is_finished()
                == r1.is_finished() && next.inner.inv()
        &&& finished ==> next.output@ == Some(())
        &&& !finished ==> next.output@ == self.output@
    }

    fn run(&mut self, world: &mut W, tokens: &CancellationTree, token: CancellationToken) -> (r:
        bool) {
        let ghost before = self.inner;
        let finished = self.inner.run(world, tokens, token);
        let ghost after = self.inner;
        if finished {
            let _ = self.inner.take_output();
            self.output.set(());
        }
        proof {
            if !tokens.cancelled(token) {
                assert(before.step(*old(world), after, *world, finished));
            }
        }
        finished
    }

    fn take_output(&mut self) -> (r: Option<()>) {
        self.output.take()
    }
}

impl<W, R: Runner<W>> Remaker<W, R> for Omit {
    type Run = OmitRunner<R>;

    open spec fn wraps(&self, inner: R, r: OmitRunner<R>) -> bool {
        r.inner == inner
    }

    fn wrap(&self, inner: R) -> (r: OmitRunner<R>) {
        OmitRunner { inner, output: Output::new() }
    }
}

} // verus!
