use vstd::prelude::*;

use crate::output::Output;
use crate::runner::{IntoRunner, Runner};
use crate::token::{CancellationToken, CancellationTree};

verus! {

/// A check on the context, made once per tick; its users decide what it
/// looks at, and it may keep state between checks.
pub trait Condition<W>: Sized {
    /// A check of `self` against `world` may leave the condition as `next`
    /// and answer `answer`. A condition that states nothing here admits every
    /// outcome.
    open spec fn checks(&self, world: W, next: Self, answer: bool) -> bool {
        true
    }

    fn holds(&mut self, world: &W) -> (r: bool)
        ensures
            old(self).checks(*world, *final(self), r),
    ;
}

/// A condition whose answer never changes.
#[derive(Clone, Copy, PartialEq, Eq, Structural, Debug)]
pub struct Constant(pub bool);

impl<W> Condition<W> for Constant {
    open spec fn checks(&self, world: W, next: Self, answer: bool) -> bool {
        next == *self && answer == self.0
    }

    fn holds(&mut self, world: &W) -> (r: bool) {
        self.0
    }
}

/// Waits until a condition holds.
pub struct Until<C> {
    pub condition: C,
}

/// Checks its condition once per uncancelled tick and finishes on the first
/// tick on which it holds; it never changes the context.
pub struct UntilRunner<C> {
    pub condition: C,
    pub finished: bool,
    pub output: Output<()>,
}

/// Work that waits until `condition` holds.
pub fn until<C>(condition: C) -> (r: Until<C>)
    ensures
        r.condition == condition,
{
    Until { condition }
}

impl<W, C: Condition<W>> Runner<W> for UntilRunner<C> {
    type Out = ();

    open spec fn inv(&self) -> bool {
        true
    }

    open spec fn is_finished(&self) -> bool {
        self.finished
    }

    open spec fn output(&self) -> Option<()> {
        self.output@
    }

    /// The condition is checked once against the context, which stays as
    /// it was; the runner finishes exactly when the check answers yes, and
    /// then its output is `()`.
    open spec fn step(&self, world: W, next: Self, next_world: W, finished: bool) -> bool {
        &&& self.condition.checks(world, next.condition, finished)
        &&& next_world == world
        &&& next.finished == finished
        &&& finished ==> next.output@ == Some(())
        &&& !finished ==> next.output@ == self.output@
    }

    fn run(&mut self, world: &mut W, tokens: &CancellationTree, token: CancellationToken) -> (r:
        bool) {
        if tokens.is_cancelled(token) {
            return false;
        }
        let answer = self.condition.holds(&*world);
        if answer {
            self.finished = true;
            self.output.set(());
        }
        answer
    }

    fn take_output(&mut self) -> (r: Option<()>) {
        self.output.take()
    }
}

impl<W, C: Condition<W>> IntoRunner<W> for Until<C> {
    type Run = UntilRunner<C>;

    open spec fn ready(&self) -> bool {
        true
    }

    open spec fn builds(&self, r: UntilRunner<C>) -> bool {
        r.condition == self.condition
    }

    fn into_runner(self) -> (r: UntilRunner<C>) {
        UntilRunner { condition: self.condition, finished: false, output: Output::new() }
    }
}

/// Waiting never changes the context, whatever the condition answers.
pub proof fn lemma_until_step<W, C: Condition<W>>(
    r: UntilRunner<C>,
    world: W,
    next: UntilRunner<C>,
    next_world: W,
    finished: bool,
)
    requires
        <UntilRunner<C> as Runner<W>>::step(&r, world, next, next_world, finished),
    ensures
        next_world == world,
        r.condition.checks(world, next.condition, finished),
        finished ==> <UntilRunner<C> as Runner<W>>::output(&next) == Some(()),
{
}

/// Waiting on a condition that is never true never finishes, and the
/// condition stays as it was.
pub proof fn lemma_until_never<W>(
    r: UntilRunner<Constant>,
    world: W,
    next: UntilRunner<Constant>,
    next_world: W,
    finished: bool,
)
    requires
        r.condition == Constant(false),
        <UntilRunner<Constant> as Runner<W>>::step(&r, world, next, next_world, finished),
    ensures
        !finished,
        next.condition == Constant(false),
{
}

} // verus!
