use vstd::prelude::*;

use crate::runner::{fresh, ActionSeed, Runner};
use crate::token::{CancellationToken, CancellationTree};

verus! {

/// Runs `first` to completion, then a runner that `seed` builds from its
/// output, on the same tick, and from then on only that one.
pub struct PipeRunner<A, S, B> {
    pub first: Option<A>,
    pub seed: S,
    pub second: Option<B>,
}

/// Pipes the output of `first` into the seed of the next stage.
pub fn pipe<W, A: Runner<W>, S: ActionSeed<W, Input = A::Out>>(first: A, seed: S) -> (r: PipeRunner<A, S, S::Run>)
    requires
        fresh::<W, A>(first),
        forall|y: A::Out| #[trigger] seed.accepts(y),
    ensures
        fresh::<W, PipeRunner<A, S, S::Run>>(r),
        r.first_stage() == Some(first),
        r.seed() == seed,
{
    PipeRunner { first: Some(first), seed, second: None }
}

impl<A, S, B> PipeRunner<A, S, B> {
    /// The first stage, while it runs.
    pub open spec fn first_stage(&self) -> Option<A> {
        self.first
    }

    /// The second stage, once it was built.
    pub open spec fn second_stage(&self) -> Option<B> {
        self.second
    }

    pub open spec fn seed(&self) -> S {
        self.seed
    }
}

impl<W, A: Runner<W>, S: ActionSeed<W, Input = A::Out, Run = B>, B: Runner<W>> Runner<W> for PipeRunner<A, S, B> {
    type Out = B::Out;

    open spec fn inv(&self) -> bool {
        &&& forall|y: A::Out| #[trigger] self.seed.accepts(y)
        &&& self.first is Some <==> self.second is None
        &&& self.first matches Some(a) ==> a.inv() && !a.is_finished()
        &&& self.second matches Some(b) ==> b.inv()
    }

    open spec fn is_finished(&self) -> bool {
        self.second matches Some(b) && b.is_finished()
    }

    /// The output of the second stage; nothing before it exists.
    open spec fn output(&self) -> Option<B::Out> {
        match self.second {
            Some(b) => b.output(),
            None => None,
        }
    }

    open spec fn step(&self, world: W, next: Self, next_world: W, finished: bool) -> bool {
        &&& next.seed == self.seed
        &&& match self.first {
            Some(a) => exists|a1: A, w1: W, fa: bool|
                {
                    &&& #[trigger] a.step(world, a1, w1, fa)
                    &&& !fa ==> next.first == Some(a1) && next_world == w1 && !finished
                    &&& fa ==> second_tick::<W, A, S, B>(self.seed, a1.output(), w1, next, next_world, finished)
                },
            None => next.second matches Some(b1) && self.second.unwrap().step(
                world,
                b1,
                next_world,
                finished,
            ) && next.first is None,
        }
    }

    fn run(&mut self, world: &mut W, tokens: &CancellationTree, token: CancellationToken) -> (r:
        bool) {
        if tokens.is_cancelled(token) {
            return false;
        }
        let ghost w0 = *world;
        let ghost old_self = *self;
        if self.first.is_some() {
            let mut a = self.first.take().unwrap();
            let ghost a0 = a;
            let fa = a.run(world, tokens, token);
            let ghost w1 = *world;
            if !fa {
                self.first = Some(a);
                assert(a0.step(w0, a, w1, false));
                return false;
            }
            let ghost a1 = a;
            let y = a.take_output().unwrap();
            let mut b = self.seed.create_runner(y);
            let ghost b0 = b;
            let fb = b.run(world, tokens, token);
            self.second = Some(b);
            assert(self.seed.builds(a1.output().unwrap(), b0));
            assert(second_tick::<W, A, S, B>(self.seed, a1.output(), w1, *self, *world, fb));
            assert(a0.step(w0, a1, w1, true));
            fb
        } else {
            let mut b = self.second.take().unwrap();
            let fb = b.run(world, tokens, token);
            self.second = Some(b);
            fb
        }
    }

    fn take_output(&mut self) -> (r: Option<B::Out>) {
        match self.second.take() {
            Some(mut b) => {
                let r = b.take_output();
                self.second = Some(b);
                r
            },
            None => None,
        }
    }
}

/// On the tick the first stage finishes with output `y`, a fresh runner
    /// that the seed builds from `y` takes one step from `w1`.
pub open spec fn second_tick<W, A: Runner<W>, S: ActionSeed<W, Input = A::Out, Run = B>, B: Runner<W>>(
        seed: S,
        y: Option<A::Out>,
        w1: W,
        next: PipeRunner<A, S, B>,
        next_world: W,
        finished: bool,
    ) -> bool {
        &&& y is Some
        &&& next.first_stage() is None
        &&& next.second_stage() is Some
        &&& exists|b0: B|
            {
                &&& #[trigger] seed.builds(y.unwrap(), b0)
                &&& fresh::<W, B>(b0)
                &&& b0.step(w1, next.second_stage().unwrap(), next_world, finished)
            }
}

/// Piping: on the tick on which the first stage finishes with output `y`,
/// the second stage becomes a runner that the seed builds from `y`, and from
/// then on the pipe's output is that runner's output.
pub proof fn lemma_pipe_output<W, A: Runner<W>, S: ActionSeed<W, Input = A::Out, Run = B>, B: Runner<W>>(
    p: PipeRunner<A, S, B>,
    world: W,
    next: PipeRunner<A, S, B>,
    next_world: W,
    finished: bool,
)
    requires
        p.inv(),
        p.step(world, next, next_world, finished),
        p.first_stage() is Some,
        next.first_stage() is None,
    ensures
        next.second_stage() is Some,
        next.output() == next.second_stage().unwrap().output(),
        exists|a1: A, w1: W, b0: B|
            {
                &&& #[trigger] p.first_stage().unwrap().step(world, a1, w1, true)
                &&& a1.output() is Some
                &&& #[trigger] p.seed().builds(a1.output().unwrap(), b0)
                &&& fresh::<W, B>(b0)
                &&& b0.step(w1, next.second_stage().unwrap(), next_world, finished)
            },
{
    let a = p.first_stage().unwrap();
    let (a1, w1, fa) = choose|a1: A, w1: W, fa: bool|
        {
            &&& #[trigger] a.step(world, a1, w1, fa)
            &&& !fa ==> next.first_stage() == Some(a1) && next_world == w1 && !finished
            &&& fa ==> second_tick::<W, A, S, B>(p.seed(), a1.output(), w1, next, next_world, finished)
        };
    assert(fa);
    let b0 = choose|b0: B|
        {
            &&& #[trigger] p.seed().builds(a1.output().unwrap(), b0)
            &&& fresh::<W, B>(b0)
            &&& b0.step(w1, next.second_stage().unwrap(), next_world, finished)
        };
    assert(p.first_stage().unwrap().step(world, a1, w1, true));
    assert(p.seed().builds(a1.output().unwrap(), b0));
}

} // verus!
