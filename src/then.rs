use vstd::prelude::*;

use crate::runner::{fresh, IntoRunner, Runner};
use crate::token::{CancellationToken, CancellationTree};

verus! {

/// Runs `first` to completion, drops its output, then turns `action` into a
/// runner and runs it, on the same tick, and from then on only that one.
pub struct ThenRunner<A, S, B> {
    pub first: Option<A>,
    pub action: Option<S>,
    pub second: Option<B>,
}

/// Sequences `first` and then `action`.
pub fn then<W, A: Runner<W>, S: IntoRunner<W>>(first: A, action: S) -> (r: ThenRunner<A, S, S::Run>)
    requires
        fresh::<W, A>(first),
        action.ready(),
    ensures
        fresh::<W, ThenRunner<A, S, S::Run>>(r),
        r.first_stage() == Some(first),
        r.next_action() == Some(action),
{
    ThenRunner { first: Some(first), action: Some(action), second: None }
}

impl<A, S, B> ThenRunner<A, S, B> {
    /// The first stage, while it runs.
    pub open spec fn first_stage(&self) -> Option<A> {
        self.first
    }

    /// The second stage, once it was built.
    pub open spec fn second_stage(&self) -> Option<B> {
        self.second
    }

    /// The action still to be turned into the second stage.
    pub open spec fn next_action(&self) -> Option<S> {
        self.action
    }
}

impl<W, A: Runner<W>, S: IntoRunner<W, Run = B>, B: Runner<W>> Runner<W> for ThenRunner<A, S, B> {
    type Out = B::Out;

    open spec fn inv(&self) -> bool {
        &&& self.first is Some <==> self.second is None
        &&& self.first is Some <==> self.action is Some
        &&& self.action matches Some(s) ==> s.ready()
        &&& self.first matches Some(a) ==> a.inv() && !a.is_finished()
        &&& self.second matches Some(b) ==> b.inv()
    }

    open spec fn is_finished(&self) -> bool {
        self.second matches Some(b) && b.is_finished()
    }

    /// The output of the second stage; nothing before it exists.
    open spec fn output(&self) -> Option<B::Out> {
        match self.second {
            Some(b) => b.output(),
            None => None,
        }
    }

    open spec fn step(&self, world: W, next: Self, next_world: W, finished: bool) -> bool {
        &&& match self.first {
            Some(a) => exists|a1: A, w1: W, fa: bool|
                {
                    &&& #[trigger] a.step(world, a1, w1, fa)
                    &&& !fa ==> next.first == Some(a1) && next.action == self.action && next_world
                        == w1 && !finished
                    &&& fa ==> then_tick::<W, A, S, B>(self.action.unwrap(), w1, next, next_world, finished)
                },
            None => next.second matches Some(b1) && self.second.unwrap().step(
                world,
                b1,
                next_world,
                finished,
            ) && next.first is None,
        }
    }

    fn run(&mut self, world: &mut W, tokens: &CancellationTree, token: CancellationToken) -> (r:
        bool) {
        if tokens.is_cancelled(token) {
            return false;
        }
        let ghost w0 = *world;
        let ghost old_self = *self;
        if self.first.is_some() {
            let mut a = self.first.take().unwrap();
            let ghost a0 = a;
            let fa = a.run(world, tokens, token);
            let ghost w1 = *world;
            if !fa {
                self.first = Some(a);
                assert(a0.step(w0, a, w1, false));
                return false;
            }
            let ghost a1 = a;
            let action = self.action.take().unwrap();
            let ghost s0 = action;
            let mut b = action.into_runner();
            let ghost b0 = b;
            let fb = b.run(world, tokens, token);
            self.second = Some(b);
            assert(s0.builds(b0));
            assert(then_tick::<W, A, S, B>(s0, w1, *self, *world, fb));
            assert(a0.step(w0, a1, w1, true));
            fb
        } else {
            let mut b = self.second.take().unwrap();
            let fb = b.run(world, tokens, token);
            self.second = Some(b);
            fb
        }
    }

    fn take_output(&mut self) -> (r: Option<B::Out>) {
        match self.second.take() {
            Some(mut b) => {
                let r = b.take_output();
                self.second = Some(b);
                r
            },
            None => None,
        }
    }
}

/// On the tick the first stage finishes, a fresh runner that `action`
/// becomes takes one step from `w1`.
pub open spec fn then_tick<W, A: Runner<W>, S: IntoRunner<W, Run = B>, B: Runner<W>>(
    action: S,
    w1: W,
    next: ThenRunner<A, S, B>,
    next_world: W,
    finished: bool,
) -> bool {
    &&& next.first_stage() is None
    &&& next.next_action() is None
    &&& next.second_stage() is Some
    &&& exists|b0: B|
        {
            &&& #[trigger] action.builds(b0)
            &&& fresh::<W, B>(b0)
            &&& b0.step(w1, next.second_stage().unwrap(), next_world, finished)
        }
}

} // verus!
