use vstd::prelude::*;

use crate::output::Output;
use crate::runner::{fresh, Runner};
use crate::token::{CancellationToken, CancellationTree};

verus! {

/// Two branches and a selector set from outside: each tick runs the branch
/// selected at that moment, so a change of selection between two ticks
/// redirects the next tick, whatever progress the other branch had made.
pub struct SwitchRunner<A, B, O> {
    pub branch0: A,
    pub branch1: B,
    pub second: bool,
    pub finished: bool,
    pub output: Output<O>,
}

/// A switch between two fresh runners, starting on the first.
pub fn switch<W, A: Runner<W>, B: Runner<W, Out = A::Out>>(branch0: A, branch1: B) -> (r: SwitchRunner<A, B, A::Out>)
    requires
        fresh::<W, A>(branch0),
        fresh::<W, B>(branch1),
    ensures
        fresh::<W, SwitchRunner<A, B, A::Out>>(r),
        r.branch0() == branch0,
        r.branch1() == branch1,
        !r.selects_second(),
{
    SwitchRunner { branch0, branch1, second: false, finished: false, output: Output::new() }
}

impl<A, B, O> SwitchRunner<A, B, O> {
    pub open spec fn branch0(&self) -> A {
        self.branch0
    }

    pub open spec fn branch1(&self) -> B {
        self.branch1
    }

    /// The switch has reported completion.
    pub open spec fn done(&self) -> bool {
        self.finished
    }

    /// What its output slot holds.
    pub open spec fn held(&self) -> Option<O> {
        self.output@
    }

    /// The second branch is selected.
    pub open spec fn selects_second(&self) -> bool {
        self.second
    }

    /// Selects the second branch when `second` holds, else the first. The
    /// branches keep their progress.
    pub fn select(&mut self, second: bool)
        ensures
            final(self).selects_second() == second,
            final(self).branch0() == old(self).branch0(),
            final(self).branch1() == old(self).branch1(),
            final(self).done() == old(self).done(),
            final(self).held() == old(self).held(),
    {
        self.second = second;
    }
}

impl<W, A: Runner<W>, B: Runner<W, Out = A::Out>> Runner<W> for SwitchRunner<A, B, A::Out> {
    type Out = A::Out;

    open spec fn inv(&self) -> bool {
        &&& self.branch0.inv()
        &&& self.branch1.inv()
        &&& !self.finished ==> !self.branch0.is_finished() && !self.branch1.is_finished()
    }

    open spec fn is_finished(&self) -> bool {
        self.finished
    }

    open spec fn output(&self) -> Option<A::Out> {
        self.output@
    }

    /// The selected branch takes one step and the other stays as it was;
    /// when the selected branch finishes, its output becomes the switch's.
    open spec fn step(&self, world: W, next: Self, next_world: W, finished: bool) -> bool {
        &&& next.second == self.second
        &&& next.finished == finished
        &&& !finished ==> next.output@ == self.output@
        &&& if self.second {
            &&& next.branch0 == self.branch0
            &&& exists|b1: B|
                {
                    &&& #[trigger] self.branch1.step(world, b1, next_world, finished)
                    &&& !finished ==> next.branch1 == b1
                    &&& finished ==> next.output@ == b1.output()
                }
        } else {
            &&& next.branch1 == self.branch1
            &&& exists|a1: A|
                {
                    &&& #[trigger] self.branch0.step(world, a1, next_world, finished)
                    &&& !finished ==> next.branch0 == a1
                    &&& finished ==> next.output@ == a1.output()
                }
        }
    }

    fn run(&mut self, world: &mut W, tokens: &CancellationTree, token: CancellationToken) -> (r:
        bool) {
        if tokens.is_cancelled(token) {
            return false;
        }
        let ghost old_self = *self;
        let ghost w0 = *world;
        if self.second {
            let finished = self.branch1.run(world, tokens, token);
            let ghost b1 = self.branch1;
            if finished {
                let out = self.branch1.take_output();
                self.output.set(out.unwrap());
                self.finished = true;
            }
            assert(old_self.branch1.step(w0, b1, *world, finished));
            finished
        } else {
            let finished = self.branch0.run(world, tokens, token);
            let ghost a1 = self.branch0;
            if finished {
                let out = self.branch0.take_output();
                self.output.set(out.unwrap());
                self.finished = true;
            }
            assert(old_self.branch0.step(w0, a1, *world, finished));
            finished
        }
    }

    fn take_output(&mut self) -> (r: Option<A::Out>) {
        self.output.take()
    }
}

/// Selecting a branch between two ticks redirects the next tick: only the
/// selected branch steps, whatever progress the other one had made, and the
/// other keeps that progress.
pub proof fn lemma_switch_runs_selected<W, A: Runner<W>, B: Runner<W, Out = A::Out>>(
    s: SwitchRunner<A, B, A::Out>,
    world: W,
    next: SwitchRunner<A, B, A::Out>,
    next_world: W,
    finished: bool,
)
    requires
        s.step(world, next, next_world, finished),
    ensures
        s.selects_second() ==> next.branch0() == s.branch0() && exists|b1: B|
            #[trigger] s.branch1().step(world, b1, next_world, finished),
        !s.selects_second() ==> next.branch1() == s.branch1() && exists|a1: A|
            #[trigger] s.branch0().step(world, a1, next_world, finished),
        next.selects_second() == s.selects_second(),
{
    if s.selects_second() {
        let b1 = choose|b1: B|
            {
                &&& #[trigger] s.branch1.step(world, b1, next_world, finished)
                &&& !finished ==> next.branch1 == b1
                &&& finished ==> next.output@ == b1.output()
            };
        assert(s.branch1().step(world, b1, next_world, finished));
    } else {
        let a1 = choose|a1: A|
            {
                &&& #[trigger] s.branch0.step(world, a1, next_world, finished)
                &&& !finished ==> next.branch0 == a1
                &&& finished ==> next.output@ == a1.output()
            };
        assert(s.branch0().step(world, a1, next_world, finished));
    }
}

} // verus!
