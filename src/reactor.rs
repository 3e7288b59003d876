use vstd::prelude::*;

use crate::runner::{fresh, IntoRunner, Runner};
use crate::token::{CancellationToken, CancellationTree};

verus! {

/// Owns a workflow, a sequence of actions awaited in order, and drives it
/// by one step per host tick: each drive runs the awaited runner, and when
/// it finishes, collects its output and goes straight on to the next action
/// within the same drive, until a runner reports "not finished" or nothing
/// is left to await.
pub struct Reactor<W, A, R, O> {
    steps: Vec<A>,
    current: Option<R>,
    outputs: Vec<O>,
    completed: bool,
    tokens: CancellationTree,
    token: CancellationToken,
    world: std::marker::PhantomData<W>,
}

impl<W, A, R, O> Reactor<W, A, R, O> {
    /// Actions not yet started, in order.
    pub closed spec fn pending(&self) -> Seq<A> {
        self.steps@
    }

    /// The runner being awaited, once its action was started.
    pub closed spec fn awaited(&self) -> Option<R> {
        self.current
    }

    /// Outputs of the awaited actions that finished, in order.
    pub closed spec fn results(&self) -> Seq<O> {
        self.outputs@
    }

    /// The workflow has returned.
    pub closed spec fn done(&self) -> bool {
        self.completed
    }

    /// The reactor's cancellation token has been cancelled.
    pub closed spec fn cancelled(&self) -> bool {
        self.tokens.cancelled(self.token)
    }

    /// The runner that the next drive runs first is `c0`: the one being
    /// awaited, or else one that the first pending action becomes.
    pub open spec fn starts(&self, c0: R) -> bool where A: IntoRunner<W, Run = R>, R: Runner<W> {
        match self.awaited() {
            Some(c) => c0 == c,
            None => self.pending().len() > 0 && self.pending()[0].builds(c0) && fresh::<W, R>(c0),
        }
    }

    /// The actions left after the one that the next drive runs first.
    pub open spec fn rest(&self) -> Seq<A> {
        match self.awaited() {
            Some(c) => self.pending(),
            None => self.pending().drop_first(),
        }
    }
}

impl<W, A: IntoRunner<W, Run = R>, R: Runner<W, Out = O>, O> Reactor<W, A, R, O> {
    pub closed spec fn wf(&self) -> bool {
        &&& self.tokens.wf()
        &&& self.tokens.contains(self.token)
        &&& forall|j: int| 0 <= j < self.steps@.len() ==> (#[trigger] self.steps@[j]).ready()
        &&& self.current matches Some(c) ==> c.inv() && !c.is_finished()
        &&& self.completed ==> self.steps@.len() == 0 && self.current is None
    }

    /// A reactor that has not been driven yet, awaiting `steps` in order.
    pub fn schedule(steps: Vec<A>) -> (r: Self)
        requires
            forall|j: int| 0 <= j < steps@.len() ==> (#[trigger] steps@[j]).ready(),
        ensures
            r.wf(),
            r.pending() == steps@,
            r.awaited() is None,
            r.results().len() == 0,
            !r.done(),
            !r.cancelled(),
    {
        let mut tokens = CancellationTree::new();
        let token = tokens.root();
        Reactor {
            steps,
            current: None,
            outputs: Vec::new(),
            completed: false,
            tokens,
            token,
            world: std::marker::PhantomData,
        }
    }

    /// Cancels the reactor's token: from then on no runner it awaits
    /// finishes or touches the context.
    pub fn cancel(&mut self)
        requires
            old(self).wf(),
        ensures
            final(self).wf(),
            final(self).cancelled(),
            final(self).pending() == old(self).pending(),
            final(self).awaited() == old(self).awaited(),
            final(self).results() == old(self).results(),
            final(self).done() == old(self).done(),
    {
        self.tokens.cancel(self.token);
    }

    /// Whether the workflow has returned.
    pub fn is_completed(&self) -> (r: bool)
        ensures
            r == self.done(),
    {
        self.completed
    }

    /// Outputs of the awaited actions that finished, in order.
    pub fn outputs(&self) -> (r: &Vec<O>)
        ensures
            r@ == self.results(),
    {
        &self.outputs
    }

    /// The size of what is left to await: used to bound a drive.
    pub open spec fn remaining(&self) -> nat {
        2 * self.pending().len() + if self.awaited() is Some {
            1nat
        } else {
            0nat
        }
    }

    /// After the runner that a drive ran first finished with `out`, the
    /// reactor is `mid`: nothing awaited, the rest pending, `out` collected.
    pub open spec fn moved_on(old: Self, out: O, mid: Self) -> bool {
        &&& !mid.done()
        &&& mid.awaited() is None
        &&& mid.pending() == old.rest()
        &&& mid.results() == old.results().push(out)
        &&& mid.cancelled() == old.cancelled()
    }

    /// One drive takes the reactor from `old` to `new` and the context from
    /// `world` to `new_world`:
    /// - once the workflow has returned, nothing changes;
    /// - with nothing left to await, it returns;
    /// - when cancelled, the context stays as it was and it does not return;
    /// - else the awaited runner (built from the first pending action if
    ///   none is awaited) takes one step; if it does not finish, it stays
    ///   awaited; if it finishes, its output is collected and the same drive
    ///   goes on, from the context that runner left, with the next action.
    pub open spec fn drives(old: Self, world: W, new: Self, new_world: W) -> bool
        decreases old.remaining(),
    {
        if old.done() {
            new == old && new_world == world
        } else if old.awaited() is None && old.pending().len() == 0 {
            &&& new.done()
            &&& new.pending() == old.pending()
            &&& new.awaited() is None
            &&& new.results() == old.results()
            &&& new.cancelled() == old.cancelled()
            &&& new_world == world
        } else if old.cancelled() {
            &&& !new.done()
            &&& new.cancelled()
            &&& new.results() == old.results()
            &&& new_world == world
        } else {
            exists|c0: R, c1: R, w1: W, f: bool|
                {
                    &&& #[trigger] old.starts(c0)
                    &&& #[trigger] c0.step(world, c1, w1, f)
                    &&& !f ==> {
                        &&& !new.done()
                        &&& !new.cancelled()
                        &&& new.awaited() == Some(c1)
                        &&& new.pending() == old.rest()
                        &&& new.results() == old.results()
                        &&& new_world == w1
                    }
                    &&& f ==> {
                        &&& c1.output() is Some
                        &&& exists|mid: Self|
                            #[trigger] Self::moved_on(old, c1.output().unwrap(), mid) && Self::drives(
                                mid,
                                w1,
                                new,
                                new_world,
                            )
                    }
                }
        }
    }

    /// Advances the workflow by one host tick; returns whether it has
    /// returned. Once it has, driving changes nothing.
    pub fn drive(&mut self, world: &mut W) -> (r: bool)
        requires
            old(self).wf(),
        ensures
            final(self).wf(),
            r == final(self).done(),
            Self::drives(*old(self), *old(world), *final(self), *final(world)),
    {
        if self.completed {
            return true;
        }
        let ghost old_self = *self;
        let ghost w0 = *world;
        loop
            invariant
                self.wf(),
                !self.completed,
                self.tokens == old_self.tokens,
                self.token == old_self.token,
                *old(self) == old_self,
                *old(world) == w0,
                forall|s2: Self, w2: W|
                    #[trigger] Self::drives(*self, *world, s2, w2) ==> Self::drives(
                        old_self,
                        w0,
                        s2,
                        w2,
                    ),
            decreases self.remaining(),
        {
            let ghost head = *self;
            let ghost wh = *world;
            if self.current.is_none() {
                if self.steps.len() == 0 {
                    self.completed = true;
                    assert(Self::drives(head, wh, *self, *world));
                    return true;
                }
                let ghost before = self.steps@;
                let action = self.steps.remove(0);
                assert(action == before[0]);
                assert(self.steps@ == before.drop_first());
                let runner = action.into_runner();
                self.current = Some(runner);
            }
            assert(head.starts(self.current.unwrap()));
            assert(self.steps@ == head.rest());
            let mut c = self.current.take().unwrap();
            let ghost cg = c;
            let finished = c.run(world, &self.tokens, self.token);
            let ghost ca = c;
            let ghost w1 = *world;
            if finished {
                let out = c.take_output();
                self.outputs.push(out.unwrap());
                assert(Self::moved_on(head, ca.output().unwrap(), *self));
                assert forall|s2: Self, w2: W|
                    #[trigger] Self::drives(*self, *world, s2, w2) implies Self::drives(
                        head,
                        wh,
                        s2,
                        w2,
                    ) by {
                    assert(Self::moved_on(head, ca.output().unwrap(), *self));
                    assert(head.starts(cg));
                    assert(cg.step(wh, ca, w1, true));
                }
            } else {
                self.current = Some(c);
                proof {
                    if !head.cancelled() {
                        assert(head.starts(cg));
                        assert(cg.step(wh, ca, *world, false));
                    }
                }
                assert(Self::drives(head, wh, *self, *world));
                return false;
            }
        }
    }

    /// A workflow that awaits a single action whose runner finishes on its
    /// first tick completes within one drive; no second drive is needed.
    pub proof fn lemma_single_immediate_action_completes(old: Self, world: W, new: Self, new_world: W)
        requires
            Self::drives(old, world, new, new_world),
            !old.done(),
            !old.cancelled(),
            old.awaited() is None,
            old.pending().len() == 1,
            forall|c0: R, c1: R, w1: W, f: bool|
                #![trigger old.pending()[0].builds(c0), c0.step(world, c1, w1, f)]
                old.pending()[0].builds(c0) && fresh::<W, R>(c0) && c0.step(world, c1, w1, f) ==> f,
        ensures
            new.done(),
            new.results().len() == old.results().len() + 1,
    {
        let (c0, c1, w1, f) = choose|c0: R, c1: R, w1: W, f: bool|
            {
                &&& #[trigger] old.starts(c0)
                &&& #[trigger] c0.step(world, c1, w1, f)
                &&& !f ==> {
                    &&& !new.done()
                    &&& !new.cancelled()
                    &&& new.awaited() == Some(c1)
                    &&& new.pending() == old.rest()
                    &&& new.results() == old.results()
                    &&& new_world == w1
                }
                &&& f ==> {
                    &&& c1.output() is Some
                    &&& exists|mid: Self|
                        #[trigger] Self::moved_on(old, c1.output().unwrap(), mid) && Self::drives(
                            mid,
                            w1,
                            new,
                            new_world,
                        )
                }
            };
        assert(old.pending()[0].builds(c0));
        assert(f);
        let mid = choose|mid: Self|
            #[trigger] Self::moved_on(old, c1.output().unwrap(), mid) && Self::drives(
                mid,
                w1,
                new,
                new_world,
            );
        assert(mid.pending().len() == 0);
    }

    /// A workflow all of whose pending actions become runners that finish
    /// on their first tick completes within one drive, collecting one output
    /// per action.
    pub proof fn lemma_immediate_actions_complete(old: Self, world: W, new: Self, new_world: W)
        requires
            Self::drives(old, world, new, new_world),
            !old.done(),
            !old.cancelled(),
            old.awaited() is None,
            forall|j: int, c0: R, w: W, c1: R, w1: W, f: bool|
                #![trigger old.pending()[j].builds(c0), c0.step(w, c1, w1, f)]
                0 <= j < old.pending().len() && old.pending()[j].builds(c0) && fresh::<W, R>(c0)
                    && c0.step(w, c1, w1, f) ==> f,
        ensures
            new.done(),
            new.results().len() == old.results().len() + old.pending().len(),
        decreases old.pending().len(),
    {
        if old.pending().len() > 0 {
            let (c0, c1, w1, f) = choose|c0: R, c1: R, w1: W, f: bool|
                {
                    &&& #[trigger] old.starts(c0)
                    &&& #[trigger] c0.step(world, c1, w1, f)
                    &&& !f ==> {
                        &&& !new.done()
                        &&& !new.cancelled()
                        &&& new.awaited() == Some(c1)
                        &&& new.pending() == old.rest()
                        &&& new.results() == old.results()
                        &&& new_world == w1
                    }
                    &&& f ==> {
                        &&& c1.output() is Some
                        &&& exists|mid: Self|
                            #[trigger] Self::moved_on(old, c1.output().unwrap(), mid)
                                && Self::drives(mid, w1, new, new_world)
                    }
                };
            assert(old.pending()[0].builds(c0));
            assert(f);
            let mid = choose|mid: Self|
                #[trigger] Self::moved_on(old, c1.output().unwrap(), mid) && Self::drives(
                    mid,
                    w1,
                    new,
                    new_world,
                );
            assert forall|j: int, d0: R, w: W, d1: R, v1: W, g: bool|
                0 <= j < mid.pending().len() && #[trigger] mid.pending()[j].builds(d0) && fresh::<
                    W,
                    R,
                >(d0) && #[trigger] d0.step(w, d1, v1, g) implies g by {
                assert(mid.pending()[j] == old.pending()[j + 1]);
                assert(old.pending()[j + 1].builds(d0));
            }
            Self::lemma_immediate_actions_complete(mid, w1, new, new_world);
        }
    }
}

} // verus!
