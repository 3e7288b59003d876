use vstd::prelude::*;

use crate::reactor::Reactor;
use crate::runner::{IntoRunner, Runner};

verus! {

/// What one reactor goes through in one pass of the host loop, from `old`
/// (initialized or not) to `new`, with the context from `world` to
/// `new_world`.
///
/// In the registration pass (`steady` false) only reactors not yet
/// initialized are driven, once. In a steady pass every reactor is driven
/// once, and one that was not initialized yet is driven a second time, so
/// that it catches up with those that were.
pub open spec fn pass<W, A: IntoRunner<W, Run = R>, R: Runner<W, Out = O>, O>(
    old: Reactor<W, A, R, O>,
    initialized: bool,
    world: W,
    new: Reactor<W, A, R, O>,
    new_world: W,
    steady: bool,
) -> bool {
    if initialized {
        if steady {
            Reactor::drives(old, world, new, new_world)
        } else {
            new == old && new_world == world
        }
    } else {
        if steady {
            exists|mid: Reactor<W, A, R, O>, mid_world: W|
                #[trigger] Reactor::drives(old, world, mid, mid_world) && Reactor::drives(
                    mid,
                    mid_world,
                    new,
                    new_world,
                )
        } else {
            Reactor::drives(old, world, new, new_world)
        }
    }
}

/// Reactors `0..k` of `olds` went through a pass in index order, each on
/// the context the one before left, and became `news`.
pub open spec fn passed<W, A: IntoRunner<W, Run = R>, R: Runner<W, Out = O>, O>(
    olds: Seq<Reactor<W, A, R, O>>,
    inits: Seq<bool>,
    ws: Seq<W>,
    news: Seq<Reactor<W, A, R, O>>,
    k: int,
    steady: bool,
) -> bool {
    &&& 0 <= k <= olds.len()
    &&& inits.len() == olds.len()
    &&& ws.len() == k + 1
    &&& news.len() == k
    &&& forall|j: int|
        0 <= j < k ==> #[trigger] pass(olds[j], inits[j], ws[j], news[j], ws[j + 1], steady)
}

/// The reactors a host application runs, each with whether it has been
/// initialized (driven once already).
pub struct Reactors<W, A, R, O> {
    reactors: Vec<Reactor<W, A, R, O>>,
    initialized: Vec<bool>,
}

/// Installs the reactor scheduler into a host application.
pub struct FlurxPlugin;

impl FlurxPlugin {
    /// The scheduler's empty set of reactors.
    pub fn build<W, A: IntoRunner<W, Run = R>, R: Runner<W, Out = O>, O>(&self) -> (r: Reactors<
        W,
        A,
        R,
        O,
    >)
        ensures
            r.wf(),
            r.spawned().len() == 0,
    {
        Reactors { reactors: Vec::new(), initialized: Vec::new() }
    }
}

/// Creates a reactor and drives it once, marked initialized, so that the
/// next steady pass drives it only once.
pub trait ScheduleReactor<W, A: IntoRunner<W, Run = R>, R: Runner<W, Out = O>, O> {
    spec fn wf(&self) -> bool;

    /// The reactors, in the order they were added.
    spec fn spawned(&self) -> Seq<Reactor<W, A, R, O>>;

    /// Which of them have been initialized.
    spec fn initialized(&self) -> Seq<bool>;

    fn spawn_initialized_reactor(&mut self, world: &mut W, reactor: Reactor<W, A, R, O>) -> (r:
        usize)
        requires
            old(self).wf(),
            reactor.wf(),
            old(self).spawned().len() < usize::MAX,
        ensures
            final(self).wf(),
            r == old(self).spawned().len(),
            final(self).spawned().len() == old(self).spawned().len() + 1,
            final(self).spawned().take(r as int) == old(self).spawned(),
            final(self).initialized() == old(self).initialized().push(true),
            Reactor::drives(reactor, *old(world), final(self).spawned()[r as int], *final(world)),
    ;
}

impl<W, A: IntoRunner<W, Run = R>, R: Runner<W, Out = O>, O> ScheduleReactor<W, A, R, O> for Reactors<
    W,
    A,
    R,
    O,
> {
    closed spec fn wf(&self) -> bool {
        &&& self.reactors@.len() == self.initialized@.len()
        &&& forall|j: int| 0 <= j < self.reactors@.len() ==> (#[trigger] self.reactors@[j]).wf()
    }

    closed spec fn spawned(&self) -> Seq<Reactor<W, A, R, O>> {
        self.reactors@
    }

    closed spec fn initialized(&self) -> Seq<bool> {
        self.initialized@
    }

    fn spawn_initialized_reactor(&mut self, world: &mut W, reactor: Reactor<W, A, R, O>) -> (r:
        usize) {
        let mut reactor = reactor;
        reactor.drive(world);
        let r = self.reactors.len();
        self.reactors.push(reactor);
        self.initialized.push(true);
        assert(self.reactors@.take(r as int) =~= old(self).reactors@);
        r
    }
}

impl<W, A: IntoRunner<W, Run = R>, R: Runner<W, Out = O>, O> Reactors<W, A, R, O> {
    /// Adds a reactor that has not been driven; the next pass initializes
    /// it.
    pub fn spawn(&mut self, reactor: Reactor<W, A, R, O>) -> (r: usize)
        requires
            old(self).wf(),
            reactor.wf(),
        ensures
            final(self).wf(),
            r == old(self).spawned().len(),
            final(self).spawned() == old(self).spawned().push(reactor),
            final(self).initialized() == old(self).initialized().push(false),
    {
        let r = self.reactors.len();
        self.reactors.push(reactor);
        self.initialized.push(false);
        r
    }

    /// The number of reactors.
    pub fn len(&self) -> (r: usize)
        requires
            self.wf(),
        ensures
            r == self.spawned().len(),
    {
        self.reactors.len()
    }

    /// The reactor at `index`.
    pub fn get(&self, index: usize) -> (r: &Reactor<W, A, R, O>)
        requires
            (index as nat) < self.spawned().len(),
        ensures
            *r == self.spawned()[index as int],
    {
        &self.reactors[index]
    }

    fn pass_all(&mut self, world: &mut W, steady: bool)
        requires
            old(self).wf(),
        ensures
            final(self).wf(),
            final(self).spawned().len() == old(self).spawned().len(),
            final(self).initialized() == Seq::new(old(self).spawned().len(), |j: int| true),
            exists|ws: Seq<W>|
                {
                    &&& #[trigger] passed(
                        old(self).spawned(),
                        old(self).initialized(),
                        ws,
                        final(self).spawned(),
                        old(self).spawned().len() as int,
                        steady,
                    )
                    &&& ws[0] == *old(world)
                    &&& ws.last() == *final(world)
                },
    {
        let ghost olds = self.reactors@;
        let ghost inits = self.initialized@;
        let ghost mut ws: Seq<W> = seq![*world];
        let mut rest: Vec<Reactor<W, A, R, O>> = Vec::new();
        std::mem::swap(&mut rest, &mut self.reactors);
        let n = rest.len();
        let mut i: usize = 0;
        while i < n
            invariant
                0 <= i <= n,
                n == olds.len(),
                inits.len() == n,
                inits == old(self).initialized@,
                olds == old(self).reactors@,
                ws[0] == *old(world),
                rest@ == olds.subrange(i as int, n as int),
                forall|j: int| 0 <= j < n ==> (#[trigger] olds[j]).wf(),
                self.initialized@.len() == n,
                forall|j: int| 0 <= j < n ==> #[trigger] self.initialized@[j] == (j < i || inits[j]),
                passed(olds, inits, ws, self.reactors@, i as int, steady),
                ws[i as int] == *world,
                forall|j: int| 0 <= j < i ==> (#[trigger] self.reactors@[j]).wf(),
            decreases n - i,
        {
            let mut reactor = rest.remove(0);
            assert(reactor == olds[i as int]);
            let init = self.initialized[i];
            let ghost w_before = *world;
            if init {
                if steady {
                    reactor.drive(world);
                }
            } else {
                self.initialized.set(i, true);
                reactor.drive(world);
                let ghost mid = reactor;
                let ghost mid_world = *world;
                if steady {
                    reactor.drive(world);
                    assert(Reactor::drives(olds[i as int], w_before, mid, mid_world));
                }
            }
            let ghost old_ws = ws;
            let ghost old_news = self.reactors@;
            proof {
                ws = ws.push(*world);
            }
            self.reactors.push(reactor);
            assert(pass(olds[i as int], inits[i as int], old_ws[i as int], reactor, *world, steady));
            assert(passed(olds, inits, ws, self.reactors@, i + 1, steady)) by {
                assert forall|j: int| 0 <= j < i + 1 implies #[trigger] pass(
                    olds[j],
                    inits[j],
                    ws[j],
                    self.reactors@[j],
                    ws[j + 1],
                    steady,
                ) by {
                    if j < i {
                        assert(pass(olds[j], inits[j], old_ws[j], old_news[j], old_ws[j + 1], steady));
                    }
                }
            }
            assert(rest@ =~= olds.subrange(i + 1, n as int));
            i = i + 1;
        }
        assert(self.initialized@ =~= Seq::new(n as nat, |j: int| true));
        assert(ws.last() == *world);
        assert(passed(old(self).spawned(), old(self).initialized(), ws, self.spawned(), n as int, steady));
    }

    /// The registration pass, before the first steady tick: every reactor
    /// not initialized yet is marked initialized and driven once, in order.
    pub fn initialize_reactors(&mut self, world: &mut W)
        requires
            old(self).wf(),
        ensures
            final(self).wf(),
            final(self).spawned().len() == old(self).spawned().len(),
            final(self).initialized() == Seq::new(old(self).spawned().len(), |j: int| true),
            exists|ws: Seq<W>|
                {
                    &&& #[trigger] passed(
                        old(self).spawned(),
                        old(self).initialized(),
                        ws,
                        final(self).spawned(),
                        old(self).spawned().len() as int,
                        false,
                    )
                    &&& ws[0] == *old(world)
                    &&& ws.last() == *final(world)
                },
    {
        self.pass_all(world, false);
    }

    /// A steady tick: every reactor is driven once, in order; one that was
    /// not initialized yet is marked initialized and driven a second time.
    pub fn run_reactors(&mut self, world: &mut W)
        requires
            old(self).wf(),
        ensures
            final(self).wf(),
            final(self).spawned().len() == old(self).spawned().len(),
            final(self).initialized() == Seq::new(old(self).spawned().len(), |j: int| true),
            exists|ws: Seq<W>|
                {
                    &&& #[trigger] passed(
                        old(self).spawned(),
                        old(self).initialized(),
                        ws,
                        final(self).spawned(),
                        old(self).spawned().len() as int,
                        true,
                    )
                    &&& ws[0] == *old(world)
                    &&& ws.last() == *final(world)
                },
    {
        self.pass_all(world, true);
    }
}

} // verus!
