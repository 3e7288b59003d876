use vstd::prelude::*;

use crate::output::Output;
use crate::runner::{fresh, Action, ActionSeed, IntoRunner, Runner};
use crate::token::{CancellationToken, CancellationTree};

verus! {

/// Races several actions: finishes on the first tick on which one of them
/// finishes, with that action's index as output.
pub struct Any<A> {
    marker: std::marker::PhantomData<A>,
}

/// Polls its candidates once per tick, in index order, and stops at the
/// first that finishes.
pub struct AnyRunner<R> {
    pub runners: Vec<R>,
    pub finished: bool,
    pub output: Output<usize>,
}

/// The seed of a race among the actions given as its input.
pub fn any<A>() -> (r: Any<A>) {
    Any { marker: std::marker::PhantomData }
}

impl<A> Any<A> {
    /// Binds the candidates to race.
    pub fn with(self, actions: Vec<A>) -> (r: Action<Any<A>, Vec<A>>)
        ensures
            r.input == actions,
    {
        Action::new(self, actions)
    }
}

impl<R> AnyRunner<R> {
    /// The candidates still in the race, in index order.
    pub open spec fn candidates(&self) -> Seq<R> {
        self.runners@
    }

    /// The index that won, once the race is over and before it is taken.
    pub open spec fn winner(&self) -> Option<usize> {
        self.output@
    }
}

/// Candidate `j` is the one that finished, among `k` polled.
pub open spec fn wins(won: bool, j: int, k: int) -> bool {
    won && j == k - 1
}

/// Polling `rs[0..k]` in order, with the context threaded through `ws`,
/// left candidate `j` as `ns[j]`; only the last polled one finished, and
/// only if `won`.
pub open spec fn polled<W, R: Runner<W>>(
    rs: Seq<R>,
    ws: Seq<W>,
    ns: Seq<R>,
    k: int,
    won: bool,
) -> bool {
    &&& 0 <= k <= rs.len()
    &&& ns.len() == k
    &&& ws.len() == k + 1
    &&& forall|j: int|
        0 <= j < k ==> #[trigger] rs[j].step(ws[j], ns[j], ws[j + 1], wins(won, j, k))
}

impl<W, R: Runner<W>> Runner<W> for AnyRunner<R> {
    type Out = usize;

    open spec fn inv(&self) -> bool {
        &&& self.runners@.len() <= usize::MAX
        &&& self.finished ==> self.runners@.len() == 0
        &&& !self.finished ==> self.runners@.len() > 0
        &&& forall|j: int|
            0 <= j < self.runners@.len() ==> (#[trigger] self.runners@[j]).inv()
                && !self.runners@[j].is_finished()
    }

    open spec fn is_finished(&self) -> bool {
        self.finished
    }

    open spec fn output(&self) -> Option<usize> {
        self.output@
    }

    /// Candidates are polled in index order, each on the context the one
    /// before it left. The first that finishes wins: the others are dropped
    /// and its index is the output. If none finishes, all were polled once
    /// and all stay.
    open spec fn step(&self, world: W, next: Self, next_world: W, finished: bool) -> bool {
        exists|ws: Seq<W>, ns: Seq<R>, k: int|
            {
                &&& #[trigger] polled(self.runners@, ws, ns, k, finished)
                &&& ws[0] == world
                &&& next_world == ws[k]
                &&& next.finished == finished
                &&& finished ==> k >= 1 && next.runners@.len() == 0 && next.output@ == Some(
                    (k - 1) as usize,
                )
                &&& !finished ==> k == self.runners@.len() && next.runners@ == ns
                    && next.output@ == self.output@
            }
    }

    fn run(&mut self, world: &mut W, tokens: &CancellationTree, token: CancellationToken) -> (r:
        bool) {
        if tokens.is_cancelled(token) {
            return false;
        }
        let ghost w0 = *world;
        let ghost old_self = *self;
        let ghost rs = self.runners@;
        let ghost mut ws: Seq<W> = seq![*world];
        let mut rest: Vec<R> = Vec::new();
        std::mem::swap(&mut rest, &mut self.runners);
        let mut polled_runners: Vec<R> = Vec::new();
        let n = rest.len();
        let mut i: usize = 0;
        while i < n
            invariant
                0 <= i <= n,
                n == rs.len(),
                rest@ == rs.subrange(i as int, n as int),
                tokens.wf(),
                tokens.contains(token),
                !tokens.cancelled(token),
                forall|j: int| 0 <= j < rs.len() ==> (#[trigger] rs[j]).inv() && !rs[j].is_finished(),
                polled::<W, R>(rs, ws, polled_runners@, i as int, false),
                rs == old_self.runners@,
                *old(self) == old_self,
                *old(world) == w0,
                ws[0] == w0,
                ws[i as int] == *world,
                self.runners@.len() == 0,
                self.output@ == old_self.output@,
                !self.finished,
                rs.len() > 0,
                forall|j: int|
                    0 <= j < polled_runners@.len() ==> (#[trigger] polled_runners@[j]).inv()
                        && !polled_runners@[j].is_finished(),
            decreases n - i,
        {
            let mut runner = rest.remove(0);
            assert(runner == rs[i as int]);
            let ghost old_ws = ws;
            let finished = runner.run(world, tokens, token);
            proof {
                ws = ws.push(*world);
            }
            if finished {
                let ghost ns = polled_runners@.push(runner);
                assert(polled::<W, R>(rs, ws, ns, i + 1, true)) by {
                    assert forall|j: int| 0 <= j < i + 1 implies #[trigger] rs[j].step(
                        ws[j],
                        ns[j],
                        ws[j + 1],
                        wins(true, j, i + 1),
                    ) by {
                        if j < i {
                            assert(rs[j].step(
                                old_ws[j],
                                polled_runners@[j],
                                old_ws[j + 1],
                                wins(false, j, i as int),
                            ));
                            assert(ns[j] == polled_runners@[j]);
                        }
                    }
                }
                self.finished = true;
                self.output.set(i);
                assert(ws[0] == w0);
                assert(ws[i + 1] == *world);
                assert(self.output@ == Some(((i + 1) - 1) as usize));
                assert(self.runners@.len() == 0);
                assert(old_self.runners@ == rs);
                assert(old_self.step(w0, *self, *world, true));
                return true;
            }
            let ghost old_polled = polled_runners@;
            polled_runners.push(runner);
            assert(polled::<W, R>(rs, ws, polled_runners@, i + 1, false)) by {
                assert forall|j: int| 0 <= j < i + 1 implies #[trigger] rs[j].step(
                    ws[j],
                    polled_runners@[j],
                    ws[j + 1],
                    wins(false, j, i + 1),
                ) by {
                    if j < i {
                        assert(polled_runners@[j] == old_polled[j]);
                        assert(rs[j].step(
                            old_ws[j],
                            old_polled[j],
                            old_ws[j + 1],
                            wins(false, j, i as int),
                        ));
                    }
                }
            }
            assert(rest@ =~= rs.subrange(i + 1, n as int));
            i = i + 1;
        }
        self.runners = polled_runners;
        assert(polled::<W, R>(rs, ws, self.runners@, n as int, false));
        assert(old_self.step(w0, *self, *world, false));
        false
    }

    fn take_output(&mut self) -> (r: Option<usize>) {
        self.output.take()
    }
}

impl<W, A: IntoRunner<W>> ActionSeed<W> for Any<A> {
    type Input = Vec<A>;

    type Run = AnyRunner<A::Run>;

    /// At least one candidate, each ready to become a runner.
    open spec fn accepts(&self, input: Vec<A>) -> bool {
        &&& input@.len() > 0
        &&& forall|j: int| 0 <= j < input@.len() ==> (#[trigger] input@[j]).ready()
    }

    /// One fresh runner per candidate, in the same order.
    open spec fn builds(&self, input: Vec<A>, r: AnyRunner<A::Run>) -> bool {
        &&& r.runners@.len() == input@.len()
        &&& forall|j: int| 0 <= j < input@.len() ==> #[trigger] input@[j].builds(r.runners@[j])
    }

    fn create_runner(&self, input: Vec<A>) -> (r: AnyRunner<A::Run>) {
        let ghost actions = input@;
        let mut input = input;
        let mut runners: Vec<A::Run> = Vec::new();
        let n = input.len();
        let mut i: usize = 0;
        while i < n
            invariant
                0 <= i <= n,
                n == actions.len(),
                input@ == actions.subrange(i as int, n as int),
                forall|j: int| 0 <= j < actions.len() ==> (#[trigger] actions[j]).ready(),
                runners@.len() == i,
                forall|j: int|
                    0 <= j < i ==> #[trigger] actions[j].builds(runners@[j]) && fresh::<W, A::Run>(
                        runners@[j],
                    ),
            decreases n - i,
        {
            let action = input.remove(0);
            assert(action == actions[i as int]);
            let runner = action.into_runner();
            runners.push(runner);
            assert(input@ =~= actions.subrange(i + 1, n as int));
            i = i + 1;
        }
        let r = AnyRunner { runners, finished: false, output: Output::new() };
        assert(forall|j: int|
            0 <= j < r.runners@.len() ==> (#[trigger] r.runners@[j]).inv() && !r.runners@[j].is_finished()
        ) by {
            assert forall|j: int| 0 <= j < r.runners@.len() implies (#[trigger] r.runners@[j]).inv()
                && !r.runners@[j].is_finished() by {
                assert(actions[j].builds(runners@[j]));
            }
        }
        r
    }
}

/// When a race finishes, no candidate is left to be polled again, and the
/// winner is the lowest index that finished on that tick: every candidate
/// before it was polled once and did not finish.
pub proof fn lemma_race_winner<W, R: Runner<W>>(
    r: AnyRunner<R>,
    world: W,
    next: AnyRunner<R>,
    next_world: W,
)
    requires
        <AnyRunner<R> as Runner<W>>::step(&r, world, next, next_world, true),
    ensures
        next.candidates().len() == 0,
        exists|ws: Seq<W>, ns: Seq<R>, k: int|
            {
                &&& #[trigger] polled(r.candidates(), ws, ns, k, true)
                &&& k >= 1
                &&& next.winner() == Some((k - 1) as usize)
                &&& ws[0] == world
                &&& ws.last() == next_world
            },
{
    let (ws, ns, k) = choose|ws: Seq<W>, ns: Seq<R>, k: int|
        {
            &&& #[trigger] polled(r.runners@, ws, ns, k, true)
            &&& ws[0] == world
            &&& next_world == ws[k]
            &&& next.finished == true
            &&& true ==> k >= 1 && next.runners@.len() == 0 && next.output@ == Some(
                (k - 1) as usize,
            )
            &&& !true ==> k == r.runners@.len() && next.runners@ == ns && next.output@ == r.output@
        };
    assert(polled(r.candidates(), ws, ns, k, true));
}

/// Where each candidate `j`'s tick would report `b[j]`, whatever it leaves
/// behind, a tick of the race finishes exactly when some `b[j]` holds, and
/// then reports the lowest such index; otherwise every candidate stays.
pub proof fn lemma_race_outcome<W, R: Runner<W>>(
    r: AnyRunner<R>,
    world: W,
    next: AnyRunner<R>,
    next_world: W,
    finished: bool,
    b: Seq<bool>,
)
    requires
        r.inv(),
        <AnyRunner<R> as Runner<W>>::step(&r, world, next, next_world, finished),
        b.len() == r.candidates().len(),
        forall|j: int, w: W, n: R, w1: W, f: bool|
            0 <= j < b.len() && #[trigger] r.candidates()[j].step(w, n, w1, f) ==> f == b[j],
    ensures
        finished == (exists|j: int| 0 <= j < b.len() && #[trigger] b[j]),
        finished ==> (next.winner() matches Some(i) && (i as int) < b.len() && b[i as int] && (
        forall|j: int| 0 <= j < i ==> !#[trigger] b[j])),
        !finished ==> next.candidates().len() == r.candidates().len(),
{
    let (ws, ns, k) = choose|ws: Seq<W>, ns: Seq<R>, k: int|
        {
            &&& #[trigger] polled(r.runners@, ws, ns, k, finished)
            &&& ws[0] == world
            &&& next_world == ws[k]
            &&& next.finished == finished
            &&& finished ==> k >= 1 && next.runners@.len() == 0 && next.output@ == Some(
                (k - 1) as usize,
            )
            &&& !finished ==> k == r.runners@.len() && next.runners@ == ns && next.output@
                == r.output@
        };
    assert forall|j: int| 0 <= j < k implies b[j] == wins(finished, j, k) by {
        assert(r.runners@[j].step(ws[j], ns[j], ws[j + 1], wins(finished, j, k)));
    }
    if finished {
        assert(b[k - 1]);
    } else {
        assert forall|j: int| 0 <= j < b.len() implies !b[j] by {
            assert(b[j] == wins(false, j, k));
        }
    }
}

} // verus!
