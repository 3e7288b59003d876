use vstd::prelude::*;

use crate::runner::{fresh, Action, ActionSeed, Runner};

verus! {

/// Wraps the runner of one unit of work into a runner of another kind.
pub trait Remaker<W, R1: Runner<W>> {
    type Run: Runner<W>;

    /// `r` is what `inner` is wrapped into.
    spec fn wraps(&self, inner: R1, r: Self::Run) -> bool;

    fn wrap(&self, inner: R1) -> (r: Self::Run)
        requires
            fresh::<W, R1>(inner),
        ensures
            self.wraps(inner, r),
            fresh::<W, Self::Run>(r),
    ;
}

/// A seed whose runners are those of `seed`, wrapped by `maker`.
pub struct Remade<S, M> {
    pub seed: S,
    pub maker: M,
}

/// Builds a seed of a new kind out of an existing seed: each runner it
/// creates is the existing seed's runner for the same input, wrapped.
pub trait Remake<W>: Sized {
    fn remake<M>(self, maker: M) -> (r: Remade<Self, M>)
        ensures
            r.seed == self,
            r.maker == maker,
    ;
}

impl<W, S: ActionSeed<W>> Remake<W> for S {
    fn remake<M>(self, maker: M) -> (r: Remade<Self, M>) {
        Remade { seed: self, maker }
    }
}

impl<S, I> Action<S, I> {
    /// The same input, bound to the remade seed.
    pub fn remake<M>(self, maker: M) -> (r: Action<Remade<S, M>, I>)
        ensures
            r.seed.seed == self.seed,
            r.seed.maker == maker,
            r.input == self.input,
    {
        Action { seed: Remade { seed: self.seed, maker }, input: self.input }
    }
}

impl<W, S: ActionSeed<W>, M: Remaker<W, S::Run>> ActionSeed<W> for Remade<S, M> {
    type Input = S::Input;

    type Run = M::Run;

    open spec fn accepts(&self, input: S::Input) -> bool {
        self.seed.accepts(input)
    }

    open spec fn builds(&self, input: S::Input, r: M::Run) -> bool {
        exists|inner: S::Run|
            #[trigger] self.seed.builds(input, inner) && fresh::<W, S::Run>(inner)
                && self.maker.wraps(inner, r)
    }

    fn create_runner(&self, input: S::Input) -> (r: M::Run) {
        let inner = self.seed.create_runner(input);
        let r = self.maker.wrap(inner);
        assert(self.seed.builds(input, inner));
        r
    }
}

} // verus!
