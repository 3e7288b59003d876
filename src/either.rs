use vstd::prelude::*;

use crate::runner::{IntoRunner, Runner};
use crate::token::{CancellationToken, CancellationTree};

verus! {

/// One of two kinds: an action, a runner or an output of either kind.
pub enum Either<L, R> {
    Left(L),
    Right(R),
}

impl<W, L: Runner<W>, R: Runner<W>> Runner<W> for Either<L, R> {
    type Out = Either<L::Out, R::Out>;

    open spec fn inv(&self) -> bool {
        match self {
            Either::Left(l) => l.inv(),
            Either::Right(r) => r.inv(),
        }
    }

    open spec fn is_finished(&self) -> bool {
        match self {
            Either::Left(l) => l.is_finished(),
            Either::Right(r) => r.is_finished(),
        }
    }

    open spec fn output(&self) -> Option<Either<L::Out, R::Out>> {
        match self {
            Either::Left(l) => match l.output() {
                Some(v) => Some(Either::Left(v)),
                None => None,
            },
            Either::Right(r) => match r.output() {
                Some(v) => Some(Either::Right(v)),
                None => None,
            },
        }
    }

    /// The runner inside takes the step; the kind stays.
    open spec fn step(&self, world: W, next: Self, next_world: W, finished: bool) -> bool {
        match (self, next) {
            (Either::Left(l), Either::Left(l1)) => l.step(world, l1, next_world, finished),
            (Either::Right(r), Either::Right(r1)) => r.step(world, r1, next_world, finished),
            _ => false,
        }
    }

    fn run(&mut self, world: &mut W, tokens: &CancellationTree, token: CancellationToken) -> (r:
        bool) {
        match self {
            Either::Left(l) => l.run(world, tokens, token),
            Either::Right(r) => r.run(world, tokens, token),
        }
    }

    fn take_output(&mut self) -> (r: Option<Either<L::Out, R::Out>>) {
        match self {
            Either::Left(l) => match l.take_output() {
                Some(v) => Some(Either::Left(v)),
                None => None,
            },
            Either::Right(r) => match r.take_output() {
                Some(v) => Some(Either::Right(v)),
                None => None,
            },
        }
    }
}

impl<W, L: IntoRunner<W>, R: IntoRunner<W>> IntoRunner<W> for Either<L, R> {
    type Run = Either<L::Run, R::Run>;

    open spec fn ready(&self) -> bool {
        match self {
            Either::Left(l) => l.ready(),
            Either::Right(r) => r.ready(),
        }
    }

    open spec fn builds(&self, run: Either<L::Run, R::Run>) -> bool {
        match (self, run) {
            (Either::Left(l), Either::Left(l1)) => l.builds(l1),
            (Either::Right(r), Either::Right(r1)) => r.builds(r1),
            _ => false,
        }
    }

    fn into_runner(self) -> (run: Either<L::Run, R::Run>) {
        match self {
            Either::Left(l) => Either::Left(l.into_runner()),
            Either::Right(r) => Either::Right(r.into_runner()),
        }
    }
}

} // verus!
