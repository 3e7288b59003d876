use vstd::prelude::*;

use crate::output::Output;
use crate::runner::{IntoRunner, Runner};
use crate::token::{CancellationToken, CancellationTree};

verus! {

/// The event that asks the host application to exit.
#[derive(Clone, Copy, PartialEq, Eq, Structural, Debug, Default)]
pub struct AppExit;

/// Sends one event into the context's event queue.
pub struct SendEvent<E> {
    pub event: E,
}

/// Appends its event to the queue on its first uncancelled tick and
/// finishes.
pub struct SendRunner<E> {
    pub event: Option<E>,
    pub output: Output<()>,
}

/// Work that sends `event` once.
pub fn send<E>(event: E) -> (r: SendEvent<E>)
    ensures
        r.event == event,
{
    SendEvent { event }
}

/// Work that sends the default value of `E` once.
pub fn send_default<E: Default>() -> (r: SendEvent<E>)
    ensures
        call_ensures(E::default, (), r.event),
{
    send(E::default())
}

/// Work that sends [`AppExit`] once.
pub fn app_exit() -> (r: SendEvent<AppExit>)
    ensures
        r.event == AppExit,
{
    send(AppExit)
}

impl<E> SendRunner<E> {
    /// The event still to be sent, if any.
    pub open spec fn pending(&self) -> Option<E> {
        self.event
    }
}

impl<E> Runner<Vec<E>> for SendRunner<E> {
    type Out = ();

    open spec fn inv(&self) -> bool {
        true
    }

    open spec fn is_finished(&self) -> bool {
        self.event is None
    }

    open spec fn output(&self) -> Option<()> {
        self.output@
    }

    open spec fn step(&self, world: Vec<E>, next: Self, next_world: Vec<E>, finished: bool) -> bool {
        &&& finished
        &&& next.event is None
        &&& next_world@ == world@.push(self.event.unwrap())
    }

    fn run(&mut self, world: &mut Vec<E>, tokens: &CancellationTree, token: CancellationToken) -> (r:
        bool) {
        if tokens.is_cancelled(token) {
            return false;
        }
        let event = self.event.take().unwrap();
        world.push(event);
        self.output.set(());
        true
    }

    fn take_output(&mut self) -> (r: Option<()>) {
        self.output.take()
    }
}

impl<E> IntoRunner<Vec<E>> for SendEvent<E> {
    type Run = SendRunner<E>;

    open spec fn ready(&self) -> bool {
        true
    }

    open spec fn builds(&self, r: SendRunner<E>) -> bool {
        r.event == Some(self.event)
    }

    fn into_runner(self) -> (r: SendRunner<E>) {
        SendRunner { event: Some(self.event), output: Output::new() }
    }
}

/// Sending appends the event to the queue and finishes on the same tick.
pub proof fn lemma_send_step<E>(
    a: SendEvent<E>,
    r: SendRunner<E>,
    queue: Vec<E>,
    next: SendRunner<E>,
    next_queue: Vec<E>,
    finished: bool,
)
    requires
        <SendEvent<E> as IntoRunner<Vec<E>>>::builds(&a, r),
        <SendRunner<E> as Runner<Vec<E>>>::step(&r, queue, next, next_queue, finished),
    ensures
        finished,
        next_queue@ == queue@.push(a.event),
{
}

} // verus!
