use vstd::prelude::*;

verus! {

/// A single-slot result cell: a runner writes it once per activation and the
/// waiter consumes it exactly once.
pub struct Output<T> {
    slot: Option<T>,
}

impl<T> View for Output<T> {
    type V = Option<T>;

    closed spec fn view(&self) -> Option<T> {
        self.slot
    }
}

impl<T> Output<T> {
    /// An empty slot.
    pub fn new() -> (r: Self)
        ensures
            r@ is None,
    {
        Output { slot: None }
    }

    /// Stores `value`, replacing whatever the slot held.
    pub fn set(&mut self, value: T)
        ensures
            final(self)@ == Some(value),
    {
        self.slot = Some(value);
    }

    /// Consumes the stored value, leaving the slot empty.
    pub fn take(&mut self) -> (r: Option<T>)
        ensures
            r == old(self)@,
            final(self)@ is None,
    {
        self.slot.take()
    }

    /// Whether a value waits in the slot.
    pub fn is_some(&self) -> (r: bool)
        ensures
            r == self@ is Some,
    {
        self.slot.is_some()
    }
}

} // verus!
