//! The handle on which the result of scheduled work is awaited, and the slot
//! through which a result crosses from one thread to another.
use crate::channel::{first_of, ExecutionFailure, Receiver};
use vstd::prelude::*;

verus! {

/// A one-time wait token for one unit of scheduled work. It owns the
/// receiving end of the channel into which that work delivers.
pub struct Handle<T> {
    receiver: Receiver<T>,
}

impl<T> View for Handle<T> {
    type V = Seq<T>;

    /// What the work delivered, oldest first.
    closed spec fn view(&self) -> Seq<T> {
        self.receiver@
    }
}

impl<T: Send + 'static> Handle<T> {
    /// The handle for the work that delivers into `receiver`'s channel.
    pub fn new(receiver: Receiver<T>) -> (handle: Handle<T>)
        ensures
            handle@ == receiver@,
    {
        Handle { receiver }
    }

    /// Waits for the result. Consumes the handle, so a result is awaited once:
    /// the first value the work delivered, or the failure when it ended without
    /// delivering one.
    pub fn wait(self) -> (result: Result<T, ExecutionFailure>)
        ensures
            result == first_of(self@),
    {
        let mut receiver = self.receiver;
        receiver.recv()
    }
}

/// The result slot that stands between a unit of work on one thread and its
/// waiter on another. The worker populates it once; the waiter looks into it
/// each time it wakes, and goes back to waiting while it is not populated.
pub struct ResultSlot<T> {
    value: Option<Result<T, ExecutionFailure>>,
}

impl<T> View for ResultSlot<T> {
    type V = Option<Result<T, ExecutionFailure>>;

    /// What the slot holds: nothing yet, or the result of the work.
    closed spec fn view(&self) -> Option<Result<T, ExecutionFailure>> {
        self.value
    }
}

impl<T> ResultSlot<T> {
    /// A slot that is not populated yet.
    pub fn new() -> (slot: ResultSlot<T>)
        ensures
            slot@ is None,
    {
        ResultSlot { value: None }
    }

    /// Whether the slot is populated.
    pub fn is_populated(&self) -> (populated: bool)
        ensures
            populated == self@ is Some,
    {
        self.value.is_some()
    }

    /// Populates the slot, unless it is populated already: the first result
    /// stays. Says whether this result was taken.
    pub fn populate(&mut self, result: Result<T, ExecutionFailure>) -> (taken: bool)
        ensures
            taken == old(self)@ is None,
            taken ==> final(self)@ == Some(result),
            !taken ==> final(self)@ == old(self)@,
    {
        if self.value.is_none() {
            self.value = Some(result);
            true
        } else {
            false
        }
    }

    /// Takes the result out of the slot if it is populated; the waiter's
    /// check after each wake-up.
    pub fn take(&mut self) -> (result: Option<Result<T, ExecutionFailure>>)
        ensures
            result == old(self)@,
            final(self)@ is None,
    {
        self.value.take()
    }
}

} // verus!
