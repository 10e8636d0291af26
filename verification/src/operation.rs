//! The single-result rendezvous behind every asynchronous operation: a producer offers one
//! result, the consumer takes it, and a consumer that gives up marks the work cancelled.

use vstd::prelude::*;

use crate::error::{Error, ErrorKind, Result};

verus! {

/// What a rendezvous holds: the result waiting to be taken, whether the consumer has taken
/// one, and whether the consumer gave up first.
pub struct CompletionView<T> {
    pub value: Option<Result<T>>,
    pub finished: bool,
    pub cancelled: bool,
}

/// The state shared by the producer and the consumer of one operation.
pub struct CompletionSlot<T> {
    value: Option<Result<T>>,
    finished: bool,
    cancelled: bool,
}

impl<T> View for CompletionSlot<T> {
    type V = CompletionView<T>;

    closed spec fn view(&self) -> CompletionView<T> {
        CompletionView { value: self.value, finished: self.finished, cancelled: self.cancelled }
    }
}

impl<T> CompletionSlot<T> {
    /// An operation still waiting for its producer.
    pub fn pending() -> (slot: Self)
        ensures
            slot@ == (CompletionView::<T> { value: None, finished: false, cancelled: false }),
    {
        CompletionSlot { value: None, finished: false, cancelled: false }
    }

    /// An operation whose result is already known.
    pub fn ready(value: Result<T>) -> (slot: Self)
        ensures
            slot@ == (CompletionView::<T> { value: Some(value), finished: false, cancelled: false }),
    {
        let mut slot = Self::pending();
        slot.complete(value);
        slot
    }

    /// Offer the result. A result is accepted only while none is waiting; the answer says
    /// whether this one was.
    pub fn complete(&mut self, value: Result<T>) -> (accepted: bool)
        ensures
            accepted == (old(self)@.value is None),
            final(self)@ == if accepted {
                CompletionView { value: Some(value), ..old(self)@ }
            } else {
                old(self)@
            },
    {
        if self.value.is_some() {
            return false;
        }
        self.value = Some(value);
        true
    }

    /// Take the waiting result, if there is one; taking one finishes the operation.
    pub fn take_ready(&mut self) -> (taken: Option<Result<T>>)
        ensures
            taken == old(self)@.value,
            final(self)@ == (CompletionView::<T> {
                value: None,
                finished: old(self)@.finished || old(self)@.value is Some,
                cancelled: old(self)@.cancelled,
            }),
    {
        let taken = self.value.take();
        if taken.is_some() {
            self.finished = true;
        }
        taken
    }

    /// Whether a result is waiting.
    pub fn is_ready(&self) -> (ready: bool)
        ensures
            ready == self@.value is Some,
    {
        self.value.is_some()
    }

    /// Whether the consumer gave up before taking a result.
    pub fn is_cancelled(&self) -> (cancelled: bool)
        ensures
            cancelled == self@.cancelled,
    {
        self.cancelled
    }

    /// The consumer stops waiting: an unfinished operation becomes cancelled.
    pub fn abandon(&mut self)
        ensures
            final(self)@ == (CompletionView::<T> {
                cancelled: old(self)@.cancelled || !old(self)@.finished,
                ..old(self)@
            }),
    {
        if !self.finished {
            self.cancelled = true;
        }
    }

    /// The consumer's deadline passed before a result was taken: the operation is abandoned
    /// and the consumer gets a timeout.
    pub fn expire(&mut self) -> (error: Error)
        ensures
            error.category() == ErrorKind::Timeout,
            error.text() == "operation did not finish before the caller's deadline"@,
            final(self)@ == (CompletionView::<T> {
                cancelled: old(self)@.cancelled || !old(self)@.finished,
                ..old(self)@
            }),
    {
        self.abandon();
        Error::new(ErrorKind::Timeout, "operation did not finish before the caller's deadline")
    }
}

} // verus!
