//! The slot of a single-value channel.
//!
//! A sender records exactly one outcome in the slot: a value, or the fact
//! that it went away without sending. The receiver takes that outcome out
//! exactly once, either by asking until it is there or by leaving a
//! resumption handle that the sender's side fires after recording.

use vstd::prelude::*;

verus! {

/// The outcome recorded when a sender is discarded before it has sent.
#[derive(Debug, Clone, Copy, PartialEq, Eq, Structural)]
pub struct SenderDropped;

/// The abstract state of a slot.
pub struct Slot<T, W> {
    /// The recorded outcome, until the receiver takes it.
    pub value: Option<Result<T, SenderDropped>>,
    /// Whether an outcome was ever recorded.
    pub recorded: bool,
    /// The resumption handle that the receiver registered last.
    pub waker: Option<W>,
}

impl<T, W> Slot<T, W> {
    /// A slot as a new channel has it.
    pub open spec fn fresh() -> Slot<T, W> {
        Slot { value: None, recorded: false, waker: None }
    }

    /// An outcome is held only after one was recorded.
    pub open spec fn wf(self) -> bool {
        self.value is Some ==> self.recorded
    }

    /// The slot after the sender's side recorded `outcome`.
    pub open spec fn record(self, outcome: Result<T, SenderDropped>) -> Slot<T, W> {
        Slot { value: Some(outcome), recorded: true, waker: self.waker }
    }

    /// The slot after the receiver asked for the outcome.
    pub open spec fn take(self) -> Slot<T, W> {
        Slot { value: None, recorded: self.recorded, waker: self.waker }
    }

    /// The slot after the receiver registered `waker`.
    pub open spec fn register(self, waker: W) -> Slot<T, W> {
        Slot { value: self.value, recorded: self.recorded, waker: Some(waker) }
    }
}

/// A value sent into a new channel is received once, and only once.
pub proof fn lemma_send_then_recv<T, W>(v: T)
    ensures
        Slot::<T, W>::fresh().record(Ok(v)).value == Some(Ok::<T, SenderDropped>(v)),
        Slot::<T, W>::fresh().record(Ok(v)).take().value is None,
        Slot::<T, W>::fresh().record(Ok(v)).take().recorded,
{
}

/// Once an outcome was recorded the slot tells so for ever, whatever the
/// receiver does: a second send is always detected.
pub proof fn lemma_recorded_stays<T, W>(s: Slot<T, W>, waker: W)
    requires
        s.recorded,
    ensures
        s.take().recorded,
        s.register(waker).recorded,
        s.register(waker).take().recorded,
{
}

/// A sender that goes away unsent leaves the sender-dropped outcome.
pub proof fn lemma_drop_then_recv<T, W>()
    ensures
        Slot::<T, W>::fresh().record(Err(SenderDropped)).value == Some(
            Err::<T, SenderDropped>(SenderDropped),
        ),
{
}

/// The slot that a sender and a receiver share.
#[derive(Debug)]
pub struct Shared<T, W> {
    value: Option<Result<T, SenderDropped>>,
    recorded: bool,
    waker: Option<W>,
}

impl<T, W> View for Shared<T, W> {
    type V = Slot<T, W>;

    closed spec fn view(&self) -> Slot<T, W> {
        Slot { value: self.value, recorded: self.recorded, waker: self.waker }
    }
}

impl<T, W> Default for Shared<T, W> {
    fn default() -> (shared: Self)
        ensures
            shared@ == Slot::<T, W>::fresh(),
            shared@.wf(),
    {
        Shared::new()
    }
}

impl<T, W> Shared<T, W> {
    pub fn new() -> (shared: Shared<T, W>)
        ensures
            shared@ == Slot::<T, W>::fresh(),
            shared@.wf(),
    {
        Shared { value: None, recorded: false, waker: None }
    }

    /// Whether an outcome was ever recorded: a second one must not follow.
    pub fn is_recorded(&self) -> (recorded: bool)
        ensures
            recorded == self@.recorded,
    {
        self.recorded
    }

    /// Whether an outcome is waiting for the receiver.
    pub fn is_filled(&self) -> (filled: bool)
        ensures
            filled == (self@.value is Some),
    {
        self.value.is_some()
    }

    /// Records the one outcome of the channel and hands back the
    /// registered resumption handle, which the caller fires once the slot
    /// is released.
    pub fn send_inner(&mut self, outcome: Result<T, SenderDropped>) -> (fire: Option<W>)
        requires
            old(self)@.wf(),
            !old(self)@.recorded,
        ensures
            final(self)@ == (Slot { waker: None, ..old(self)@.record(outcome) }),
            final(self)@.wf(),
            fire == old(self)@.waker,
    {
        self.value = Some(outcome);
        self.recorded = true;
        self.waker.take()
    }

    /// Records the value `t`.
    pub fn send(&mut self, t: T) -> (fire: Option<W>)
        requires
            old(self)@.wf(),
            !old(self)@.recorded,
        ensures
            final(self)@ == (Slot { waker: None, ..old(self)@.record(Ok(t)) }),
            final(self)@.wf(),
            fire == old(self)@.waker,
    {
        self.send_inner(Ok(t))
    }

    /// Records that the sender went away. Nothing happens when it had sent
    /// before.
    pub fn drop_sender(&mut self) -> (fire: Option<W>)
        requires
            old(self)@.wf(),
        ensures
            final(self)@.wf(),
            old(self)@.recorded ==> final(self)@ == old(self)@ && fire is None,
            !old(self)@.recorded ==> final(self)@ == (Slot {
                waker: None,
                ..old(self)@.record(Err(SenderDropped))
            }) && fire == old(self)@.waker,
    {
        if self.recorded {
            None
        } else {
            self.send_inner(Err(SenderDropped))
        }
    }

    /// Takes the recorded outcome, or nothing when none is there and the
    /// receiver has to wait.
    pub fn recv(&mut self) -> (outcome: Option<Result<T, SenderDropped>>)
        requires
            old(self)@.wf(),
        ensures
            final(self)@.wf(),
            outcome == old(self)@.value,
            final(self)@ == old(self)@.take(),
    {
        self.value.take()
    }

    /// Registers `waker` as the resumption handle, then takes the recorded
    /// outcome if there is one. Nothing means "not ready": the handle will
    /// be fired when an outcome is recorded.
    pub fn poll(&mut self, waker: W) -> (outcome: Option<Result<T, SenderDropped>>)
        requires
            old(self)@.wf(),
        ensures
            final(self)@.wf(),
            outcome == old(self)@.value,
            final(self)@ == old(self)@.register(waker).take(),
    {
        self.waker = Some(waker);
        self.value.take()
    }
}

} // verus!
