//! A strict first-in-first-out queue.

use std::collections::VecDeque;
use vstd::prelude::*;

verus! {

/// The state of a FIFO queue: the pending items, oldest first.
#[derive(Debug)]
pub struct Mpmc<T> {
    q: VecDeque<T>,
}

impl<T> View for Mpmc<T> {
    type V = Seq<T>;

    closed spec fn view(&self) -> Seq<T> {
        self.q@
    }
}

impl<T> Default for Mpmc<T> {
    fn default() -> (queue: Self)
        ensures
            queue@ == Seq::<T>::empty(),
    {
        Mpmc::new()
    }
}

impl<T> Mpmc<T> {
    pub fn new() -> (queue: Mpmc<T>)
        ensures
            queue@ == Seq::<T>::empty(),
    {
        Mpmc { q: VecDeque::new() }
    }

    pub fn len(&self) -> (n: usize)
        ensures
            n == self@.len(),
    {
        self.q.len()
    }

    /// Appends `t` behind everything that is pending.
    pub fn send(&mut self, t: T)
        ensures
            final(self)@ == old(self)@.push(t),
    {
        self.q.push_back(t);
    }

    /// Takes the oldest pending item, or nothing when the queue is empty
    /// and a caller has to wait for a send.
    pub fn recv(&mut self) -> (received: Option<T>)
        ensures
            old(self)@.len() == 0 ==> received is None && final(self)@ == old(self)@,
            old(self)@.len() > 0 ==> received == Some(old(self)@[0]) && final(self)@ == old(
                self,
            )@.subrange(1, old(self)@.len() as int),
    {
        self.q.pop_front()
    }
}

} // verus!
