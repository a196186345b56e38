//! A priority queue that serves the highest priority first.

use crate::prioritized::{is_ascending, lemma_rank_is, lemma_push_keeps_ascending, spec_push, Prioritized};
use vstd::prelude::*;

verus! {

/// The state of a priority queue keyed by an unsigned priority. The
/// pending items are kept in ascending priority; the last one is served
/// next.
#[derive(Debug)]
pub struct PriorityQueue<T> {
    q: Vec<Prioritized<T>>,
}

impl<T> View for PriorityQueue<T> {
    type V = Seq<Prioritized<T>>;

    closed spec fn view(&self) -> Seq<Prioritized<T>> {
        self.q@
    }
}

impl<T> PriorityQueue<T> {
    /// The pending items are in ascending priority.
    pub open spec fn wf(&self) -> bool {
        is_ascending(self@)
    }

    pub fn new() -> (queue: PriorityQueue<T>)
        ensures
            queue@ == Seq::<Prioritized<T>>::empty(),
            queue.wf(),
    {
        PriorityQueue { q: Vec::new() }
    }

    pub fn len(&self) -> (n: usize)
        ensures
            n == self@.len(),
    {
        self.q.len()
    }

    pub fn is_empty(&self) -> (empty: bool)
        ensures
            empty == (self@.len() == 0),
    {
        self.q.len() == 0
    }

    /// Enqueues `t` under `priority`.
    pub fn push(&mut self, t: T, priority: u64)
        requires
            old(self).wf(),
        ensures
            final(self).wf(),
            final(self)@ == spec_push(old(self)@, (Prioritized { priority, t })),
    {
        let mut lo: usize = 0;
        let mut hi: usize = self.q.len();
        while lo < hi
            invariant
                self.q@ == old(self).q@,
                is_ascending(self.q@),
                0 <= lo <= hi <= self.q@.len(),
                forall|k: int| 0 <= k < lo ==> self.q@[k].priority < priority,
                forall|k: int| hi <= k < self.q@.len() ==> self.q@[k].priority >= priority,
            decreases hi - lo,
        {
            let mid: usize = lo + (hi - lo) / 2;
            if self.q[mid].priority < priority {
                lo = mid + 1;
            } else {
                hi = mid;
            }
        }
        let i: usize = lo;
        proof {
            lemma_rank_is(self.q@, priority, i as int);
            lemma_push_keeps_ascending(self.q@, Prioritized { priority, t });
        }
        self.q.insert(i, Prioritized { priority, t });
    }

    /// Dequeues an item of the highest priority, or nothing when the
    /// queue is empty and a caller has to wait for a push.
    pub fn pop(&mut self) -> (served: Option<T>)
        requires
            old(self).wf(),
        ensures
            final(self).wf(),
            old(self)@.len() == 0 ==> served is None && final(self)@ == old(self)@,
            old(self)@.len() > 0 ==> served == Some(old(self)@.last().t) && final(self)@ == old(
                self,
            )@.drop_last(),
            forall|i: int|
                0 <= i < old(self)@.len() ==> old(self)@[i].priority <= old(self)@.last().priority,
    {
        match self.q.pop() {
            Some(item) => Some(item.t),
            None => None,
        }
    }
}

} // verus!
