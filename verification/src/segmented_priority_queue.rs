//! A priority queue that bounds starvation with two rotating buffers.
//!
//! Pushes enter the write buffer and pops leave from the read buffer. When
//! the read buffer is empty a pop first exchanges the two, so everything
//! that was pending at that moment is served before anything pushed later.

use crate::prioritized::{
    is_ascending, lemma_pop_removes, lemma_push_adds, spec_push, Prioritized,
};
use crate::priority_queue::PriorityQueue;
use vstd::multiset::Multiset;
use vstd::prelude::*;

verus! {

/// The abstract contents of a segmented queue.
pub struct Segments<T> {
    /// The current epoch, in ascending priority: its last item is served next.
    pub reader: Seq<Prioritized<T>>,
    /// The items pushed since the last rotation, in ascending priority.
    pub writer: Seq<Prioritized<T>>,
}

/// One operation on a segmented queue.
pub enum Op<T> {
    Push(Prioritized<T>),
    Pop,
}

impl<T> Segments<T> {
    pub open spec fn wf(self) -> bool {
        is_ascending(self.reader) && is_ascending(self.writer)
    }

    /// Everything that the queue holds.
    pub open spec fn contents(self) -> Multiset<Prioritized<T>> {
        self.reader.to_multiset().add(self.writer.to_multiset())
    }

    /// The contents after `item` was pushed.
    pub open spec fn pushed(self, item: Prioritized<T>) -> Segments<T> {
        Segments { reader: self.reader, writer: spec_push(self.writer, item) }
    }

    /// The contents after the rotation that a pop performs when the read
    /// buffer is empty.
    pub open spec fn rotated(self) -> Segments<T> {
        if self.reader.len() == 0 {
            Segments { reader: self.writer, writer: Seq::empty() }
        } else {
            self
        }
    }

    /// The item that a pop serves, if any is pending.
    pub open spec fn served(self) -> Option<Prioritized<T>> {
        if self.rotated().reader.len() == 0 {
            None
        } else {
            Some(self.rotated().reader.last())
        }
    }

    /// The contents after a pop.
    pub open spec fn popped(self) -> Segments<T> {
        if self.rotated().reader.len() == 0 {
            self.rotated()
        } else {
            Segments { reader: self.rotated().reader.drop_last(), writer: self.rotated().writer }
        }
    }

    /// The contents after one operation.
    pub open spec fn step(self, op: Op<T>) -> Segments<T> {
        match op {
            Op::Push(item) => self.pushed(item),
            Op::Pop => self.popped(),
        }
    }

    /// The contents after `ops` have run from these contents.
    pub open spec fn after(self, ops: Seq<Op<T>>) -> Segments<T>
        decreases ops.len(),
    {
        if ops.len() == 0 {
            self
        } else {
            self.step(ops[0]).after(ops.subrange(1, ops.len() as int))
        }
    }

    /// The items that the pops among `ops` hand out when `ops` run from
    /// these contents.
    pub open spec fn served_items(self, ops: Seq<Op<T>>) -> Multiset<Prioritized<T>>
        decreases ops.len(),
    {
        if ops.len() == 0 {
            Multiset::empty()
        } else {
            let rest = self.step(ops[0]).served_items(ops.subrange(1, ops.len() as int));
            match (ops[0], self.served()) {
                (Op::Pop, Some(item)) => rest.insert(item),
                _ => rest,
            }
        }
    }

    /// What the pops among `ops` return, in order, when `ops` run from
    /// these contents.
    pub open spec fn trace(self, ops: Seq<Op<T>>) -> Seq<Option<Prioritized<T>>>
        decreases ops.len(),
    {
        if ops.len() == 0 {
            Seq::empty()
        } else {
            let rest = self.step(ops[0]).trace(ops.subrange(1, ops.len() as int));
            match ops[0] {
                Op::Push(_) => rest,
                Op::Pop => seq![self.served()] + rest,
            }
        }
    }
}

/// The items that the pushes among `ops` bring.
pub open spec fn pushed_items<T>(ops: Seq<Op<T>>) -> Multiset<Prioritized<T>>
    decreases ops.len(),
{
    if ops.len() == 0 {
        Multiset::empty()
    } else {
        let rest = pushed_items(ops.subrange(1, ops.len() as int));
        match ops[0] {
            Op::Push(item) => rest.insert(item),
            Op::Pop => rest,
        }
    }
}

/// Whatever is pushed and popped from now on, in any interleaving and under
/// any priority, the items of the current epoch are served first and in
/// priority order: the `k`-th pop returns the `k`-th highest of them.
pub proof fn lemma_epoch_is_served_first<T>(s: Segments<T>, ops: Seq<Op<T>>, k: int)
    requires
        0 <= k < s.reader.len(),
        k < s.trace(ops).len(),
    ensures
        s.trace(ops)[k] == Some(s.reader[s.reader.len() - 1 - k]),
    decreases ops.len(),
{
    let rest = ops.subrange(1, ops.len() as int);
    match ops[0] {
        Op::Push(item) => {
            lemma_epoch_is_served_first(s.pushed(item), rest, k);
        },
        Op::Pop => {
            if k > 0 {
                lemma_epoch_is_served_first(s.popped(), rest, k - 1);
            }
        },
    }
}

/// A push adds the item to what the queue holds, and nothing else.
pub proof fn lemma_push_conserves<T>(s: Segments<T>, item: Prioritized<T>)
    ensures
        s.pushed(item).contents() == s.contents().insert(item),
{
    lemma_push_adds(s.writer, item);
    assert(s.pushed(item).contents() =~= s.contents().insert(item));
}

/// A pop takes the served item out of what the queue holds, and nothing
/// else; it serves nothing only when the queue holds nothing.
pub proof fn lemma_pop_conserves<T>(s: Segments<T>)
    ensures
        match s.served() {
            Some(item) => s.contents().count(item) > 0 && s.popped().contents()
                == s.contents().remove(item),
            None => s.contents().len() == 0 && s.popped().contents() == s.contents(),
        },
{
    s.reader.to_multiset_ensures();
    s.writer.to_multiset_ensures();
    let r = s.rotated();
    assert(Seq::<Prioritized<T>>::empty().to_multiset() =~= Multiset::<Prioritized<T>>::empty())
        by {
        Seq::<Prioritized<T>>::empty().to_multiset_ensures();
    }
    assert(r.contents() =~= s.contents());
    if r.reader.len() > 0 {
        lemma_pop_removes(r.reader);
        assert(s.popped().contents() =~= s.contents().remove(r.reader.last()));
    } else {
        assert(s.contents().len() == 0);
    }
}

/// In any interleaving of pushes and pops nothing is lost and nothing
/// comes twice: what was held and what is pushed is what the pops hand
/// out and what is still held.
pub proof fn lemma_every_item_once<T>(s: Segments<T>, ops: Seq<Op<T>>)
    ensures
        s.contents().add(pushed_items(ops)) == s.served_items(ops).add(s.after(ops).contents()),
    decreases ops.len(),
{
    if ops.len() == 0 {
        assert(s.contents().add(pushed_items(ops)) =~= s.served_items(ops).add(
            s.after(ops).contents(),
        ));
    } else {
        let rest = ops.subrange(1, ops.len() as int);
        let next = s.step(ops[0]);
        lemma_every_item_once(next, rest);
        assert(s.after(ops) == next.after(rest));
        match ops[0] {
            Op::Push(item) => {
                lemma_push_conserves(s, item);
                assert(pushed_items(ops) == pushed_items(rest).insert(item));
                assert(s.served_items(ops) == next.served_items(rest));
                assert(s.contents().add(pushed_items(ops)) =~= next.contents().add(
                    pushed_items(rest),
                ));
            },
            Op::Pop => {
                lemma_pop_conserves(s);
                assert(pushed_items(ops) == pushed_items(rest));
                match s.served() {
                    Some(item) => {
                        assert(s.served_items(ops) == next.served_items(rest).insert(item));
                        assert(s.contents() =~= next.contents().insert(item));
                        assert(s.contents().add(pushed_items(ops)) =~= next.contents().add(
                            pushed_items(rest),
                        ).insert(item));
                        assert(s.served_items(ops).add(s.after(ops).contents())
                            =~= next.served_items(rest).add(next.after(rest).contents()).insert(
                            item,
                        ));
                    },
                    None => {
                        assert(s.served_items(ops) == next.served_items(rest));
                    },
                }
            },
        }
    }
}

/// The state of a segmented priority queue.
#[derive(Debug)]
pub struct SegmentedPriorityQueue<T> {
    reader: PriorityQueue<T>,
    writer: PriorityQueue<T>,
}

impl<T> View for SegmentedPriorityQueue<T> {
    type V = Segments<T>;

    closed spec fn view(&self) -> Segments<T> {
        Segments { reader: self.reader@, writer: self.writer@ }
    }
}

impl<T> Default for SegmentedPriorityQueue<T> {
    fn default() -> (queue: Self)
        ensures
            queue.wf(),
            queue@.reader == Seq::<Prioritized<T>>::empty(),
            queue@.writer == Seq::<Prioritized<T>>::empty(),
    {
        SegmentedPriorityQueue::new()
    }
}

impl<T> SegmentedPriorityQueue<T> {
    /// Both buffers are in ascending priority.
    pub open spec fn wf(&self) -> bool {
        self@.wf()
    }

    pub fn new() -> (queue: SegmentedPriorityQueue<T>)
        ensures
            queue.wf(),
            queue@.reader == Seq::<Prioritized<T>>::empty(),
            queue@.writer == Seq::<Prioritized<T>>::empty(),
    {
        SegmentedPriorityQueue { reader: PriorityQueue::new(), writer: PriorityQueue::new() }
    }

    pub fn is_empty(&self) -> (empty: bool)
        ensures
            empty == (self@.reader.len() == 0 && self@.writer.len() == 0),
    {
        self.reader.is_empty() && self.writer.is_empty()
    }

    /// Enqueues `t` under `priority` into the write buffer.
    pub fn push(&mut self, t: T, priority: u64)
        requires
            old(self).wf(),
        ensures
            final(self).wf(),
            final(self)@ == old(self)@.pushed((Prioritized { priority, t })),
    {
        self.writer.push(t, priority);
    }

    /// Dequeues the highest priority of the current epoch. When the read
    /// buffer is empty the buffers are exchanged first; when both are
    /// empty nothing is returned and a caller has to wait for a push.
    pub fn pop(&mut self) -> (served: Option<T>)
        requires
            old(self).wf(),
        ensures
            final(self).wf(),
            final(self)@ == old(self)@.popped(),
            served == match old(self)@.served() {
                Some(item) => Some(item.t),
                None => None,
            },
    {
        if self.reader.is_empty() {
            std::mem::swap(&mut self.reader, &mut self.writer);
        }
        let served = self.reader.pop();
        proof {
            assert(self@.reader =~= old(self)@.popped().reader);
            assert(self@.writer =~= old(self)@.popped().writer);
        }
        served
    }
}

} // verus!
