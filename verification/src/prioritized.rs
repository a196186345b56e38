//! Items tagged with a numeric priority, and the order in which a queue keeps them.

use vstd::multiset::Multiset;
use vstd::prelude::*;

verus! {

/// An item together with the priority it was submitted under.
#[derive(Debug)]
pub struct Prioritized<T> {
    pub priority: u64,
    pub t: T,
}

/// Priorities never decrease along `s`, so the last element is a maximum.
pub open spec fn is_ascending<T>(s: Seq<Prioritized<T>>) -> bool {
    forall|i: int, j: int| 0 <= i <= j < s.len() ==> s[i].priority <= s[j].priority
}

/// Index of the first element of `s` whose priority is at least `priority`,
/// or the length of `s` when there is none.
pub open spec fn rank<T>(s: Seq<Prioritized<T>>, priority: u64) -> int
    decreases s.len(),
{
    if s.len() == 0 || s[0].priority >= priority {
        0
    } else {
        1 + rank(s.subrange(1, s.len() as int), priority)
    }
}

/// The queue contents after `item` has entered `s`: it goes below every
/// element of equal or higher priority, so equal priorities leave in
/// arrival order.
pub open spec fn spec_push<T>(s: Seq<Prioritized<T>>, item: Prioritized<T>) -> Seq<Prioritized<T>> {
    s.insert(rank(s, item.priority), item)
}

/// The contents after `items` have entered an empty queue one by one.
pub open spec fn after_pushes<T>(items: Seq<Prioritized<T>>) -> Seq<Prioritized<T>>
    decreases items.len(),
{
    if items.len() == 0 {
        Seq::empty()
    } else {
        spec_push(after_pushes(items.drop_last()), items.last())
    }
}

/// The items in the order in which repeated pops hand them out.
pub open spec fn drain<T>(s: Seq<Prioritized<T>>) -> Seq<Prioritized<T>>
    decreases s.len(),
{
    if s.len() == 0 {
        Seq::empty()
    } else {
        seq![s.last()] + drain(s.drop_last())
    }
}

/// `rank` stays within the sequence and splits it into the strictly lower
/// priorities and the rest.
pub proof fn lemma_rank_splits<T>(s: Seq<Prioritized<T>>, priority: u64)
    ensures
        0 <= rank(s, priority) <= s.len(),
        forall|k: int| 0 <= k < rank(s, priority) ==> s[k].priority < priority,
        rank(s, priority) < s.len() ==> s[rank(s, priority)].priority >= priority,
    decreases s.len(),
{
    if s.len() == 0 || s[0].priority >= priority {
    } else {
        let rest = s.subrange(1, s.len() as int);
        lemma_rank_splits(rest, priority);
        assert forall|k: int| 0 <= k < rank(s, priority) implies s[k].priority < priority by {
            if k > 0 {
                assert(s[k] == rest[k - 1]);
            }
        }
        if rank(s, priority) < s.len() {
            assert(s[rank(s, priority)] == rest[rank(rest, priority)]);
        }
    }
}

/// An index that splits `s` as `rank` does is the rank.
pub proof fn lemma_rank_is<T>(s: Seq<Prioritized<T>>, priority: u64, i: int)
    requires
        0 <= i <= s.len(),
        forall|k: int| 0 <= k < i ==> s[k].priority < priority,
        i < s.len() ==> s[i].priority >= priority,
    ensures
        rank(s, priority) == i,
    decreases s.len(),
{
    if i == 0 {
    } else {
        assert(s[0].priority < priority);
        let rest = s.subrange(1, s.len() as int);
        assert forall|k: int| 0 <= k < i - 1 implies rest[k].priority < priority by {
            assert(rest[k] == s[k + 1]);
        }
        lemma_rank_is(rest, priority, i - 1);
    }
}

/// Entering an ordered queue keeps it ordered.
pub proof fn lemma_push_keeps_ascending<T>(s: Seq<Prioritized<T>>, item: Prioritized<T>)
    requires
        is_ascending(s),
    ensures
        is_ascending(spec_push(s, item)),
        spec_push(s, item).len() == s.len() + 1,
{
    lemma_rank_splits(s, item.priority);
    let r = rank(s, item.priority);
    let out = spec_push(s, item);
    assert forall|i: int, j: int| 0 <= i <= j < out.len() implies out[i].priority
        <= out[j].priority by {
        if j < r {
            assert(out[i] == s[i] && out[j] == s[j]);
        } else if j == r {
            if i < r {
                assert(out[i] == s[i]);
            }
        } else {
            assert(out[j] == s[j - 1]);
            assert(s[r].priority <= s[j - 1].priority);
            if i < r {
                assert(out[i] == s[i]);
            } else if i > r {
                assert(out[i] == s[i - 1]);
            }
        }
    }
}

/// Whatever entered, the queue is ordered and holds one element per push.
pub proof fn lemma_after_pushes<T>(items: Seq<Prioritized<T>>)
    ensures
        is_ascending(after_pushes(items)),
        after_pushes(items).len() == items.len(),
    decreases items.len(),
{
    if items.len() > 0 {
        lemma_after_pushes(items.drop_last());
        lemma_push_keeps_ascending(after_pushes(items.drop_last()), items.last());
    }
}

/// Draining hands the elements out from the last to the first.
pub proof fn lemma_drain_reverses<T>(s: Seq<Prioritized<T>>)
    ensures
        drain(s).len() == s.len(),
        forall|i: int| 0 <= i < s.len() ==> (#[trigger] drain(s)[i]) == s[s.len() - 1 - i],
    decreases s.len(),
{
    if s.len() > 0 {
        lemma_drain_reverses(s.drop_last());
        assert forall|i: int| 0 <= i < s.len() implies (#[trigger] drain(s)[i]) == s[s.len() - 1
            - i] by {
            if i > 0 {
                assert(drain(s)[i] == drain(s.drop_last())[i - 1]);
            }
        }
    }
}

/// Entering adds the item to the contents of the queue, and nothing else.
pub proof fn lemma_push_adds<T>(s: Seq<Prioritized<T>>, item: Prioritized<T>)
    ensures
        spec_push(s, item).to_multiset() == s.to_multiset().insert(item),
{
    lemma_rank_splits(s, item.priority);
    let r = rank(s, item.priority);
    let out = spec_push(s, item);
    assert(out.remove(r) =~= s);
    assert(out[r] == item);
    vstd::seq_lib::to_multiset_remove(out, r);
    out.to_multiset_ensures();
    assert(out.contains(item));
    assert(out.to_multiset() =~= s.to_multiset().insert(item));
}

/// Leaving takes the last item out of the contents, and nothing else.
pub proof fn lemma_pop_removes<T>(s: Seq<Prioritized<T>>)
    requires
        s.len() > 0,
    ensures
        s.to_multiset().count(s.last()) > 0,
        s.drop_last().to_multiset() == s.to_multiset().remove(s.last()),
{
    assert(s.drop_last() =~= s.remove(s.len() - 1));
    vstd::seq_lib::to_multiset_remove(s, s.len() - 1);
    s.to_multiset_ensures();
    assert(s.contains(s.last()));
}

/// Draining hands out exactly what the queue holds.
pub proof fn lemma_drain_conserves<T>(s: Seq<Prioritized<T>>)
    ensures
        drain(s).to_multiset() == s.to_multiset(),
    decreases s.len(),
{
    if s.len() == 0 {
        assert(drain(s) =~= s);
    } else {
        lemma_drain_conserves(s.drop_last());
        lemma_pop_removes(s);
        let head = seq![s.last()];
        let nothing = Seq::<Prioritized<T>>::empty();
        vstd::seq_lib::lemma_multiset_commutative(head, drain(s.drop_last()));
        assert(head =~= nothing.push(s.last()));
        vstd::seq_lib::to_multiset_build(nothing, s.last());
        nothing.to_multiset_ensures();
        assert(nothing.to_multiset() =~= Multiset::<Prioritized<T>>::empty());
        assert(drain(s).to_multiset() =~= s.to_multiset());
    }
}

/// Any pushes followed by as many pops hand out exactly the items that
/// were pushed: none is lost and none comes twice.
pub proof fn lemma_pushes_then_pops_conserve<T>(items: Seq<Prioritized<T>>)
    ensures
        drain(after_pushes(items)).to_multiset() == items.to_multiset(),
    decreases items.len(),
{
    lemma_drain_conserves(after_pushes(items));
    lemma_after_pushes_conserve(items);
}

/// The queue holds exactly what entered it.
pub proof fn lemma_after_pushes_conserve<T>(items: Seq<Prioritized<T>>)
    ensures
        after_pushes(items).to_multiset() == items.to_multiset(),
    decreases items.len(),
{
    if items.len() == 0 {
        assert(after_pushes(items) =~= items);
    } else {
        lemma_after_pushes_conserve(items.drop_last());
        lemma_push_adds(after_pushes(items.drop_last()), items.last());
        vstd::seq_lib::to_multiset_build(items.drop_last(), items.last());
        assert(items.drop_last().push(items.last()) =~= items);
    }
}

/// Any pushes followed by as many pops serve priorities in non-increasing
/// order, one item per push.
pub proof fn lemma_pushes_then_pops_descend<T>(items: Seq<Prioritized<T>>, i: int, j: int)
    requires
        0 <= i <= j < items.len(),
    ensures
        drain(after_pushes(items)).len() == items.len(),
        drain(after_pushes(items))[i].priority >= drain(after_pushes(items))[j].priority,
{
    let q = after_pushes(items);
    lemma_after_pushes(items);
    lemma_drain_reverses(q);
    assert(drain(q)[i] == q[q.len() - 1 - i]);
    assert(drain(q)[j] == q[q.len() - 1 - j]);
}

} // verus!
