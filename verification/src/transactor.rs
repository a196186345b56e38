//! Transactors: transformations of write batches, each applied only to
//! the batches that touch the keys it is interested in.

use crate::bytes::{bytes_eq, bytes_lt, lex_lt, Bytes};
use crate::write_batch::{absent, lemma_absent, lemma_present, WriteBatch};
use vstd::prelude::*;

verus! {

/// One end of a range of keys.
#[derive(Debug)]
pub enum Bound {
    Included(Bytes),
    Excluded(Bytes),
    Unbounded,
}

impl Bound {
    /// `key` is not below this lower end.
    pub open spec fn admits_above(self, key: Seq<u8>) -> bool {
        match self {
            Bound::Included(start) => !lex_lt(key, start@),
            Bound::Excluded(start) => lex_lt(start@, key),
            Bound::Unbounded => true,
        }
    }

    /// `key` is not above this upper end.
    pub open spec fn admits_below(self, key: Seq<u8>) -> bool {
        match self {
            Bound::Included(end) => !lex_lt(end@, key),
            Bound::Excluded(end) => lex_lt(key, end@),
            Bound::Unbounded => true,
        }
    }

    /// Whether `key` is not below this lower end.
    pub fn is_start_of(&self, key: &[u8]) -> (admitted: bool)
        ensures
            admitted == self.admits_above(key@),
    {
        match self {
            Bound::Included(start) => !bytes_lt(key, start.as_slice()),
            Bound::Excluded(start) => bytes_lt(start.as_slice(), key),
            Bound::Unbounded => true,
        }
    }

    /// Whether `key` is not above this upper end.
    pub fn is_end_of(&self, key: &[u8]) -> (admitted: bool)
        ensures
            admitted == self.admits_below(key@),
    {
        match self {
            Bound::Included(end) => !bytes_lt(end.as_slice(), key),
            Bound::Excluded(end) => bytes_lt(key, end.as_slice()),
            Bound::Unbounded => true,
        }
    }
}

/// The keys that a transactor is interested in.
#[derive(Debug)]
pub enum InterestFilter {
    Key(Bytes),
    Range { start: Bound, end: Bound },
}

impl InterestFilter {
    /// `key` is one of the keys of interest.
    pub open spec fn admits(self, key: Seq<u8>) -> bool {
        match self {
            InterestFilter::Key(match_key) => key == match_key@,
            InterestFilter::Range { start, end } => start.admits_above(key) && end.admits_below(
                key,
            ),
        }
    }

    /// `input` writes a key of interest.
    pub open spec fn interested_in(self, input: Map<Seq<u8>, Seq<u8>>) -> bool {
        exists|key: Seq<u8>| input.contains_key(key) && self.admits(key)
    }

    /// Whether `key` is one of the keys of interest.
    pub fn admits_key(&self, key: &[u8]) -> (admitted: bool)
        ensures
            admitted == self.admits(key@),
    {
        match self {
            InterestFilter::Key(match_key) => bytes_eq(key, match_key.as_slice()),
            InterestFilter::Range { start, end } => start.is_start_of(key) && end.is_end_of(key),
        }
    }

    /// Whether `input` writes a key of interest.
    pub fn matches(&self, input: &WriteBatch) -> (hit: bool)
        requires
            input.wf(),
        ensures
            hit == self.interested_in(input@),
    {
        let n: usize = input.len();
        let mut i: usize = 0;
        proof {
            input.lemma_view();
        }
        while i < n
            invariant
                input.wf(),
                n == input.entries().len(),
                0 <= i <= n,
                forall|k: int| 0 <= k < i ==> !self.admits(input.entries()[k].key@),
            decreases n - i,
        {
            if self.admits_key(input.entry(i).key.as_slice()) {
                proof {
                    input.lemma_view();
                    lemma_present(input.entries(), i as int);
                }
                return true;
            }
            i = i + 1;
        }
        proof {
            input.lemma_view();
            assert forall|key: Seq<u8>| input@.contains_key(key) implies !self.admits(key) by {
                if absent(input.entries(), key) {
                    lemma_absent(input.entries(), key);
                } else {
                    let k = choose|k: int|
                        0 <= k < input.entries().len() && input.entries()[k].key@ == key;
                    assert(!self.admits(input.entries()[k].key@));
                }
            }
        }
        false
    }
}

/// The collection that a transactor belongs to.
#[derive(Debug, Clone, Copy, PartialEq, Eq, Structural)]
pub struct CollectionId {
    pub value: u64,
}

/// A transformation of write batches with the filter that selects the
/// batches it sees.
pub struct Transactor<F> {
    pub collection_id: CollectionId,
    pub filter: InterestFilter,
    pub transformer: F,
}

impl<F: Fn(WriteBatch) -> WriteBatch> Transactor<F> {
    /// `output` is what this transactor makes of `input`: the
    /// transformer's result where the filter matches, else `input`.
    pub open spec fn transforms(self, input: WriteBatch, output: WriteBatch) -> bool {
        if self.filter.interested_in(input@) {
            self.transformer.ensures((input,), output)
        } else {
            output == input
        }
    }

    /// Transforms `input` if it writes a key of interest, and hands it
    /// back unchanged if not.
    pub fn apply(&self, input: WriteBatch) -> (output: WriteBatch)
        requires
            input.wf(),
            self.filter.interested_in(input@) ==> self.transformer.requires((input,)),
        ensures
            self.transforms(input, output),
    {
        if self.filter.matches(&input) {
            (self.transformer)(input)
        } else {
            input
        }
    }
}

/// `output` is what the transactors make of `input` when each is applied
/// to the result of the one before.
pub open spec fn pipeline<F: Fn(WriteBatch) -> WriteBatch>(
    transactors: Seq<Transactor<F>>,
    input: WriteBatch,
    output: WriteBatch,
) -> bool
    decreases transactors.len(),
{
    if transactors.len() == 0 {
        output == input
    } else {
        exists|mid: WriteBatch|
            pipeline(transactors.drop_last(), input, mid) && transactors.last().transforms(
                mid,
                output,
            )
    }
}

/// Every transformer accepts every batch and returns one that holds no
/// key twice.
pub open spec fn accept_all<F: Fn(WriteBatch) -> WriteBatch>(
    transactors: Seq<Transactor<F>>,
) -> bool {
    &&& forall|i: int, b: WriteBatch|
        0 <= i < transactors.len() ==> #[trigger] transactors[i].transformer.requires((b,))
    &&& forall|i: int, b: WriteBatch, out: WriteBatch|
        0 <= i < transactors.len() && #[trigger] transactors[i].transformer.ensures((b,), out)
            ==> out.wf()
}

/// Applies each transactor in sequence.
pub fn apply_transactors<F: Fn(WriteBatch) -> WriteBatch>(
    transactors: &Vec<Transactor<F>>,
    batch: WriteBatch,
) -> (output: WriteBatch)
    requires
        batch.wf(),
        accept_all(transactors@),
    ensures
        pipeline(transactors@, batch, output),
        output.wf(),
{
    let ghost input = batch;
    let mut batch = batch;
    let n: usize = transactors.len();
    let mut i: usize = 0;
    while i < n
        invariant
            n == transactors@.len(),
            0 <= i <= n,
            batch.wf(),
            pipeline(transactors@.take(i as int), input, batch),
            accept_all(transactors@),
        decreases n - i,
    {
        let ghost mid = batch;
        batch = transactors[i].apply(batch);
        proof {
            let next = transactors@.take(i + 1);
            assert(next.drop_last() =~= transactors@.take(i as int));
            assert(next.last() == transactors@[i as int]);
            assert(pipeline(next.drop_last(), input, mid) && next.last().transforms(mid, batch));
        }
        i = i + 1;
    }
    proof {
        assert(transactors@.take(n as int) =~= transactors@);
    }
    batch
}

} // verus!
