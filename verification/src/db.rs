//! An in-memory key-value store with batched, read-your-writes transactions.

use crate::bytes::Bytes;
use crate::fs::Unavailable;
use crate::transactor::{accept_all, apply_transactors, pipeline, Transactor};
use crate::write_batch::{to_map, WriteBatch};
use vstd::prelude::*;

verus! {

/// The result of a range read.
#[derive(Debug, Clone, Copy, PartialEq, Eq, Structural)]
pub struct Range {}

/// The store: a map from keys to values, and the transactors that every
/// committed batch passes through.
pub struct Db<F> {
    pub transactors: Vec<Transactor<F>>,
    storage: WriteBatch,
}

impl<F> View for Db<F> {
    type V = Map<Seq<u8>, Seq<u8>>;

    closed spec fn view(&self) -> Map<Seq<u8>, Seq<u8>> {
        self.storage@
    }
}

/// Opens an empty store without transactors. The store lives in memory;
/// `path` names it.
pub fn open<F: Fn(WriteBatch) -> WriteBatch>(path: &str) -> (db: Result<Db<F>, Unavailable>)
    ensures
        match db {
            Ok(db) => db.wf() && db@ == Map::<Seq<u8>, Seq<u8>>::empty() && db.transactors().len()
                == 0,
            Err(_) => false,
        },
{
    let _ = path;
    Ok(Db { transactors: Vec::new(), storage: WriteBatch::new() })
}

/// What a transaction reads under `key`: its own write if it has one,
/// else what the store holds.
pub open spec fn overlay(
    storage: Map<Seq<u8>, Seq<u8>>,
    batch: Map<Seq<u8>, Seq<u8>>,
    key: Seq<u8>,
) -> Option<Seq<u8>> {
    if batch.contains_key(key) {
        Some(batch[key])
    } else if storage.contains_key(key) {
        Some(storage[key])
    } else {
        None
    }
}

/// Whether `value` is a copy of what `expected` holds.
pub open spec fn same_bytes(value: Option<Vec<u8>>, expected: Option<Seq<u8>>) -> bool {
    match value {
        Some(v) => expected == Some(v@),
        None => expected is None,
    }
}

impl<F: Fn(WriteBatch) -> WriteBatch> Db<F> {
    /// The store holds no key twice, and its transformers accept every
    /// batch and return batches that hold no key twice.
    pub closed spec fn wf(&self) -> bool {
        self.storage.wf() && accept_all(self.transactors@)
    }

    /// The transactors, in the order in which they are applied.
    pub closed spec fn transactors(&self) -> Seq<Transactor<F>> {
        self.transactors@
    }

    /// Starts a transaction with no writes.
    pub fn tx(&mut self) -> (tx: Tx<'_, F>)
        requires
            old(self).wf(),
        ensures
            tx.wf(),
            tx.writes() == Map::<Seq<u8>, Seq<u8>>::empty(),
            tx.store() == old(self)@,
            old(self)@ == tx.db@,
            final(self)@ == final(tx.db)@,
            final(tx.db).wf() ==> final(self).wf(),
    {
        Tx { db: self, write_batch: WriteBatch::new() }
    }

    /// A copy of the value held under `key`.
    pub fn get(&self, key: &[u8]) -> (value: Option<Vec<u8>>)
        requires
            self.wf(),
        ensures
            match value {
                Some(v) => self@.contains_key(key@) && v@ == self@[key@],
                None => !self@.contains_key(key@),
            },
    {
        self.storage.get(key)
    }

    /// Passes `batch` through the transactors, one after another.
    pub fn apply_transactors(&self, batch: WriteBatch) -> (output: WriteBatch)
        requires
            self.wf(),
            batch.wf(),
        ensures
            pipeline(self.transactors(), batch, output),
            output.wf(),
    {
        apply_transactors(&self.transactors, batch)
    }

    /// Passes `batch` through the transactors and applies every write of
    /// the result to the store.
    pub fn commit(&mut self, batch: WriteBatch) -> (done: Result<(), Unavailable>)
        requires
            old(self).wf(),
            batch.wf(),
        ensures
            done is Ok,
            final(self).wf(),
            final(self).transactors() == old(self).transactors(),
            exists|applied: WriteBatch|
                pipeline(old(self).transactors(), batch, applied) && final(self)@ == old(
                    self,
                )@.union_prefer_right(applied@),
            old(self).transactors().len() == 0 ==> final(self)@ == old(self)@.union_prefer_right(
                batch@,
            ),
    {
        let final_batch = self.apply_transactors(batch);
        self.write(final_batch);
        Ok(())
    }

    /// Applies every write of `batch` to the store.
    fn write(&mut self, batch: WriteBatch)
        requires
            old(self).wf(),
            batch.wf(),
        ensures
            final(self).wf(),
            final(self).transactors() == old(self).transactors(),
            final(self)@ == old(self)@.union_prefer_right(batch@),
    {
        let n: usize = batch.len();
        let mut i: usize = 0;
        proof {
            batch.lemma_view();
            assert(self@.union_prefer_right(to_map(batch.entries().take(0))) =~= self@);
        }
        while i < n
            invariant
                self.wf(),
                self.transactors@ == old(self).transactors@,
                batch.wf(),
                n == batch.entries().len(),
                0 <= i <= n,
                self@ == old(self)@.union_prefer_right(to_map(batch.entries().take(i as int))),
            decreases n - i,
        {
            let e = batch.entry(i);
            let key = Bytes::from_slice(e.key.as_slice());
            let value = Bytes::from_slice(e.value.as_slice());
            proof {
                let done = batch.entries().take(i as int);
                let next = batch.entries().take(i + 1);
                assert(next.drop_last() =~= done);
                assert(next.last() == batch.entries()[i as int]);
                assert(old(self)@.union_prefer_right(to_map(next)) =~= old(
                    self,
                )@.union_prefer_right(to_map(done)).insert(key@, value@));
            }
            self.storage.insert(key, value);
            i = i + 1;
        }
        proof {
            batch.lemma_view();
            assert(batch.entries().take(n as int) =~= batch.entries());
        }
    }
}

/// A transaction: writes collected in a batch on top of the store, which
/// sees them when the transaction commits.
pub struct Tx<'a, F> {
    pub db: &'a mut Db<F>,
    pub write_batch: WriteBatch,
}

impl<'a, F: Fn(WriteBatch) -> WriteBatch> Tx<'a, F> {
    pub open spec fn wf(&self) -> bool {
        self.db.wf() && self.write_batch.wf()
    }

    /// The writes collected so far.
    pub open spec fn writes(&self) -> Map<Seq<u8>, Seq<u8>> {
        self.write_batch@
    }

    /// The contents of the store below the transaction.
    pub open spec fn store(&self) -> Map<Seq<u8>, Seq<u8>> {
        self.db@
    }

    /// Reads `key`: the transaction's own write if it has one, else what
    /// the store holds.
    pub fn get(&mut self, key: &[u8]) -> (value: Result<Option<Vec<u8>>, Unavailable>)
        requires
            old(self).wf(),
        ensures
            *final(self) == *old(self),
            value is Ok,
            same_bytes(value.unwrap(), overlay(old(self).store(), old(self).writes(), key@)),
    {
        Ok(self.read(key))
    }

    fn read(&self, key: &[u8]) -> (value: Option<Vec<u8>>)
        requires
            self.wf(),
        ensures
            same_bytes(value, overlay(self.store(), self.writes(), key@)),
    {
        match self.write_batch.get(key) {
            Some(v) => Some(v),
            None => self.db.get(key),
        }
    }

    /// Writes `value` under `key` and returns what a read of `key` gave
    /// before.
    pub fn insert(&mut self, key: &[u8], value: &[u8]) -> (before: Option<Vec<u8>>)
        requires
            old(self).wf(),
        ensures
            final(self).wf(),
            same_bytes(before, overlay(old(self).store(), old(self).writes(), key@)),
            final(self).writes() == old(self).writes().insert(key@, value@),
            final(self).store() == old(self).store(),
            final(self).db == old(self).db,
    {
        let before = self.read(key);
        self.write_batch.insert(Bytes::from_slice(key), Bytes::from_slice(value));
        before
    }

    /// Withdraws the transaction's write under `key` and returns what a
    /// read of `key` gave before. What the store holds stays.
    pub fn remove(&mut self, key: &[u8]) -> (before: Option<Vec<u8>>)
        requires
            old(self).wf(),
        ensures
            final(self).wf(),
            same_bytes(before, overlay(old(self).store(), old(self).writes(), key@)),
            final(self).writes() == old(self).writes().remove(key@),
            final(self).store() == old(self).store(),
            final(self).db == old(self).db,
    {
        let before = self.read(key);
        self.write_batch.remove(key);
        before
    }

    /// Reads a range of keys. Range reads return nothing yet.
    pub fn range<R>(&mut self, range: R) -> (found: Range)
        ensures
            *final(self) == *old(self),
    {
        let _ = range;
        Range {  }
    }

    /// Passes the collected writes through the store's transactors and
    /// applies the result to the store.
    pub fn commit(self) -> (done: Result<(), Unavailable>)
        requires
            self.wf(),
        ensures
            done is Ok,
            final(self.db).wf(),
            final(self.db).transactors() == old(self.db).transactors(),
            exists|applied: WriteBatch|
                pipeline(old(self.db).transactors(), self.write_batch, applied) && final(self.db)@
                    == self.store().union_prefer_right(applied@),
            old(self.db).transactors().len() == 0 ==> final(self.db)@
                == self.store().union_prefer_right(self.writes()),
    {
        self.db.commit(self.write_batch)
    }
}

/// A committed write is read back by the next transaction.
pub proof fn lemma_read_your_commit(
    storage: Map<Seq<u8>, Seq<u8>>,
    writes: Map<Seq<u8>, Seq<u8>>,
    key: Seq<u8>,
)
    ensures
        overlay(storage.union_prefer_right(writes), Map::empty(), key) == overlay(
            storage,
            writes,
            key,
        ),
{
}

} // verus!
