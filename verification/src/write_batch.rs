//! A map from byte-string keys to byte-string values.

use crate::bytes::{bytes_eq, Bytes};
use vstd::prelude::*;

verus! {

/// One key with its value.
#[derive(Debug)]
pub struct Entry {
    pub key: Bytes,
    pub value: Bytes,
}

/// No key occurs twice.
pub open spec fn distinct_keys(s: Seq<Entry>) -> bool {
    forall|i: int, j: int| 0 <= i < j < s.len() ==> s[i].key@ != s[j].key@
}

/// No entry of `s` has the key `key`.
pub open spec fn absent(s: Seq<Entry>, key: Seq<u8>) -> bool {
    forall|i: int| 0 <= i < s.len() ==> s[i].key@ != key
}

/// The map that a sequence of entries stands for.
pub open spec fn to_map(s: Seq<Entry>) -> Map<Seq<u8>, Seq<u8>>
    decreases s.len(),
{
    if s.len() == 0 {
        Map::empty()
    } else {
        to_map(s.drop_last()).insert(s.last().key@, s.last().value@)
    }
}

/// A key that no entry has is not in the map.
pub proof fn lemma_absent(s: Seq<Entry>, key: Seq<u8>)
    requires
        absent(s, key),
    ensures
        !to_map(s).contains_key(key),
    decreases s.len(),
{
    if s.len() > 0 {
        assert(s.last().key@ != key);
        lemma_absent(s.drop_last(), key);
    }
}

/// With distinct keys, the map holds every entry's value under its key.
pub proof fn lemma_present(s: Seq<Entry>, i: int)
    requires
        distinct_keys(s),
        0 <= i < s.len(),
    ensures
        to_map(s).contains_key(s[i].key@),
        to_map(s)[s[i].key@] == s[i].value@,
    decreases s.len(),
{
    if i < s.len() - 1 {
        lemma_present(s.drop_last(), i);
    }
}

/// Replacing the value of an entry is an insert under its key.
pub proof fn lemma_replace(s: Seq<Entry>, i: int, e: Entry)
    requires
        distinct_keys(s),
        0 <= i < s.len(),
        e.key@ == s[i].key@,
    ensures
        distinct_keys(s.update(i, e)),
        to_map(s.update(i, e)) == to_map(s).insert(e.key@, e.value@),
    decreases s.len(),
{
    let t = s.update(i, e);
    if i == s.len() - 1 {
        assert(t.drop_last() =~= s.drop_last());
        assert(to_map(t) =~= to_map(s).insert(e.key@, e.value@));
    } else {
        lemma_replace(s.drop_last(), i, e);
        assert(t.drop_last() =~= s.drop_last().update(i, e));
        assert(s.last().key@ != e.key@);
        assert(to_map(t) =~= to_map(s).insert(e.key@, e.value@));
    }
}

/// Taking an entry out removes its key.
pub proof fn lemma_remove(s: Seq<Entry>, i: int)
    requires
        distinct_keys(s),
        0 <= i < s.len(),
    ensures
        distinct_keys(s.remove(i)),
        to_map(s.remove(i)) == to_map(s).remove(s[i].key@),
    decreases s.len(),
{
    let t = s.remove(i);
    if i == s.len() - 1 {
        assert(t =~= s.drop_last());
        assert(absent(t, s[i].key@));
        lemma_absent(t, s[i].key@);
        assert(to_map(t) =~= to_map(s).remove(s[i].key@));
    } else {
        lemma_remove(s.drop_last(), i);
        assert(t.drop_last() =~= s.drop_last().remove(i));
        assert(t.last() == s.last());
        assert(s.last().key@ != s[i].key@);
        assert(to_map(t) =~= to_map(s).remove(s[i].key@));
    }
}

/// A batch of writes: each key with the value to store under it.
#[derive(Debug)]
pub struct WriteBatch {
    entries: Vec<Entry>,
}

impl View for WriteBatch {
    type V = Map<Seq<u8>, Seq<u8>>;

    closed spec fn view(&self) -> Map<Seq<u8>, Seq<u8>> {
        to_map(self.entries@)
    }
}

impl WriteBatch {
    /// No key is held twice.
    pub closed spec fn wf(&self) -> bool {
        distinct_keys(self.entries@)
    }

    /// The entries in the order in which they are held.
    pub closed spec fn entries(&self) -> Seq<Entry> {
        self.entries@
    }

    /// The view is the map of the entries.
    pub proof fn lemma_view(&self)
        ensures
            self@ == to_map(self.entries()),
            self.wf() == distinct_keys(self.entries()),
    {
    }

    pub fn new() -> (batch: WriteBatch)
        ensures
            batch.wf(),
            batch@ == Map::<Seq<u8>, Seq<u8>>::empty(),
            batch.entries().len() == 0,
    {
        WriteBatch { entries: Vec::new() }
    }

    /// The number of keys.
    pub fn len(&self) -> (n: usize)
        ensures
            n == self.entries().len(),
    {
        self.entries.len()
    }

    /// The `i`-th entry.
    pub fn entry(&self, i: usize) -> (e: &Entry)
        requires
            i < self.entries().len(),
        ensures
            *e == self.entries()[i as int],
    {
        &self.entries[i]
    }

    fn find(&self, key: &[u8]) -> (at: Option<usize>)
        ensures
            match at {
                Some(i) => i < self.entries@.len() && self.entries@[i as int].key@ == key@,
                None => absent(self.entries@, key@),
            },
    {
        let n: usize = self.entries.len();
        let mut i: usize = 0;
        while i < n
            invariant
                n == self.entries@.len(),
                0 <= i <= n,
                forall|k: int| 0 <= k < i ==> self.entries@[k].key@ != key@,
            decreases n - i,
        {
            if bytes_eq(self.entries[i].key.as_slice(), key) {
                return Some(i);
            }
            i = i + 1;
        }
        None
    }

    /// Whether a value is held under `key`.
    pub fn contains_key(&self, key: &[u8]) -> (held: bool)
        requires
            self.wf(),
        ensures
            held == self@.contains_key(key@),
    {
        match self.find(key) {
            Some(i) => {
                proof {
                    lemma_present(self.entries@, i as int);
                }
                true
            },
            None => {
                proof {
                    lemma_absent(self.entries@, key@);
                }
                false
            },
        }
    }

    /// The value held under `key`.
    pub fn get_ref(&self, key: &[u8]) -> (value: Option<&Bytes>)
        requires
            self.wf(),
        ensures
            match value {
                Some(v) => self@.contains_key(key@) && v@ == self@[key@],
                None => !self@.contains_key(key@),
            },
    {
        match self.find(key) {
            Some(i) => {
                proof {
                    lemma_present(self.entries@, i as int);
                }
                Some(&self.entries[i].value)
            },
            None => {
                proof {
                    lemma_absent(self.entries@, key@);
                }
                None
            },
        }
    }

    /// A copy of the value held under `key`.
    pub fn get(&self, key: &[u8]) -> (value: Option<Vec<u8>>)
        requires
            self.wf(),
        ensures
            match value {
                Some(v) => self@.contains_key(key@) && v@ == self@[key@],
                None => !self@.contains_key(key@),
            },
    {
        match self.find(key) {
            Some(i) => {
                proof {
                    lemma_present(self.entries@, i as int);
                }
                Some(self.entries[i].value.to_vec())
            },
            None => {
                proof {
                    lemma_absent(self.entries@, key@);
                }
                None
            },
        }
    }

    /// Stores `value` under `key`, in place of what was held there.
    pub fn insert(&mut self, key: Bytes, value: Bytes)
        requires
            old(self).wf(),
        ensures
            final(self).wf(),
            final(self)@ == old(self)@.insert(key@, value@),
    {
        match self.find(key.as_slice()) {
            Some(i) => {
                let e = Entry { key, value };
                proof {
                    lemma_replace(self.entries@, i as int, e);
                }
                self.entries.set(i, e);
            },
            None => {
                let e = Entry { key, value };
                proof {
                    assert(self.entries@.push(e).drop_last() =~= self.entries@);
                }
                self.entries.push(e);
            },
        }
    }

    /// Drops `key` and what is held under it.
    pub fn remove(&mut self, key: &[u8])
        requires
            old(self).wf(),
        ensures
            final(self).wf(),
            final(self)@ == old(self)@.remove(key@),
    {
        match self.find(key) {
            Some(i) => {
                proof {
                    lemma_remove(self.entries@, i as int);
                }
                self.entries.remove(i);
            },
            None => {
                proof {
                    lemma_absent(self.entries@, key@);
                    assert(self@.remove(key@) =~= self@);
                }
            },
        }
    }
}

} // verus!
