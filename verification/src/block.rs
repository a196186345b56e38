//! Immutable blocks of sorted keys with values of one size.
//!
//! A block is one buffer: eight little-endian bytes that give the offset
//! of the value array, then a finite state transducer that maps every key
//! to the position of its value, then the values one after another.

use crate::bytes::lex_lt;
use crate::write_batch::Entry;
use vstd::bytes::{
    lemma_auto_spec_u64_to_from_le_bytes, spec_u64_from_le_bytes, spec_u64_to_le_bytes,
    u64_from_le_bytes, u64_to_le_bytes,
};
use vstd::prelude::*;
use vstd::slice::slice_subrange;

verus! {

/// The builder of a transducer, `fst::MapBuilder`, carried as an opaque
/// value.
#[verifier::external_type_specification]
#[verifier::external_body]
#[verifier::reject_recursive_types(W)]
pub struct ExMapBuilder<W>(fst::MapBuilder<W>);

/// A transducer over its bytes, `fst::Map`, carried as an opaque value.
#[verifier::external_type_specification]
#[verifier::external_body]
#[verifier::reject_recursive_types(D)]
pub struct ExMap<D>(fst::Map<D>);

/// The error of the transducer library, `fst::Error`, carried as an
/// opaque value.
#[verifier::external_type_specification]
#[verifier::external_body]
pub struct ExFstError(fst::Error);

/// The keys with their values that a builder has accepted, in the order
/// in which they were inserted.
pub uninterp spec fn builder_entries(builder: fst::MapBuilder<Vec<u8>>) -> Seq<(Seq<u8>, u64)>;

/// The bytes of the transducer that a builder with these entries writes.
pub uninterp spec fn fst_bytes(entries: Seq<(Seq<u8>, u64)>) -> Seq<u8>;

/// The bytes that a transducer reads from.
pub uninterp spec fn map_data(map: fst::Map<&[u8]>) -> Seq<u8>;

/// The value that the transducer in `data` gives for `key`.
pub uninterp spec fn fst_lookup(data: Seq<u8>, key: Seq<u8>) -> Option<u64>;

/// The value of the last entry with the key `key`.
pub open spec fn lookup(entries: Seq<(Seq<u8>, u64)>, key: Seq<u8>) -> Option<u64>
    decreases entries.len(),
{
    if entries.len() == 0 {
        None
    } else if entries.last().0 == key {
        Some(entries.last().1)
    } else {
        lookup(entries.drop_last(), key)
    }
}

/// `data` was written by a builder.
pub open spec fn is_built(data: Seq<u8>) -> bool {
    exists|entries: Seq<(Seq<u8>, u64)>| data == fst_bytes(entries)
}

/// `fst::MapBuilder::memory` gives a builder that writes to memory and
/// has accepted nothing yet.
#[verifier::external_body]
fn builder_memory() -> (builder: fst::MapBuilder<Vec<u8>>)
    ensures
        builder_entries(builder) == Seq::<(Seq<u8>, u64)>::empty(),
{
    fst::MapBuilder::memory()
}

/// `fst::MapBuilder::insert` accepts a key that is greater than the key
/// inserted last, or is the first, and rejects every other key. An
/// accepted key is added with its value; a rejected one changes nothing.
/// Writing to memory does not fail.
#[verifier::external_body]
fn builder_insert(builder: &mut fst::MapBuilder<Vec<u8>>, key: &[u8], val: u64) -> (done: Result<
    (),
    fst::Error,
>)
    ensures
        done is Ok <==> builder_entries(*old(builder)).len() == 0 || lex_lt(
            builder_entries(*old(builder)).last().0,
            key@,
        ),
        done is Ok ==> builder_entries(*final(builder)) == builder_entries(*old(builder)).push(
            (key@, val),
        ),
        done is Err ==> builder_entries(*final(builder)) == builder_entries(*old(builder)),
{
    builder.insert(key, val)
}

/// `fst::MapBuilder::into_inner` finishes the transducer and returns the
/// bytes written, which does not fail in memory. The bytes depend on the
/// accepted entries alone, and a transducer that reads them gives for
/// every key the value it was inserted with, and nothing for other keys.
#[verifier::external_body]
fn builder_into_inner(builder: fst::MapBuilder<Vec<u8>>) -> (bytes: Result<Vec<u8>, fst::Error>)
    ensures
        bytes is Ok,
        bytes.unwrap()@ == fst_bytes(builder_entries(builder)),
        forall|key: Seq<u8>| #[trigger]
            fst_lookup(bytes.unwrap()@, key) == lookup(builder_entries(builder), key),
{
    builder.into_inner()
}

/// `fst::Map::new` reads the bytes that a builder wrote as a transducer,
/// without copying them.
#[verifier::external_body]
fn map_new<'a>(data: &'a [u8]) -> (map: Result<fst::Map<&'a [u8]>, fst::Error>)
    requires
        is_built(data@),
    ensures
        map is Ok,
        map_data(map.unwrap()) == data@,
{
    fst::Map::new(data)
}

/// `fst::Map::get` returns the value of a key in the transducer, if the
/// key is in it.
#[verifier::external_body]
fn map_get(map: &fst::Map<&[u8]>, key: &[u8]) -> (val: Option<u64>)
    requires
        is_built(map_data(*map)),
    ensures
        val == fst_lookup(map_data(*map), key@),
{
    map.get(key)
}

/// The length of the field that holds the offset of the value array.
pub const OFFSET_LEN: usize = 8;

/// Why no block could be built.
#[derive(Debug, Clone, Copy, PartialEq, Eq, Structural)]
pub enum BlockError {
    /// A key is not greater than the key before it.
    OutOfOrder,
    /// A value has not the size of the block's values.
    ValueSize,
    /// The index is too large for this machine's memory.
    TooLarge,
}

/// Every key is greater than the one before it.
pub open spec fn keys_ascend(entries: Seq<Entry>) -> bool {
    forall|j: int|
        0 <= j < entries.len() - 1 ==> lex_lt((#[trigger] entries[j]).key@, entries[j + 1].key@)
}

/// Every value has the size `value_size`.
pub open spec fn values_sized(entries: Seq<Entry>, value_size: usize) -> bool {
    forall|j: int| 0 <= j < entries.len() ==> entries[j].value@.len() == value_size
}

/// Every key with the position of its entry.
pub open spec fn index_of(entries: Seq<Entry>) -> Seq<(Seq<u8>, u64)> {
    Seq::new(entries.len(), |j: int| (entries[j].key@, j as u64))
}

/// The values one after another.
pub open spec fn value_array(entries: Seq<Entry>) -> Seq<u8>
    decreases entries.len(),
{
    if entries.len() == 0 {
        Seq::empty()
    } else {
        value_array(entries.drop_last()) + entries.last().value@
    }
}

/// The value of the last entry with the key `key`.
pub open spec fn value_of(entries: Seq<Entry>, key: Seq<u8>) -> Option<Seq<u8>>
    decreases entries.len(),
{
    if entries.len() == 0 {
        None
    } else if entries.last().key@ == key {
        Some(entries.last().value@)
    } else {
        value_of(entries.drop_last(), key)
    }
}

/// The value array of sized values has every value at its position.
pub proof fn lemma_value_array(entries: Seq<Entry>, value_size: usize, j: int)
    requires
        values_sized(entries, value_size),
        0 <= j < entries.len(),
    ensures
        value_array(entries).len() == entries.len() * value_size,
        j * value_size + value_size <= value_array(entries).len(),
        value_array(entries).subrange(j * value_size, j * value_size + value_size)
            == entries[j].value@,
    decreases entries.len(),
{
    let n = entries.len() as int;
    let size = value_size as int;
    let front = entries.drop_last();
    assert(values_sized(front, value_size));
    if n > 1 {
        lemma_value_array(front, value_size, if j < n - 1 {
            j
        } else {
            0
        });
    }
    assert(value_array(front).len() == (n - 1) * size) by {
        if n == 1 {
            assert(value_array(front) =~= Seq::<u8>::empty());
        }
    }
    assert((n - 1) * size + size == n * size) by (nonlinear_arith);
    assert(j * size + size <= n * size) by (nonlinear_arith)
        requires
            0 <= j < n,
            size >= 0,
    ;
    if j == n - 1 {
        assert(value_array(entries).subrange(j * size, j * size + size) =~= entries[j].value@);
    } else {
        assert(j * size + size <= (n - 1) * size) by (nonlinear_arith)
            requires
                0 <= j < n - 1,
                size >= 0,
        ;
        assert(value_array(entries).subrange(j * size, j * size + size) =~= value_array(
            front,
        ).subrange(j * size, j * size + size));
    }
}

/// The index gives for a key the position of the last entry with that
/// key, whose value is the key's value.
pub proof fn lemma_index_lookup(entries: Seq<Entry>, key: Seq<u8>)
    requires
        entries.len() <= u64::MAX,
    ensures
        match lookup(index_of(entries), key) {
            Some(at) => at < entries.len() && value_of(entries, key) == Some(
                entries[at as int].value@,
            ),
            None => value_of(entries, key) is None,
        },
    decreases entries.len(),
{
    if entries.len() > 0 {
        assert(index_of(entries).drop_last() =~= index_of(entries.drop_last()));
        if entries.last().key@ != key {
            lemma_index_lookup(entries.drop_last(), key);
        }
    }
}

/// The buffer of a block: the offset of the value array, the index and
/// the value array. Nothing when the offset is beyond what this machine
/// can address.
pub open spec fn layout(index: Seq<u8>, values: Seq<u8>) -> Option<Seq<u8>> {
    if OFFSET_LEN + index.len() > usize::MAX {
        None
    } else {
        Some(spec_u64_to_le_bytes((OFFSET_LEN + index.len()) as u64) + index + values)
    }
}

/// Puts the buffer of a block together.
pub fn assemble(index: Vec<u8>, values: Vec<u8>) -> (buf: Option<Vec<u8>>)
    ensures
        match buf {
            Some(buf) => layout(index@, values@) == Some(buf@),
            None => layout(index@, values@) is None,
        },
{
    if index.len() > usize::MAX - OFFSET_LEN {
        return None;
    }
    let mut index = index;
    let mut values = values;
    let mut buf = u64_to_le_bytes((OFFSET_LEN + index.len()) as u64);
    buf.append(&mut index);
    buf.append(&mut values);
    Some(buf)
}

/// A block of keys with their values.
pub struct Block {
    buf: Vec<u8>,
    value_size: usize,
    len: usize,
    entries: Ghost<Seq<Entry>>,
}

impl Block {
    /// The buffer holds the offset, the transducer of the index and the
    /// value array of the entries the block was built from.
    pub closed spec fn wf(&self) -> bool {
        let index = fst_bytes(index_of(self.entries@));
        &&& self.entries@.len() == self.len
        &&& values_sized(self.entries@, self.value_size)
        &&& layout(index, value_array(self.entries@)) == Some(self.buf@)
        &&& forall|key: Seq<u8>| #[trigger]
            fst_lookup(index, key) == lookup(index_of(self.entries@), key)
    }

    /// The entries that the block was built from.
    pub closed spec fn entries(&self) -> Seq<Entry> {
        self.entries@
    }

    /// The size of every value.
    pub closed spec fn value_size(&self) -> usize {
        self.value_size
    }

    /// Builds the block of `entries`, whose keys have to ascend and whose
    /// values have to be of `value_size` bytes each.
    pub fn from(entries: &Vec<Entry>, value_size: usize) -> (block: Result<Block, BlockError>)
        ensures
            match block {
                Ok(built) => keys_ascend(entries@) && values_sized(entries@, value_size)
                    && built.wf() && built.entries() == entries@ && built.value_size()
                    == value_size,
                Err(BlockError::ValueSize) => !values_sized(entries@, value_size),
                Err(BlockError::OutOfOrder) => values_sized(entries@, value_size) && !keys_ascend(
                    entries@,
                ),
                Err(BlockError::TooLarge) => values_sized(entries@, value_size) && keys_ascend(
                    entries@,
                ) && OFFSET_LEN + fst_bytes(index_of(entries@)).len() > usize::MAX,
            },
    {
        let n: usize = entries.len();
        let mut i: usize = 0;
        while i < n
            invariant
                n == entries@.len(),
                0 <= i <= n,
                values_sized(entries@.take(i as int), value_size),
            decreases n - i,
        {
            if entries[i].value.len() != value_size {
                return Err(BlockError::ValueSize);
            }
            i = i + 1;
        }
        assert(entries@.take(n as int) =~= entries@);
        let mut builder = builder_memory();
        let mut values: Vec<u8> = Vec::new();
        let mut i: usize = 0;
        proof {
            assert(index_of(entries@.take(0)) =~= Seq::<(Seq<u8>, u64)>::empty());
        }
        while i < n
            invariant
                n == entries@.len(),
                0 <= i <= n,
                values_sized(entries@, value_size),
                builder_entries(builder) == index_of(entries@.take(i as int)),
                keys_ascend(entries@.take(i as int)),
                values@ == value_array(entries@.take(i as int)),
            decreases n - i,
        {
            let entry = &entries[i];
            let ghost before = entries@.take(i as int);
            let ghost after = entries@.take(i + 1);
            proof {
                assert(after.drop_last() =~= before);
                assert(index_of(after) =~= index_of(before).push((entry.key@, i as u64)));
                if i > 0 {
                    assert(index_of(before).last().0 == entries@[i - 1].key@);
                }
            }
            if builder_insert(&mut builder, entry.key.as_slice(), i as u64).is_err() {
                proof {
                    assert(!lex_lt(entries@[i - 1].key@, entries@[i - 1 + 1].key@));
                }
                return Err(BlockError::OutOfOrder);
            }
            crate::frame::append_bytes(&mut values, entry.value.as_slice());
            proof {
                assert forall|j: int| 0 <= j < after.len() - 1 implies lex_lt(
                    (#[trigger] after[j]).key@,
                    after[j + 1].key@,
                ) by {
                    if j + 1 < i {
                        assert(before[j] == after[j] && before[j + 1] == after[j + 1]);
                    }
                }
            }
            i = i + 1;
        }
        assert(entries@.take(n as int) =~= entries@);
        let index = match builder_into_inner(builder) {
            Ok(index) => index,
            Err(_) => {
                return Err(BlockError::TooLarge);
            },
        };
        match assemble(index, values) {
            Some(buf) => Ok(Block { buf, value_size, len: n, entries: Ghost(entries@) }),
            None => Err(BlockError::TooLarge),
        }
    }

    /// Where the three parts of the buffer lie.
    proof fn lemma_layout(&self)
        requires
            self.wf(),
        ensures
            self.buf@.len() == OFFSET_LEN + fst_bytes(index_of(self.entries@)).len() + value_array(
                self.entries@,
            ).len(),
            spec_u64_from_le_bytes(self.buf@.subrange(0, OFFSET_LEN as int)) == OFFSET_LEN
                + fst_bytes(index_of(self.entries@)).len(),
            self.buf@.subrange(
                OFFSET_LEN as int,
                OFFSET_LEN + fst_bytes(index_of(self.entries@)).len(),
            ) == fst_bytes(index_of(self.entries@)),
            self.buf@.subrange(
                OFFSET_LEN + fst_bytes(index_of(self.entries@)).len(),
                self.buf@.len() as int,
            ) == value_array(self.entries@),
    {
        lemma_auto_spec_u64_to_from_le_bytes();
        let index = fst_bytes(index_of(self.entries@));
        let offset = spec_u64_to_le_bytes((OFFSET_LEN + index.len()) as u64);
        assert(self.buf@.subrange(0, OFFSET_LEN as int) =~= offset);
        assert(self.buf@.subrange(OFFSET_LEN as int, OFFSET_LEN + index.len()) =~= index);
        assert(self.buf@.subrange(OFFSET_LEN + index.len(), self.buf@.len() as int)
            =~= value_array(self.entries@));
    }

    /// The number of keys.
    pub fn len(&self) -> (n: usize)
        requires
            self.wf(),
        ensures
            n == self.entries().len(),
    {
        self.len
    }

    /// The offset of the value array in the buffer.
    pub fn value_start_offset(&self) -> (offset: usize)
        requires
            self.wf(),
        ensures
            offset == OFFSET_LEN + fst_bytes(index_of(self.entries())).len(),
    {
        proof {
            self.lemma_layout();
        }
        let len: usize = self.buf.len();
        let value_start = u64_from_le_bytes(slice_subrange(self.buf.as_slice(), 0, OFFSET_LEN));
        assert(value_start <= len);
        value_start as usize
    }

    /// The values one after another.
    pub fn value_array(&self) -> (values: &[u8])
        requires
            self.wf(),
        ensures
            values@ == value_array(self.entries()),
    {
        proof {
            self.lemma_layout();
        }
        let start = self.value_start_offset();
        slice_subrange(self.buf.as_slice(), start, self.buf.len())
    }

    /// The value at the position `at`, if the block has that many.
    pub fn value_at(&self, at: u64) -> (value: Option<&[u8]>)
        requires
            self.wf(),
        ensures
            match value {
                Some(v) => at < self.entries().len() && v@ == self.entries()[at as int].value@,
                None => at >= self.entries().len(),
            },
    {
        if at >= self.len as u64 {
            return None;
        }
        proof {
            lemma_value_array(self.entries@, self.value_size, at as int);
        }
        let values = self.value_array();
        let at: usize = at as usize;
        let total: usize = values.len();
        assert(at * self.value_size + self.value_size <= total);
        assert(0 <= at * self.value_size) by (nonlinear_arith)
            requires
                0 <= at,
                0 <= self.value_size,
        ;
        let start: usize = at * self.value_size;
        Some(slice_subrange(values, start, start + self.value_size))
    }

    /// The value that the block holds for `key`.
    pub open spec fn spec_get(&self, key: Seq<u8>) -> Option<Seq<u8>> {
        value_of(self.entries(), key)
    }

    /// Looks up the value of `key`.
    pub fn get(&self, key: &[u8]) -> (value: Option<&[u8]>)
        requires
            self.wf(),
        ensures
            match value {
                Some(v) => self.spec_get(key@) == Some(v@),
                None => self.spec_get(key@) is None,
            },
    {
        proof {
            lemma_index_lookup(self.entries@, key@);
            self.lemma_layout();
        }
        let start = self.value_start_offset();
        let data = slice_subrange(self.buf.as_slice(), OFFSET_LEN, start);
        let map = match map_new(data) {
            Ok(map) => map,
            Err(_) => {
                return None;
            },
        };
        match map_get(&map, key) {
            None => None,
            Some(at) => self.value_at(at),
        }
    }
}

} // verus!
