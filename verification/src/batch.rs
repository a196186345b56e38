//! Batches of byte strings, framed as one.
//!
//! The body of a batch frame holds the number of byte strings as eight
//! little-endian bytes, then each byte string behind its length, which is
//! again eight little-endian bytes.

use crate::bytes::copy_bytes;
use crate::frame::{
    append_bytes, frame, parse_frame, read_frame, write_frame, FrameError, HEADER_LEN,
};
use vstd::bytes::{
    lemma_auto_spec_u64_to_from_le_bytes, spec_u64_from_le_bytes, spec_u64_to_le_bytes,
    u64_from_le_bytes, u64_to_le_bytes,
};
use vstd::prelude::*;
use vstd::slice::slice_subrange;

verus! {

/// The byte strings that a sequence of buffers holds.
pub open spec fn views(bufs: Seq<Vec<u8>>) -> Seq<Seq<u8>> {
    Seq::new(bufs.len(), |i: int| bufs[i]@)
}

/// Each byte string behind its length.
pub open spec fn encode_entries(bufs: Seq<Seq<u8>>) -> Seq<u8>
    decreases bufs.len(),
{
    if bufs.len() == 0 {
        Seq::empty()
    } else {
        spec_u64_to_le_bytes(bufs[0].len() as u64) + bufs[0] + encode_entries(bufs.skip(1))
    }
}

/// The body of the frame that holds `bufs`.
pub open spec fn payload(bufs: Seq<Seq<u8>>) -> Seq<u8> {
    spec_u64_to_le_bytes(bufs.len() as u64) + encode_entries(bufs)
}

/// `tail` behind `head`, where there is a tail.
pub open spec fn prepend(head: Seq<Seq<u8>>, tail: Option<Seq<Seq<u8>>>) -> Option<Seq<Seq<u8>>> {
    match tail {
        Some(t) => Some(head + t),
        None => None,
    }
}

/// The first `count` byte strings in `rest`, or nothing when `rest` ends
/// before them. What follows them is ignored.
pub open spec fn parse_entries(rest: Seq<u8>, count: nat) -> Option<Seq<Seq<u8>>>
    decreases count,
{
    if count == 0 {
        Some(Seq::empty())
    } else if rest.len() < 8 {
        None
    } else {
        let n = spec_u64_from_le_bytes(rest.subrange(0, 8));
        if rest.len() - 8 < n {
            None
        } else {
            prepend(
                seq![rest.subrange(8, 8 + n)],
                parse_entries(rest.skip(8 + n), (count - 1) as nat),
            )
        }
    }
}

/// The byte strings in the body of a batch frame.
pub open spec fn parse_payload(body: Seq<u8>) -> Option<Seq<Seq<u8>>> {
    if body.len() < 8 {
        None
    } else {
        parse_entries(body.skip(8), spec_u64_from_le_bytes(body.subrange(0, 8)) as nat)
    }
}

/// The batch in the frame at the start of `input`, or why there is none.
/// A body that ends before its last byte string counts as an early end of
/// the input.
pub open spec fn parse_batch(input: Seq<u8>) -> Result<Seq<Seq<u8>>, FrameError> {
    match parse_frame(input) {
        Err(e) => Err(e),
        Ok(body) => match parse_payload(body) {
            Some(bufs) => Ok(bufs),
            None => Err(FrameError::UnexpectedEof),
        },
    }
}

/// Encoded byte strings are read back as they were.
pub proof fn lemma_entries_roundtrip(bufs: Seq<Seq<u8>>)
    requires
        forall|i: int| 0 <= i < bufs.len() ==> bufs[i].len() <= u64::MAX,
    ensures
        parse_entries(encode_entries(bufs), bufs.len()) == Some(bufs),
    decreases bufs.len(),
{
    if bufs.len() == 0 {
        assert(bufs =~= Seq::empty());
    } else {
        lemma_auto_spec_u64_to_from_le_bytes();
        let rest = encode_entries(bufs);
        let len_bytes = spec_u64_to_le_bytes(bufs[0].len() as u64);
        let n = bufs[0].len() as int;
        assert(len_bytes.len() == 8);
        assert(rest.subrange(0, 8) =~= len_bytes);
        assert(rest.subrange(8, 8 + n) =~= bufs[0]);
        assert(rest.skip(8 + n) =~= encode_entries(bufs.skip(1)));
        lemma_entries_roundtrip(bufs.skip(1));
        assert(seq![bufs[0]] + bufs.skip(1) =~= bufs);
    }
}

/// A batch is read back as it was written.
pub proof fn lemma_batch_roundtrip(bufs: Seq<Seq<u8>>, rest: Seq<u8>)
    requires
        bufs.len() <= u64::MAX,
        forall|i: int| 0 <= i < bufs.len() ==> bufs[i].len() <= u64::MAX,
        payload(bufs).len() <= u64::MAX,
    ensures
        parse_batch(frame(payload(bufs)) + rest) == Ok::<Seq<Seq<u8>>, FrameError>(bufs),
{
    lemma_auto_spec_u64_to_from_le_bytes();
    crate::frame::lemma_frame_roundtrip(payload(bufs), rest);
    let body = payload(bufs);
    assert(body.subrange(0, 8) =~= spec_u64_to_le_bytes(bufs.len() as u64));
    assert(body.skip(8) =~= encode_entries(bufs));
    lemma_entries_roundtrip(bufs);
}

/// Appends the frame that holds the byte strings of `batch` to `w`.
pub fn write_batch(batch: &[Vec<u8>], w: &mut Vec<u8>)
    ensures
        final(w)@ == old(w)@ + frame(payload(views(batch@))),
{
    let n: usize = batch.len();
    let mut out: Vec<u8> = u64_to_le_bytes(n as u64);
    let ghost bufs = views(batch@);
    let mut i: usize = 0;
    proof {
        assert(bufs.skip(0) =~= bufs);
    }
    while i < n
        invariant
            n == batch@.len(),
            bufs == views(batch@),
            0 <= i <= n,
            out@ + encode_entries(bufs.skip(i as int)) == payload(bufs),
        decreases n - i,
    {
        let buf = batch[i].as_slice();
        let len_bytes = u64_to_le_bytes(buf.len() as u64);
        let ghost before = out@;
        append_bytes(&mut out, len_bytes.as_slice());
        append_bytes(&mut out, buf);
        proof {
            let here = bufs.skip(i as int);
            assert(here[0] == buf@);
            assert(here.skip(1) =~= bufs.skip(i + 1));
            assert(out@ + encode_entries(bufs.skip(i + 1)) =~= before + encode_entries(here));
        }
        i = i + 1;
    }
    proof {
        assert(encode_entries(bufs.skip(n as int)) =~= Seq::<u8>::empty());
        assert(out@ =~= payload(bufs));
    }
    write_frame(out.as_slice(), w);
}

/// Reads the byte strings out of the body of a batch frame.
pub fn read_payload(body: &[u8]) -> (bufs: Option<Vec<Vec<u8>>>)
    ensures
        match parse_payload(body@) {
            Some(expected) => bufs is Some && views(bufs.unwrap()@) == expected,
            None => bufs is None,
        },
{
    if body.len() < 8 {
        return None;
    }
    let count: u64 = u64_from_le_bytes(slice_subrange(body, 0, 8));
    let mut ret: Vec<Vec<u8>> = Vec::new();
    let mut pos: usize = 8;
    let mut i: u64 = 0;
    proof {
        assert(views(ret@) =~= Seq::<Seq<u8>>::empty());
        assert(prepend(views(ret@), parse_entries(body@.skip(8), count as nat)) =~= parse_entries(
            body@.skip(8),
            count as nat,
        ));
    }
    while i < count
        invariant
            8 <= pos <= body@.len(),
            0 <= i <= count,
            parse_payload(body@) == prepend(
                views(ret@),
                parse_entries(body@.skip(pos as int), (count - i) as nat),
            ),
        decreases count - i,
    {
        let ghost rest = body@.skip(pos as int);
        if body.len() - pos < 8 {
            return None;
        }
        let n: u64 = u64_from_le_bytes(slice_subrange(body, pos, pos + 8));
        proof {
            assert(body@.subrange(pos as int, pos + 8) =~= rest.subrange(0, 8));
        }
        if ((body.len() - pos - 8) as u64) < n {
            return None;
        }
        let start: usize = pos + 8;
        let end: usize = start + n as usize;
        let buf = copy_bytes(slice_subrange(body, start, end));
        proof {
            assert(buf@ =~= rest.subrange(8, 8 + n));
            assert(rest.skip(8 + n) =~= body@.skip(end as int));
            let tail = parse_entries(body@.skip(end as int), (count - i - 1) as nat);
            assert(views(ret@.push(buf)) =~= views(ret@) + seq![buf@]);
            if tail is Some {
                assert(views(ret@) + (seq![buf@] + tail.unwrap()) =~= views(ret@.push(buf))
                    + tail.unwrap());
            }
        }
        ret.push(buf);
        pos = end;
        i = i + 1;
    }
    proof {
        assert(views(ret@) + Seq::<Seq<u8>>::empty() =~= views(ret@));
    }
    Some(ret)
}

/// Reads the batch in the frame that starts at `*at` in `input` and moves
/// `*at` behind that frame. On an error `*at` stays.
pub fn read_batch(input: &[u8], at: &mut usize) -> (batch: Result<Vec<Vec<u8>>, FrameError>)
    requires
        *old(at) <= input@.len(),
    ensures
        match parse_batch(input@.skip(*old(at) as int)) {
            Ok(expected) => batch is Ok && views(batch.unwrap()@) == expected && *final(at)
                == *old(at) + HEADER_LEN + parse_frame(
                input@.skip(*old(at) as int),
            ).unwrap().len(),
            Err(e) => batch == Err::<Vec<Vec<u8>>, FrameError>(e) && *final(at) == *old(at),
        },
{
    let mut cursor: usize = *at;
    match read_frame(input, &mut cursor) {
        Err(e) => Err(e),
        Ok(body) => match read_payload(body.as_slice()) {
            None => Err(FrameError::UnexpectedEof),
            Some(bufs) => {
                *at = cursor;
                Ok(bufs)
            },
        },
    }
}

} // verus!
