//! Checksummed frames.
//!
//! A frame is a header of sixteen bytes followed by the body. The header
//! holds the body's length as eight little-endian bytes, the checksum of
//! those eight bytes, and the checksum of the body, each checksum as four
//! little-endian bytes.

use vstd::bytes::{
    lemma_auto_spec_u32_to_from_le_bytes, lemma_auto_spec_u64_to_from_le_bytes,
    spec_u32_from_le_bytes, spec_u32_to_le_bytes, spec_u64_from_le_bytes, spec_u64_to_le_bytes,
    u32_from_le_bytes, u32_to_le_bytes, u64_from_le_bytes, u64_to_le_bytes,
};
use vstd::prelude::*;
use vstd::slice::slice_subrange;

verus! {

/// The length of a frame header.
pub const HEADER_LEN: usize = 16;

/// The CRC-32 checksum of a byte string.
pub uninterp spec fn crc32(bytes: Seq<u8>) -> u32;

/// `crc32fast::hash` feeds the whole slice to a new hasher and returns
/// what it finalizes to. The result depends on the bytes alone; here it is
/// given the name `crc32`.
pub assume_specification[ crc32fast::hash ](buf: &[u8]) -> (crc: u32)
    ensures
        crc == crc32(buf@),
;

/// The part of a frame that a checksum covers.
#[derive(Debug, Clone, Copy, PartialEq, Eq, Structural)]
pub enum FramePart {
    Length,
    Body,
}

/// A stored checksum differs from the one computed over what was read.
/// The two checksums reported are those of the length field, also when it
/// was the body that failed.
#[derive(Debug, Clone, Copy, PartialEq, Eq, Structural)]
pub struct CrcMismatch {
    pub part: FramePart,
    pub expected_crc: u32,
    pub actual_crc: u32,
}

/// Why no frame could be read.
#[derive(Debug, Clone, Copy, PartialEq, Eq, Structural)]
pub enum FrameError {
    /// The input ends before the frame does.
    UnexpectedEof,
    /// The length or the body does not match its checksum.
    InvalidData(CrcMismatch),
}

/// The three fields of a frame header.
#[derive(Debug, Clone, Copy, PartialEq, Eq, Structural)]
pub struct FrameHeader {
    pub body_len: u64,
    pub body_len_crc: u32,
    pub body_crc: u32,
}

/// The sixteen bytes of a header.
pub open spec fn header_bytes(header: FrameHeader) -> Seq<u8> {
    spec_u64_to_le_bytes(header.body_len) + spec_u32_to_le_bytes(header.body_len_crc)
        + spec_u32_to_le_bytes(header.body_crc)
}

/// The header of the frame around `body`.
pub open spec fn header_for(body: Seq<u8>) -> Seq<u8> {
    let body_len = body.len() as u64;
    header_bytes(
        FrameHeader {
            body_len,
            body_len_crc: crc32(spec_u64_to_le_bytes(body_len)),
            body_crc: crc32(body),
        },
    )
}

/// The frame around `body`.
pub open spec fn frame(body: Seq<u8>) -> Seq<u8> {
    header_for(body) + body
}

/// The length that the header at the start of `input` announces.
pub open spec fn announced_len(input: Seq<u8>) -> u64 {
    spec_u64_from_le_bytes(input.subrange(0, 8))
}

/// The checksum of the length field as the header stores it.
pub open spec fn stored_len_crc(input: Seq<u8>) -> u32 {
    spec_u32_from_le_bytes(input.subrange(8, 12))
}

/// The checksum of the body as the header stores it.
pub open spec fn stored_body_crc(input: Seq<u8>) -> u32 {
    spec_u32_from_le_bytes(input.subrange(12, 16))
}

/// What holding the checksum computed over the length field against the
/// header gives.
pub open spec fn length_check(header: FrameHeader, actual_crc: u32) -> Result<(), FrameError> {
    if actual_crc == header.body_len_crc {
        Ok(())
    } else {
        Err(
            FrameError::InvalidData(
                CrcMismatch {
                    part: FramePart::Length,
                    expected_crc: header.body_len_crc,
                    actual_crc,
                },
            ),
        )
    }
}

/// What holding the checksum computed over the body against the header
/// gives. A mismatch reports the checksums of the length field.
pub open spec fn body_check(header: FrameHeader, actual_len_crc: u32, actual_body_crc: u32) -> Result<
    (),
    FrameError,
> {
    if actual_body_crc == header.body_crc {
        Ok(())
    } else {
        Err(
            FrameError::InvalidData(
                CrcMismatch {
                    part: FramePart::Body,
                    expected_crc: header.body_len_crc,
                    actual_crc: actual_len_crc,
                },
            ),
        )
    }
}

/// The fields of the header at the start of `input`.
pub open spec fn header_fields(input: Seq<u8>) -> FrameHeader {
    FrameHeader {
        body_len: announced_len(input),
        body_len_crc: stored_len_crc(input),
        body_crc: stored_body_crc(input),
    }
}

/// The header at the start of `input`, or why there is none.
pub open spec fn parse_header(input: Seq<u8>) -> Result<FrameHeader, FrameError> {
    if input.len() < HEADER_LEN {
        Err(FrameError::UnexpectedEof)
    } else {
        match length_check(header_fields(input), crc32(input.subrange(0, 8))) {
            Err(e) => Err(e),
            Ok(_) => Ok(header_fields(input)),
        }
    }
}

/// What holding `body` against `header` gives.
pub open spec fn parse_body(header: FrameHeader, body: Seq<u8>) -> Result<(), FrameError> {
    body_check(header, crc32(spec_u64_to_le_bytes(header.body_len)), crc32(body))
}

/// The body of the frame at the start of `input`, or why there is none.
pub open spec fn parse_frame(input: Seq<u8>) -> Result<Seq<u8>, FrameError> {
    match parse_header(input) {
        Err(e) => Err(e),
        Ok(header) => if input.len() - HEADER_LEN < header.body_len {
            Err(FrameError::UnexpectedEof)
        } else {
            let body = input.subrange(HEADER_LEN as int, HEADER_LEN + header.body_len);
            match parse_body(header, body) {
                Err(e) => Err(e),
                Ok(_) => Ok(body),
            }
        },
    }
}

/// A frame is read back as the body it was written around, whatever
/// follows it.
pub proof fn lemma_frame_roundtrip(body: Seq<u8>, rest: Seq<u8>)
    requires
        body.len() <= u64::MAX,
    ensures
        frame(body).len() == HEADER_LEN + body.len(),
        parse_frame(frame(body) + rest) == Ok::<Seq<u8>, FrameError>(body),
{
    lemma_auto_spec_u64_to_from_le_bytes();
    lemma_auto_spec_u32_to_from_le_bytes();
    let body_len = spec_u64_to_le_bytes(body.len() as u64);
    let len_crc = spec_u32_to_le_bytes(crc32(body_len));
    let body_crc = spec_u32_to_le_bytes(crc32(body));
    let input = frame(body) + rest;
    assert(body_len.len() == 8);
    assert(len_crc.len() == 4);
    assert(body_crc.len() == 4);
    assert(input.subrange(0, 8) =~= body_len);
    assert(input.subrange(8, 12) =~= len_crc);
    assert(input.subrange(12, 16) =~= body_crc);
    assert(announced_len(input) == body.len());
    assert(input.subrange(HEADER_LEN as int, HEADER_LEN + body.len()) =~= body);
}

/// Holds the checksum computed over the length field against the stored
/// one.
pub fn check_length_crc(header: &FrameHeader, actual_crc: u32) -> (checked: Result<(), FrameError>)
    ensures
        checked == length_check(*header, actual_crc),
{
    if actual_crc != header.body_len_crc {
        Err(
            FrameError::InvalidData(
                CrcMismatch {
                    part: FramePart::Length,
                    expected_crc: header.body_len_crc,
                    actual_crc,
                },
            ),
        )
    } else {
        Ok(())
    }
}

/// Holds the checksum computed over the body against the stored one. A
/// mismatch reports the checksums of the length field.
pub fn check_body_crc(header: &FrameHeader, actual_len_crc: u32, actual_body_crc: u32) -> (checked:
    Result<(), FrameError>)
    ensures
        checked == body_check(*header, actual_len_crc, actual_body_crc),
{
    if actual_body_crc != header.body_crc {
        Err(
            FrameError::InvalidData(
                CrcMismatch {
                    part: FramePart::Body,
                    expected_crc: header.body_len_crc,
                    actual_crc: actual_len_crc,
                },
            ),
        )
    } else {
        Ok(())
    }
}

/// Appends `data` to `w`.
pub fn append_bytes(w: &mut Vec<u8>, data: &[u8])
    ensures
        final(w)@ == old(w)@ + data@,
{
    let n: usize = data.len();
    let mut i: usize = 0;
    while i < n
        invariant
            n == data@.len(),
            0 <= i <= n,
            w@ == old(w)@ + data@.take(i as int),
        decreases n - i,
    {
        w.push(data[i]);
        assert(data@.take(i + 1) =~= data@.take(i as int).push(data@[i as int]));
        assert(w@ =~= old(w)@ + data@.take(i + 1));
        i = i + 1;
    }
    assert(data@.take(n as int) =~= data@);
}

/// Writes a header out as its sixteen bytes.
pub fn encode_header(header: &FrameHeader) -> (bytes: Vec<u8>)
    ensures
        bytes@ == header_bytes(*header),
        bytes@.len() == HEADER_LEN,
{
    let mut bytes = u64_to_le_bytes(header.body_len);
    let mut len_crc_bytes = u32_to_le_bytes(header.body_len_crc);
    let mut body_crc_bytes = u32_to_le_bytes(header.body_crc);
    bytes.append(&mut len_crc_bytes);
    bytes.append(&mut body_crc_bytes);
    bytes
}

/// Builds the header of the frame around `buf`.
pub fn header_for_buf(buf: &[u8]) -> (header: Vec<u8>)
    ensures
        header@ == header_for(buf@),
        header@.len() == HEADER_LEN,
{
    let body_len: u64 = buf.len() as u64;
    let len_bytes = u64_to_le_bytes(body_len);
    let header = FrameHeader {
        body_len,
        body_len_crc: crc32fast::hash(len_bytes.as_slice()),
        body_crc: crc32fast::hash(buf),
    };
    encode_header(&header)
}

/// Appends the frame around `buf` to `w`.
pub fn write_frame(buf: &[u8], w: &mut Vec<u8>)
    ensures
        final(w)@ == old(w)@ + frame(buf@),
{
    let header = header_for_buf(buf);
    append_bytes(w, header.as_slice());
    append_bytes(w, buf);
    assert(w@ =~= old(w)@ + frame(buf@));
}

/// Reads the header at the start of `input` and holds the length against
/// its checksum.
pub fn read_header(input: &[u8]) -> (header: Result<FrameHeader, FrameError>)
    ensures
        header == parse_header(input@),
{
    if input.len() < HEADER_LEN {
        return Err(FrameError::UnexpectedEof);
    }
    let len_bytes = slice_subrange(input, 0, 8);
    let header = FrameHeader {
        body_len: u64_from_le_bytes(len_bytes),
        body_len_crc: u32_from_le_bytes(slice_subrange(input, 8, 12)),
        body_crc: u32_from_le_bytes(slice_subrange(input, 12, 16)),
    };
    let actual_len_crc: u32 = crc32fast::hash(len_bytes);
    match check_length_crc(&header, actual_len_crc) {
        Err(e) => Err(e),
        Ok(_) => Ok(header),
    }
}

/// Holds `body` against the checksum in `header`.
pub fn check_body(header: &FrameHeader, body: &[u8]) -> (checked: Result<(), FrameError>)
    ensures
        checked == parse_body(*header, body@),
{
    let len_bytes = u64_to_le_bytes(header.body_len);
    let actual_len_crc: u32 = crc32fast::hash(len_bytes.as_slice());
    let actual_body_crc: u32 = crc32fast::hash(body);
    check_body_crc(header, actual_len_crc, actual_body_crc)
}

/// Reads the frame that starts at `*at` in `input` and moves `*at` behind
/// it. On an error `*at` stays.
pub fn read_frame(input: &[u8], at: &mut usize) -> (body: Result<Vec<u8>, FrameError>)
    requires
        *old(at) <= input@.len(),
    ensures
        match parse_frame(input@.skip(*old(at) as int)) {
            Ok(expected) => body is Ok && body.unwrap()@ == expected && *final(at) == *old(at)
                + HEADER_LEN + expected.len(),
            Err(e) => body == Err::<Vec<u8>, FrameError>(e) && *final(at) == *old(at),
        },
{
    let start: usize = *at;
    let rest = slice_subrange(input, start, input.len());
    assert(rest@ =~= input@.skip(start as int));
    let header = match read_header(rest) {
        Err(e) => {
            return Err(e);
        },
        Ok(header) => header,
    };
    if ((rest.len() - HEADER_LEN) as u64) < header.body_len {
        return Err(FrameError::UnexpectedEof);
    }
    let body_end: usize = HEADER_LEN + header.body_len as usize;
    let body = slice_subrange(rest, HEADER_LEN, body_end);
    if let Err(e) = check_body(&header, body) {
        return Err(e);
    }
    *at = start + body_end;
    Ok(crate::bytes::copy_bytes(body))
}

} // verus!
