use komora::batch::{read_batch, read_payload, write_batch};
use komora::frame::{
    check_body, check_body_crc, check_length_crc, encode_header, header_for_buf, read_frame,
    read_header, write_frame, CrcMismatch, FrameError, FrameHeader, FramePart, HEADER_LEN,
};
use rand::{thread_rng, Rng};

#[test]
fn smoke_frame() {
    const N: usize = 128;

    let mut rng = thread_rng();

    let mut expected_frames = vec![];
    let mut frame_buf = vec![];

    for _ in 0..N {
        let len = rng.gen_range(0..111);
        let mut buf = vec![0_u8; len];
        rng.fill(&mut buf[..]);

        write_frame(&buf, &mut frame_buf);
        expected_frames.push(buf);
    }

    expected_frames.reverse();

    let mut at = 0;

    for _ in 0..N {
        let next = read_frame(&frame_buf, &mut at).unwrap();
        let expected_next = expected_frames.pop().unwrap();
        assert_eq!(next, expected_next);
    }

    assert!(read_frame(&frame_buf, &mut at).is_err());
}

#[test]
fn smoke_batch() {
    const N: u64 = 128;

    let mut rng = thread_rng();
    let mut expected_batches = vec![];
    let mut frame_buf = vec![];

    for _ in 0..N {
        let batch_len = rng.gen_range(0..111);
        let mut batch = vec![];

        for _ in 0..batch_len {
            let len = rng.gen_range(0..111);
            let mut buf = vec![0_u8; len];
            rng.fill(&mut buf[..]);
            batch.push(buf);
        }

        write_batch(&batch, &mut frame_buf);
        expected_batches.push(batch);
    }

    expected_batches.reverse();

    let mut at = 0;

    for _ in 0..N {
        let next_batch = read_batch(&frame_buf, &mut at).unwrap();
        let expected_next = expected_batches.pop().unwrap();
        assert_eq!(next_batch, expected_next);
    }

    assert!(read_frame(&frame_buf, &mut at).is_err());
}

#[test]
fn header_holds_length_and_checksums() {
    let header = header_for_buf(b"123456789");
    assert_eq!(header.len(), HEADER_LEN);
    assert_eq!(&header[0..8], &9u64.to_le_bytes());
    // the CRC-32 of the digits one to nine is the well-known check value
    assert_eq!(&header[12..16], &0xCBF4_3926u32.to_le_bytes());
    assert_eq!(&header[8..12], &crc32fast::hash(&9u64.to_le_bytes()).to_le_bytes());
    assert_ne!(&header[8..12], &header[12..16]);
}

#[test]
fn frame_is_header_then_body() {
    let mut out = vec![0xAA];
    write_frame(b"hello", &mut out);
    assert_eq!(out.len(), 1 + HEADER_LEN + 5);
    assert_eq!(out[0], 0xAA);
    assert_eq!(&out[1..1 + HEADER_LEN], &header_for_buf(b"hello")[..]);
    assert_eq!(&out[1 + HEADER_LEN..], b"hello");
    let mut at = 1;
    assert_eq!(read_frame(&out, &mut at), Ok(b"hello".to_vec()));
    assert_eq!(at, out.len());
}

#[test]
fn empty_body_has_a_frame() {
    let mut out = vec![];
    write_frame(b"", &mut out);
    assert_eq!(out.len(), HEADER_LEN);
    let mut at = 0;
    assert_eq!(read_frame(&out, &mut at), Ok(vec![]));
    assert_eq!(at, HEADER_LEN);
}

#[test]
fn short_input_is_an_early_end() {
    let mut out = vec![];
    write_frame(b"hello", &mut out);
    let mut at = 0;
    assert_eq!(read_frame(&out[..HEADER_LEN - 1], &mut at), Err(FrameError::UnexpectedEof));
    assert_eq!(read_frame(&out[..out.len() - 1], &mut at), Err(FrameError::UnexpectedEof));
    assert_eq!(read_frame(&[], &mut at), Err(FrameError::UnexpectedEof));
    assert_eq!(at, 0);
}

#[test]
fn damaged_length_is_reported() {
    let mut out = vec![];
    write_frame(b"hello", &mut out);
    let stored = u32::from_le_bytes([out[8], out[9], out[10], out[11]]);
    out[0] ^= 1;
    let actual = crc32fast::hash(&out[0..8]);
    let mut at = 0;
    assert_eq!(
        read_frame(&out, &mut at),
        Err(FrameError::InvalidData(CrcMismatch {
            part: FramePart::Length,
            expected_crc: stored,
            actual_crc: actual,
        }))
    );
    assert_eq!(at, 0);
}

#[test]
fn damaged_body_is_reported() {
    let mut out = vec![];
    write_frame(b"hello", &mut out);
    let stored = u32::from_le_bytes([out[8], out[9], out[10], out[11]]);
    let last = out.len() - 1;
    out[last] ^= 0x80;
    let mut at = 0;
    assert_eq!(
        read_frame(&out, &mut at),
        Err(FrameError::InvalidData(CrcMismatch {
            part: FramePart::Body,
            expected_crc: stored,
            actual_crc: stored,
        }))
    );
    assert_eq!(at, 0);
}

#[test]
fn checksums_are_held_against_the_header() {
    let header = FrameHeader { body_len: 3, body_len_crc: 10, body_crc: 20 };
    assert_eq!(check_length_crc(&header, 10), Ok(()));
    assert_eq!(
        check_length_crc(&header, 11),
        Err(FrameError::InvalidData(CrcMismatch {
            part: FramePart::Length,
            expected_crc: 10,
            actual_crc: 11,
        }))
    );
    assert_eq!(check_body_crc(&header, 10, 20), Ok(()));
    assert_eq!(
        check_body_crc(&header, 10, 21),
        Err(FrameError::InvalidData(CrcMismatch {
            part: FramePart::Body,
            expected_crc: 10,
            actual_crc: 10,
        }))
    );
}

#[test]
fn batch_body_layout() {
    let mut framed = vec![];
    write_batch(&[b"ab".to_vec(), vec![], b"c".to_vec()], &mut framed);
    let mut at = 0;
    let body = read_frame(&framed, &mut at).unwrap();
    let mut expected = vec![];
    expected.extend_from_slice(&3u64.to_le_bytes());
    expected.extend_from_slice(&2u64.to_le_bytes());
    expected.extend_from_slice(b"ab");
    expected.extend_from_slice(&0u64.to_le_bytes());
    expected.extend_from_slice(&1u64.to_le_bytes());
    expected.extend_from_slice(b"c");
    assert_eq!(body, expected);
    assert_eq!(read_payload(&body), Some(vec![b"ab".to_vec(), vec![], b"c".to_vec()]));
}

#[test]
fn empty_batch_roundtrip() {
    let mut framed = vec![];
    write_batch(&[], &mut framed);
    let mut at = 0;
    assert_eq!(read_batch(&framed, &mut at), Ok(vec![]));
    assert_eq!(at, framed.len());
}

#[test]
fn truncated_batch_body_is_an_early_end() {
    assert_eq!(read_payload(&[1, 0, 0]), None);
    let mut body = vec![];
    body.extend_from_slice(&2u64.to_le_bytes());
    body.extend_from_slice(&1u64.to_le_bytes());
    body.push(7);
    assert_eq!(read_payload(&body), None);
    body.extend_from_slice(&5u64.to_le_bytes());
    body.extend_from_slice(b"abcd");
    assert_eq!(read_payload(&body), None);

    let mut framed = vec![];
    write_frame(&body, &mut framed);
    let mut at = 0;
    assert_eq!(read_batch(&framed, &mut at), Err(FrameError::UnexpectedEof));
    assert_eq!(at, 0);
}

#[test]
fn batch_ignores_what_follows_its_last_entry() {
    let mut body = vec![];
    body.extend_from_slice(&1u64.to_le_bytes());
    body.extend_from_slice(&1u64.to_le_bytes());
    body.push(7);
    body.extend_from_slice(b"trailing");
    assert_eq!(read_payload(&body), Some(vec![vec![7]]));
}

#[test]
fn header_is_read_and_checked_alone() {
    let mut framed = vec![];
    write_frame(b"body", &mut framed);
    let header = read_header(&framed[..HEADER_LEN]).unwrap();
    assert_eq!(header.body_len, 4);
    assert_eq!(header.body_crc, crc32fast::hash(b"body"));
    assert_eq!(header.body_len_crc, crc32fast::hash(&4u64.to_le_bytes()));
    assert_eq!(check_body(&header, b"body"), Ok(()));
    assert_eq!(
        check_body(&header, b"bodx"),
        Err(FrameError::InvalidData(CrcMismatch {
            part: FramePart::Body,
            expected_crc: header.body_len_crc,
            actual_crc: header.body_len_crc,
        }))
    );
    assert_eq!(read_header(&framed[..HEADER_LEN - 1]), Err(FrameError::UnexpectedEof));
    framed[7] ^= 0xff;
    assert!(matches!(
        read_header(&framed),
        Err(FrameError::InvalidData(CrcMismatch { part: FramePart::Length, .. }))
    ));
}

#[test]
fn header_fields_are_little_endian() {
    let header = FrameHeader { body_len: 0x0102, body_len_crc: 0x0a0b0c0d, body_crc: 1 };
    assert_eq!(
        encode_header(&header),
        vec![0x02, 0x01, 0, 0, 0, 0, 0, 0, 0x0d, 0x0c, 0x0b, 0x0a, 1, 0, 0, 0]
    );
}
