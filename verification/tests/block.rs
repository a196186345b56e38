use std::collections::BTreeMap;

use komora::block::{assemble, Block, BlockError};
use komora::bytes::Bytes;
use komora::write_batch::Entry;
use rand::{thread_rng, Rng};

fn entries_of(model: &BTreeMap<Vec<u8>, [u8; 8]>) -> Vec<Entry> {
    model.iter().map(|(k, v)| Entry { key: Bytes::from_slice(k), value: Bytes::from_slice(v) }).collect()
}

fn entry(key: &[u8], value: &[u8]) -> Entry {
    Entry { key: Bytes::from_slice(key), value: Bytes::from_slice(value) }
}

#[test]
fn smoke_fst_map() {
    const N_TESTS: usize = 128;

    const TEST_SIZE: usize = 1024;

    let mut rng = thread_rng();

    for _ in 0..N_TESTS {
        let model: BTreeMap<Vec<u8>, [u8; 8]> = (0..TEST_SIZE)
            .map(|_| {
                let k: u64 = rng.gen();
                let k_buf = k.to_le_bytes();

                (k_buf.to_vec(), k.to_le_bytes())
            })
            .collect();

        let map = Block::from(&entries_of(&model), 8).unwrap();

        for (k_a, v_a) in &model {
            let v_b = map.get(k_a).unwrap();
            assert_eq!(v_a, v_b);
        }
    }
}

#[test]
fn block_finds_every_key_and_no_other() {
    let block = Block::from(
        &vec![entry(b"", b"v0"), entry(b"a", b"v1"), entry(b"ab", b"v2"), entry(b"b", b"v3")],
        2,
    )
    .unwrap();
    assert_eq!(block.get(b""), Some(&b"v0"[..]));
    assert_eq!(block.get(b"a"), Some(&b"v1"[..]));
    assert_eq!(block.get(b"ab"), Some(&b"v2"[..]));
    assert_eq!(block.get(b"b"), Some(&b"v3"[..]));
    assert_eq!(block.get(b"abc"), None);
    assert_eq!(block.get(b"c"), None);
}

#[test]
fn empty_block_holds_nothing() {
    let block = Block::from(&vec![], 4).unwrap();
    assert_eq!(block.get(b""), None);
    assert_eq!(block.get(b"k"), None);
}

#[test]
fn block_of_empty_values() {
    let block = Block::from(&vec![entry(b"a", b""), entry(b"b", b"")], 0).unwrap();
    assert_eq!(block.get(b"a"), Some(&b""[..]));
    assert_eq!(block.get(b"c"), None);
}

#[test]
fn keys_out_of_order_are_rejected() {
    let unsorted = vec![entry(b"b", b"1"), entry(b"a", b"2")];
    assert!(matches!(Block::from(&unsorted, 1), Err(BlockError::OutOfOrder)));
    let twice = vec![entry(b"a", b"1"), entry(b"a", b"2")];
    assert!(matches!(Block::from(&twice, 1), Err(BlockError::OutOfOrder)));
    let prefix_later = vec![entry(b"ab", b"1"), entry(b"a", b"2")];
    assert!(matches!(Block::from(&prefix_later, 1), Err(BlockError::OutOfOrder)));
}

#[test]
fn values_of_another_size_are_rejected() {
    let entries = vec![entry(b"a", b"12"), entry(b"b", b"1")];
    assert!(matches!(Block::from(&entries, 2), Err(BlockError::ValueSize)));
    // the size is looked at before the order
    let both = vec![entry(b"b", b"12"), entry(b"a", b"1")];
    assert!(matches!(Block::from(&both, 2), Err(BlockError::ValueSize)));
}

#[test]
fn buffer_is_offset_then_index_then_values() {
    assert_eq!(
        assemble(vec![1, 2, 3], vec![9, 9]),
        Some(vec![11, 0, 0, 0, 0, 0, 0, 0, 1, 2, 3, 9, 9])
    );
    assert_eq!(assemble(vec![], vec![]), Some(vec![8, 0, 0, 0, 0, 0, 0, 0]));
}

#[test]
fn values_lie_at_their_positions() {
    let block =
        Block::from(&vec![entry(b"a", b"xx"), entry(b"b", b"yy"), entry(b"c", b"zz")], 2).unwrap();
    assert_eq!(block.len(), 3);
    assert_eq!(block.value_array(), b"xxyyzz");
    assert_eq!(block.value_at(0), Some(&b"xx"[..]));
    assert_eq!(block.value_at(2), Some(&b"zz"[..]));
    assert_eq!(block.value_at(3), None);
    assert_eq!(block.value_at(u64::MAX), None);
    // the index of three short keys is more than the bare frame of a transducer
    assert!(block.value_start_offset() > 8 + 36);
}
