use komora::bytes::{bytes_lt, Bytes};
use komora::db::{open, Db};
use komora::transactor::{apply_transactors, Bound, CollectionId, InterestFilter, Transactor};
use komora::write_batch::WriteBatch;

#[test]
fn transactor_00() {
    let mut db: Db<fn(WriteBatch) -> WriteBatch> = open("tests/transactor.rs:6").unwrap();

    {
        let mut tx = db.tx();
        tx.insert(b"a", b"a");
        tx.commit().unwrap();
    }

    {
        let mut tx = db.tx();
        let read = tx.get(b"a").unwrap().unwrap();
        assert_eq!(read, b"a");
    }
}

fn batch_of(pairs: &[(&[u8], &[u8])]) -> WriteBatch {
    let mut batch = WriteBatch::new();
    for (key, value) in pairs {
        batch.insert(Bytes::from_slice(key), Bytes::from_slice(value));
    }
    batch
}

fn tag(mut batch: WriteBatch) -> WriteBatch {
    batch.insert(Bytes::from_slice(b"seen"), Bytes::from_slice(b"yes"));
    batch
}

#[test]
fn byte_strings_are_ordered_by_their_first_difference() {
    assert!(bytes_lt(b"", b"a"));
    assert!(!bytes_lt(b"", b""));
    assert!(!bytes_lt(b"a", b""));
    assert!(bytes_lt(b"a", b"ab"));
    assert!(!bytes_lt(b"ab", b"a"));
    assert!(bytes_lt(b"ab", b"b"));
    assert!(!bytes_lt(b"b", b"ab"));
    assert!(!bytes_lt(b"abc", b"abc"));
    assert!(bytes_lt(&[0x7f], &[0x80]));
}

#[test]
fn key_filter_matches_its_key_only() {
    let filter = InterestFilter::Key(Bytes::from_slice(b"k"));
    assert!(filter.matches(&batch_of(&[(b"a", b"1"), (b"k", b"2")])));
    assert!(!filter.matches(&batch_of(&[(b"a", b"1"), (b"kk", b"2")])));
    assert!(!filter.matches(&WriteBatch::new()));
}

#[test]
fn range_filter_respects_its_ends() {
    let half_open = InterestFilter::Range {
        start: Bound::Included(Bytes::from_slice(b"b")),
        end: Bound::Excluded(Bytes::from_slice(b"d")),
    };
    assert!(half_open.admits_key(b"b"));
    assert!(half_open.admits_key(b"c"));
    assert!(half_open.admits_key(b"czz"));
    assert!(!half_open.admits_key(b"d"));
    assert!(!half_open.admits_key(b"a"));
    assert!(half_open.matches(&batch_of(&[(b"a", b""), (b"bb", b"")])));
    assert!(!half_open.matches(&batch_of(&[(b"a", b""), (b"d", b"")])));

    let open_closed = InterestFilter::Range {
        start: Bound::Excluded(Bytes::from_slice(b"b")),
        end: Bound::Included(Bytes::from_slice(b"d")),
    };
    assert!(!open_closed.admits_key(b"b"));
    assert!(open_closed.admits_key(b"ba"));
    assert!(open_closed.admits_key(b"d"));
    assert!(!open_closed.admits_key(b"da"));

    let all = InterestFilter::Range { start: Bound::Unbounded, end: Bound::Unbounded };
    assert!(all.admits_key(b""));
    assert!(all.matches(&batch_of(&[(b"", b"")])));
    assert!(!all.matches(&WriteBatch::new()));
}

#[test]
fn transactor_transforms_only_what_its_filter_matches() {
    let transactor = Transactor {
        collection_id: CollectionId { value: 1 },
        filter: InterestFilter::Key(Bytes::from_slice(b"k")),
        transformer: tag,
    };
    let hit = transactor.apply(batch_of(&[(b"k", b"1")]));
    assert_eq!(hit.get(b"seen"), Some(b"yes".to_vec()));
    assert_eq!(hit.get(b"k"), Some(b"1".to_vec()));
    let miss = transactor.apply(batch_of(&[(b"j", b"1")]));
    assert_eq!(miss.get(b"seen"), None);
    assert_eq!(miss.len(), 1);
}

#[test]
fn transactors_run_in_sequence() {
    let first = Transactor {
        collection_id: CollectionId { value: 1 },
        filter: InterestFilter::Key(Bytes::from_slice(b"k")),
        transformer: tag as fn(WriteBatch) -> WriteBatch,
    };
    // the second one sees what the first one added
    let second = Transactor {
        collection_id: CollectionId { value: 2 },
        filter: InterestFilter::Key(Bytes::from_slice(b"seen")),
        transformer: (|mut batch: WriteBatch| {
            batch.remove(b"k");
            batch
        }) as fn(WriteBatch) -> WriteBatch,
    };
    let out = apply_transactors(&vec![first, second], batch_of(&[(b"k", b"1")]));
    assert_eq!(out.get(b"seen"), Some(b"yes".to_vec()));
    assert_eq!(out.get(b"k"), None);
    let same = apply_transactors(&Vec::<Transactor<fn(WriteBatch) -> WriteBatch>>::new(), batch_of(&[(b"k", b"1")]));
    assert_eq!(same.get(b"k"), Some(b"1".to_vec()));
}

#[test]
fn commit_passes_the_batch_through_the_transactors() {
    let mut db: Db<fn(WriteBatch) -> WriteBatch> = open("transactors").unwrap();
    db.transactors.push(Transactor {
        collection_id: CollectionId { value: 1 },
        filter: InterestFilter::Range {
            start: Bound::Included(Bytes::from_slice(b"k")),
            end: Bound::Unbounded,
        },
        transformer: tag,
    });
    {
        let mut tx = db.tx();
        tx.insert(b"a", b"1");
        tx.commit().unwrap();
    }
    assert_eq!(db.get(b"a"), Some(b"1".to_vec()));
    assert_eq!(db.get(b"seen"), None);
    {
        let mut tx = db.tx();
        tx.insert(b"m", b"2");
        tx.commit().unwrap();
    }
    assert_eq!(db.get(b"m"), Some(b"2".to_vec()));
    assert_eq!(db.get(b"seen"), Some(b"yes".to_vec()));
    let untouched = db.apply_transactors(batch_of(&[(b"b", b"")]));
    assert_eq!(untouched.len(), 1);
}

#[test]
fn write_batch_is_a_map() {
    let mut batch = WriteBatch::new();
    assert!(!batch.contains_key(b"a"));
    batch.insert(Bytes::from_slice(b"a"), Bytes::from_slice(b"1"));
    batch.insert(Bytes::from_slice(b"b"), Bytes::from_slice(b"2"));
    batch.insert(Bytes::from_slice(b"a"), Bytes::from_slice(b"3"));
    assert_eq!(batch.len(), 2);
    assert_eq!(batch.get(b"a"), Some(b"3".to_vec()));
    assert_eq!(batch.get_ref(b"b").unwrap().as_slice(), b"2");
    batch.remove(b"a");
    batch.remove(b"zz");
    assert_eq!(batch.len(), 1);
    assert_eq!(batch.get(b"a"), None);
    assert_eq!(batch.entry(0).key.to_vec(), b"b".to_vec());
    assert_eq!(Bytes::new(vec![1, 2]).len(), 2);
}
