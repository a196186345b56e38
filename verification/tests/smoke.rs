use komora::db::{open, Db};
use komora::write_batch::WriteBatch;

/// A store whose transactors are plain functions.
type PlainDb = Db<fn(WriteBatch) -> WriteBatch>;

#[test]
fn smoke_00() {
    let mut db: PlainDb = open("smoke_00").unwrap();

    {
        let mut tx = db.tx();
        tx.insert(b"a", b"a");
        tx.commit().unwrap();
    }

    {
        let mut tx = db.tx();
        let read = tx.get(b"a").unwrap().unwrap();
        assert_eq!(read, b"a");
    }
}

#[test]
fn smoke_smoke_00() {
    let mut db: PlainDb = open("tests/smoke.rs:6").unwrap();

    {
        let mut tx = db.tx();
        tx.insert(b"a", b"a");
        tx.commit().unwrap();
    }

    {
        let mut tx = db.tx();
        let read = tx.get(b"a").unwrap().unwrap();
        assert_eq!(read, b"a");
    }
}

#[test]
fn reads_see_own_writes_before_commit() {
    let mut db: PlainDb = open("overlay").unwrap();
    {
        let mut tx = db.tx();
        assert_eq!(tx.insert(b"k", b"1"), None);
        tx.commit().unwrap();
    }
    let mut tx = db.tx();
    assert_eq!(tx.get(b"k").unwrap(), Some(b"1".to_vec()));
    assert_eq!(tx.insert(b"k", b"2"), Some(b"1".to_vec()));
    assert_eq!(tx.get(b"k").unwrap(), Some(b"2".to_vec()));
    assert_eq!(tx.insert(b"k", b"3"), Some(b"2".to_vec()));
    assert_eq!(tx.remove(b"k"), Some(b"3".to_vec()));
    assert_eq!(tx.get(b"k").unwrap(), Some(b"1".to_vec()));
    assert_eq!(tx.get(b"missing").unwrap(), None);
    assert_eq!(tx.remove(b"missing"), None);
}

#[test]
fn uncommitted_writes_are_dropped() {
    let mut db: PlainDb = open("dropped").unwrap();
    {
        let mut tx = db.tx();
        tx.insert(b"a", b"a");
    }
    let mut tx = db.tx();
    assert_eq!(tx.get(b"a").unwrap(), None);
}

#[test]
fn commit_overwrites_and_keeps_other_keys() {
    let mut db: PlainDb = open("overwrite").unwrap();
    {
        let mut tx = db.tx();
        tx.insert(b"a", b"1");
        tx.insert(b"b", b"2");
        tx.commit().unwrap();
    }
    {
        let mut tx = db.tx();
        tx.insert(b"a", b"9");
        tx.range(0..1);
        tx.commit().unwrap();
    }
    assert_eq!(db.get(b"a"), Some(b"9".to_vec()));
    assert_eq!(db.get(b"b"), Some(b"2".to_vec()));
    assert_eq!(db.get(b""), None);
}
