use komora::fs::{
    CreateError, FileAlreadyExists, FileDoesNotExist, MemFs, ReadError, UnexpectedEof,
};

#[test]
fn file_is_read_back_at_an_offset() {
    let mut fs = MemFs::new();
    assert_eq!(fs.create_unique("dir/file", b"0123456789"), Ok(()));
    let mut buf = vec![0u8; 4];
    assert_eq!(fs.read_at_exact("dir/file", 3, &mut buf), Ok(()));
    assert_eq!(buf, b"3456");
    let mut all = vec![0u8; 10];
    assert_eq!(fs.read_at_exact("dir/file", 0, &mut all), Ok(()));
    assert_eq!(all, b"0123456789");
    let mut none = vec![];
    assert_eq!(fs.read_at_exact("dir/file", 10, &mut none), Ok(()));
}

#[test]
fn reading_past_the_end_fails() {
    let mut fs = MemFs::new();
    fs.create_unique("f", b"0123").unwrap();
    let mut buf = vec![9u8; 3];
    assert_eq!(
        fs.read_at_exact("f", 2, &mut buf),
        Err(ReadError::UnexpectedEof(UnexpectedEof))
    );
    assert_eq!(buf, vec![9u8; 3]);
    assert_eq!(
        fs.read_at_exact("f", usize::MAX, &mut buf),
        Err(ReadError::UnexpectedEof(UnexpectedEof))
    );
    assert_eq!(
        fs.read_at_exact("f", 5, &mut vec![]),
        Err(ReadError::UnexpectedEof(UnexpectedEof))
    );
}

#[test]
fn missing_file_is_reported() {
    let fs = MemFs::new();
    let mut buf = vec![0u8; 1];
    assert_eq!(
        fs.read_at_exact("nowhere", 0, &mut buf),
        Err(ReadError::FileDoesNotExist(FileDoesNotExist))
    );
}

#[test]
fn file_is_created_once() {
    let mut fs = MemFs::new();
    assert_eq!(fs.create_unique("f", b"first"), Ok(()));
    assert_eq!(
        fs.create_unique("f", b"second"),
        Err(CreateError::FileAlreadyExists(FileAlreadyExists))
    );
    let mut buf = vec![0u8; 5];
    fs.read_at_exact("f", 0, &mut buf).unwrap();
    assert_eq!(buf, b"first");
}
