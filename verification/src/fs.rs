//! An in-memory filesystem of immutable files, and the errors of
//! filesystem calls.

use crate::bytes::Bytes;
use crate::write_batch::WriteBatch;
use vstd::prelude::*;
use vstd::string::StringSliceAdditionalSpecFns;

verus! {

/// A file of that name exists already.
#[derive(Debug, Clone, Copy, PartialEq, Eq, Structural)]
pub struct FileAlreadyExists;

/// No file of that name exists.
#[derive(Debug, Clone, Copy, PartialEq, Eq, Structural)]
pub struct FileDoesNotExist;

/// The file ends before the requested bytes do.
#[derive(Debug, Clone, Copy, PartialEq, Eq, Structural)]
pub struct UnexpectedEof;

/// The store cannot serve the request.
#[derive(Debug, Clone, Copy, PartialEq, Eq, Structural)]
pub struct Unavailable;

/// Why a read failed.
#[derive(Debug, Clone, Copy, PartialEq, Eq, Structural)]
pub enum ReadError {
    FileDoesNotExist(FileDoesNotExist),
    UnexpectedEof(UnexpectedEof),
    Unavailable(Unavailable),
}

/// Why a file could not be created.
#[derive(Debug, Clone, Copy, PartialEq, Eq, Structural)]
pub enum CreateError {
    FileAlreadyExists(FileAlreadyExists),
    Unavailable(Unavailable),
}

/// A filesystem in memory: a map from paths to file contents.
#[derive(Debug)]
pub struct MemFs {
    files: WriteBatch,
}

impl View for MemFs {
    type V = Map<Seq<u8>, Seq<u8>>;

    /// The contents of every file, under the bytes of its path.
    closed spec fn view(&self) -> Map<Seq<u8>, Seq<u8>> {
        self.files@
    }
}

/// What a read of `len` bytes at offset `at` of `path` gives.
pub open spec fn read_of(files: Map<Seq<u8>, Seq<u8>>, path: Seq<u8>, at: int, len: int) -> Result<
    Seq<u8>,
    ReadError,
> {
    if !files.contains_key(path) {
        Err(ReadError::FileDoesNotExist(FileDoesNotExist))
    } else if files[path].len() < len + at {
        Err(ReadError::UnexpectedEof(UnexpectedEof))
    } else {
        Ok(files[path].subrange(at, at + len))
    }
}

impl MemFs {
    pub closed spec fn wf(&self) -> bool {
        self.files.wf()
    }

    /// A filesystem without files.
    pub fn new() -> (fs: MemFs)
        ensures
            fs.wf(),
            fs@ == Map::<Seq<u8>, Seq<u8>>::empty(),
    {
        MemFs { files: WriteBatch::new() }
    }

    /// Fills `buf` with the bytes of the file at `path` that start at
    /// offset `at`. On an error `buf` is left as it was.
    pub fn read_at_exact(&self, path: &str, at: usize, buf: &mut Vec<u8>) -> (done: Result<
        (),
        ReadError,
    >)
        requires
            self.wf(),
        ensures
            match read_of(self@, path.spec_bytes(), at as int, old(buf)@.len() as int) {
                Ok(bytes) => done is Ok && final(buf)@ == bytes,
                Err(e) => done == Err::<(), ReadError>(e) && final(buf)@ == old(buf)@,
            },
    {
        let n: usize = buf.len();
        let file = match self.files.get_ref(path.as_bytes()) {
            None => {
                return Err(ReadError::FileDoesNotExist(FileDoesNotExist));
            },
            Some(file) => file.as_slice(),
        };
        if file.len() < at || file.len() - at < n {
            return Err(ReadError::UnexpectedEof(UnexpectedEof));
        }
        let mut i: usize = 0;
        while i < n
            invariant
                n == buf@.len(),
                at + n <= file@.len(),
                file@.len() <= usize::MAX,
                0 <= i <= n,
                forall|k: int| 0 <= k < i ==> buf@[k] == file@[at + k],
            decreases n - i,
        {
            buf.set(i, file[at + i]);
            i = i + 1;
        }
        assert(buf@ =~= file@.subrange(at as int, at + n));
        Ok(())
    }

    /// Creates the file at `path` with the contents `buf`, unless a file
    /// of that name exists.
    pub fn create_unique(&mut self, path: &str, buf: &[u8]) -> (done: Result<(), CreateError>)
        requires
            old(self).wf(),
        ensures
            final(self).wf(),
            old(self)@.contains_key(path.spec_bytes()) ==> done == Err::<(), CreateError>(
                CreateError::FileAlreadyExists(FileAlreadyExists),
            ) && final(self)@ == old(self)@,
            !old(self)@.contains_key(path.spec_bytes()) ==> done is Ok && final(self)@ == old(
                self,
            )@.insert(path.spec_bytes(), buf@),
    {
        if self.files.contains_key(path.as_bytes()) {
            return Err(CreateError::FileAlreadyExists(FileAlreadyExists));
        }
        self.files.insert(Bytes::from_slice(path.as_bytes()), Bytes::from_slice(buf));
        Ok(())
    }
}

} // verus!
