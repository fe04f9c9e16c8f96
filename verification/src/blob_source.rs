//! A large value that is pulled from a reader.

use vstd::prelude::*;

verus! {

/// A reader and the number of bytes it is to give.
pub struct ReaderBlobSource<R> {
    pub reader: R,
    pub len: usize,
}

impl<R> ReaderBlobSource<R> {
    /// Take `len` bytes from `reader`.
    pub fn new(reader: R, len: usize) -> (s: ReaderBlobSource<R>)
        ensures
            s.reader == reader,
            s.len == len,
    {
        ReaderBlobSource { reader, len }
    }

    /// The number of bytes declared.
    pub fn len(&self) -> (n: usize)
        ensures
            n == self.len,
    {
        self.len
    }
}

} // verus!
