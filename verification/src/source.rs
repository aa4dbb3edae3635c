//! The abstract byte source a reader pulls from: a deterministic byte stream
//! with a read position, offering best-effort reads and absolute seeks.

use vstd::prelude::*;

verus! {

/// A seekable byte stream.  `data()` is the whole stream and `pos()` the
/// current read position; both are ghost.  Reads hand back the next bytes of
/// `data()` and advance the position; an empty read means the position is at
/// or past the end.
pub trait ByteSource: Sized {
    /// The bytes the source will serve, from the beginning.
    spec fn data(&self) -> Seq<u8>;

    /// The current read position.
    spec fn pos(&self) -> int;

    /// Best-effort read of at most `max` bytes from the current position.
    /// An empty result is the end of the stream, nothing less.
    fn read_chunk(&mut self, max: usize) -> (r: Vec<u8>)
        requires
            max >= 1,
            old(self).pos() >= 0,
        ensures
            final(self).data() == old(self).data(),
            final(self).pos() == old(self).pos() + r@.len(),
            r@.len() <= max,
            r@.len() > 0 ==> old(self).pos() + r@.len() <= old(self).data().len(),
            forall|k: int|
                0 <= k < r@.len() ==> r@[k] == old(self).data()[old(self).pos() + k],
            r@.len() == 0 <==> old(self).pos() >= old(self).data().len(),
    ;

    /// Absolute seek from the start of the stream.
    fn seek(&mut self, p: u64)
        ensures
            final(self).data() == old(self).data(),
            final(self).pos() == p,
    ;
}

/// An in-memory byte source over an owned buffer.
#[derive(Debug, PartialEq)]
pub struct MemSource {
    bytes: Vec<u8>,
    cursor: u64,
}

impl MemSource {
    /// Wraps a buffer as a byte source positioned at its start.
    pub fn new(bytes: Vec<u8>) -> (r: Self)
        ensures
            r.data() == bytes@,
            r.pos() == 0,
    {
        MemSource { bytes, cursor: 0 }
    }

    /// Hands the underlying buffer back.
    pub fn into_inner(self) -> (r: Vec<u8>)
        ensures
            r@ == self.data(),
    {
        self.bytes
    }
}

impl ByteSource for MemSource {
    closed spec fn data(&self) -> Seq<u8> {
        self.bytes@
    }

    closed spec fn pos(&self) -> int {
        self.cursor as int
    }

    fn read_chunk(&mut self, max: usize) -> (r: Vec<u8>) {
        let len = self.bytes.len();
        if self.cursor >= len as u64 {
            return Vec::new();
        }
        let start = self.cursor as usize;
        let avail = len - start;
        let n = if max < avail {
            max
        } else {
            avail
        };
        let mut out: Vec<u8> = Vec::new();
        let mut j: usize = 0;
        while j < n
            invariant
                j <= n,
                len == self.bytes@.len(),
                start + n <= len,
                out@.len() == j,
                forall|k: int| 0 <= k < j ==> out@[k] == self.bytes@[start + k],
            decreases n - j,
        {
            out.push(self.bytes[start + j]);
            j = j + 1;
        }
        self.cursor = (start + n) as u64;
        out
    }

    fn seek(&mut self, p: u64) {
        self.cursor = p;
    }
}

} // verus!
