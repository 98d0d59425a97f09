use crate::byte_source::ByteSource;
use crate::cursor::Cursor;
use crate::errors::SourceError;
use memmap2::Mmap;
use std::sync::Arc;
use vstd::prelude::*;
use vstd::slice::slice_subrange;
use vstd::view::View as _;

verus! {

#[verifier::external_type_specification]
#[verifier::external_body]
pub struct ExMmap(Mmap);

/// The bytes that a read-only memory map shows. A file-backed map may not change under it
/// (modifying the file is undefined behavior by the terms on which the map was made), so
/// they are a function of the map.
pub uninterp spec fn mmap_bytes(map: Mmap) -> Seq<u8>;

/// `<Mmap as Deref>::deref`: the whole mapped region as a slice.
#[verifier::external_body]
fn mmap_slice(map: &Mmap) -> (s: &[u8])
    ensures
        s@ == mmap_bytes(*map),
{
    std::ops::Deref::deref(map)
}

/// A byte source over a memory-mapped file, of which the first `len` bytes are read.
#[derive(Clone)]
pub struct MmapByteSource {
    mmap: Arc<Mmap>,
    len: usize,
}

impl MmapByteSource {
    /// The map that the source reads from.
    pub closed spec fn map(&self) -> Mmap {
        *self.mmap
    }

    /// The number of bytes the source holds, as it was told when it was made.
    pub closed spec fn spec_len(&self) -> usize {
        self.len
    }

    /// A source over the first `len` bytes of `mmap`, where `len` is the file's size.
    pub fn from_parts(mmap: Mmap, len: usize) -> (s: Self)
        ensures
            s.map() == mmap,
            s.spec_len() == len,
    {
        MmapByteSource { mmap: Arc::new(mmap), len }
    }

    /// Whether the source is valid: the size it was given does not exceed what is mapped.
    pub fn is_valid(&self) -> (b: bool)
        ensures
            b == self.valid(),
    {
        self.len <= mmap_slice(&self.mmap).len()
    }
}

impl ByteSource for MmapByteSource {
    /// The file's size does not exceed what is mapped.
    open spec fn valid(&self) -> bool {
        self.spec_len() <= mmap_bytes(self.map()).len()
    }

    open spec fn bytes(&self) -> Seq<u8> {
        Seq::new(self.spec_len() as nat, |i: int| mmap_bytes(self.map())[i])
    }

    /// The whole of what the source holds.
    open spec fn frame(&self) -> Cursor {
        Cursor { offset: 0, size: self.spec_len() }
    }

    fn size(&self) -> (n: usize) {
        self.len
    }

    fn check(&self, cursor: Cursor) -> (r: Result<(), SourceError>) {
        if cursor.end() <= self.size() {
            Ok(())
        } else {
            Err(SourceError::InsufficientData { cursor, view: Cursor::fromstart(self.size()) })
        }
    }

    fn _unsafe_peek(&self, cursor: Cursor) -> (out: &[u8]) {
        let end = cursor.end();
        let all = mmap_slice(&self.mmap);
        let out = slice_subrange(all, cursor.offset, end);
        proof {
            assert(out@ =~= self.bytes().subrange(cursor.offset as int, cursor.spec_end()));
        }
        out
    }
}

} // verus!
