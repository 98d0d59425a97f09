use crate::cursor::Cursor;
use crate::errors::SourceError;
use crate::view::View;
use vstd::view::View as _;
use vstd::prelude::*;
use vstd::slice::slice_subrange;

verus! {

/// Something that holds a sequence of bytes that can be peeked at by window.
pub trait ByteSource: Clone {
    /// The source can hand out its bytes: whatever it refers to is in range.
    spec fn valid(&self) -> bool;

    /// The bytes the source holds.
    spec fn bytes(&self) -> Seq<u8>;

    /// The window that the source reports, in its errors, as what it holds.
    spec fn frame(&self) -> Cursor;

    fn size(&self) -> (n: usize)
        ensures
            n == self.bytes().len(),
    ;

    /// The bytes of a window that lies within the source.
    fn _unsafe_peek(&self, cursor: Cursor) -> (out: &[u8])
        requires
            self.valid(),
            cursor.spec_end() <= self.bytes().len(),
        ensures
            out@ == self.bytes().subrange(cursor.offset as int, cursor.spec_end()),
    ;

    fn peek(&self, cursor: Cursor) -> (r: Result<&[u8], SourceError>)
        requires
            self.valid(),
            cursor.no_overflow(),
        ensures
            match r {
                Ok(out) => cursor.spec_end() <= self.bytes().len() && out@ == self.bytes().subrange(
                    cursor.offset as int,
                    cursor.spec_end(),
                ),
                Err(e) => cursor.spec_end() > self.bytes().len() && e == (
                SourceError::InsufficientData { cursor, view: self.frame() }),
            },
    {
        match self.check(cursor) {
            Ok(()) => {},
            Err(e) => return Err(e),
        }
        Ok(self._unsafe_peek(cursor))
    }

    fn peek_n(&self, size: usize) -> (r: Result<&[u8], SourceError>)
        requires
            self.valid(),
        ensures
            match r {
                Ok(out) => size <= self.bytes().len() && out@ == self.bytes().subrange(0, size as int),
                Err(e) => size > self.bytes().len() && e == (SourceError::InsufficientData {
                    cursor: Cursor { offset: 0, size },
                    view: self.frame(),
                }),
            },
    {
        self.peek(Cursor::fromstart(size))
    }

    /// Succeeds exactly when the window ends within the source.
    fn check(&self, cursor: Cursor) -> (r: Result<(), SourceError>)
        requires
            cursor.no_overflow(),
        ensures
            r is Ok <==> cursor.spec_end() <= self.bytes().len(),
            r matches Err(e) ==> e == (SourceError::InsufficientData { cursor, view: self.frame() }),
    ;
}

impl ByteSource for Vec<u8> {
    open spec fn valid(&self) -> bool {
        true
    }

    open spec fn bytes(&self) -> Seq<u8> {
        self@
    }

    /// The whole vector.
    open spec fn frame(&self) -> Cursor {
        Cursor { offset: 0, size: self@.len() as usize }
    }

    fn size(&self) -> (n: usize) {
        self.len()
    }

    fn _unsafe_peek(&self, cursor: Cursor) -> (out: &[u8]) {
        proof {
            broadcast use vstd::std_specs::vec::axiom_spec_len;

            assert(self.len() == self@.len());
        }
        slice_subrange(self.as_slice(), cursor.offset, cursor.end())
    }

    fn check(&self, cursor: Cursor) -> (r: Result<(), SourceError>) {
        if cursor.end() <= self.size() {
            Ok(())
        } else {
            Err(SourceError::InsufficientData { cursor, view: Cursor::fromstart(self.size()) })
        }
    }
}

impl<'a, S: ByteSource> ByteSource for View<'a, S> {
    open spec fn valid(&self) -> bool {
        self.wf()
    }

    open spec fn bytes(&self) -> Seq<u8> {
        self.spec_bytes()
    }

    /// The view's own window.
    open spec fn frame(&self) -> Cursor {
        self.cursor
    }

    fn size(&self) -> (n: usize) {
        self.cursor.size
    }

    fn _unsafe_peek(&self, cursor: Cursor) -> (out: &[u8]) {
        let out = self.source._unsafe_peek(cursor.add(self.cursor.offset));
        proof {
            assert(out@ =~= self.bytes().subrange(cursor.offset as int, cursor.spec_end()));
        }
        out
    }

    fn check(&self, cursor: Cursor) -> (r: Result<(), SourceError>) {
        if cursor.end() <= self.size() {
            Ok(())
        } else {
            Err(SourceError::InsufficientData { cursor, view: self.cursor })
        }
    }
}

} // verus!
