use crate::byte_source::ByteSource;
use crate::cursor::Cursor;
use crate::errors::{SourceError, VResult};
use vstd::prelude::*;
use vstd::view::View as _;

verus! {

/// A window onto a byte source, which reading moves forward.
#[derive(Debug)]
pub struct View<'a, S: ByteSource> {
    pub source: &'a S,
    pub cursor: Cursor,
}

impl<'a, S: ByteSource> View<'a, S> {
    /// The window lies within a valid source, and its end is a `usize`.
    pub open spec fn wf(&self) -> bool {
        &&& self.source.valid()
        &&& self.cursor.spec_end() <= self.source.bytes().len()
        &&& self.cursor.no_overflow()
    }

    /// The view onto the whole of `source`.
    pub open spec fn whole(source: &'a S) -> View<'a, S> {
        View { source, cursor: Cursor { offset: 0, size: source.bytes().len() as usize } }
    }

    /// The bytes of the source that the window shows.
    pub open spec fn spec_bytes(&self) -> Seq<u8> {
        Seq::new(self.cursor.size as nat, |i: int| self.source.bytes()[self.cursor.offset + i])
    }

    /// The view after skipping past the end of the relative window `rel`.
    pub open spec fn skipped(self, rel: Cursor) -> View<'a, S> {
        View {
            source: self.source,
            cursor: Cursor {
                offset: (self.cursor.offset + rel.spec_end()) as usize,
                size: (self.cursor.size - rel.spec_end()) as usize,
            },
        }
    }

    /// The view onto the relative window `rel`.
    pub open spec fn spec_subview(self, rel: Cursor) -> View<'a, S> {
        View { source: self.source, cursor: rel.shifted(self.cursor.offset as int) }
    }

    pub fn offset(&self) -> (o: usize)
        ensures
            o == self.cursor.offset,
    {
        self.cursor.offset
    }

    /// Moves the view past the end of the relative window `cursor`, which must end within
    /// the view.
    pub fn skip(&mut self, cursor: Cursor) -> (r: VResult<()>)
        requires
            cursor.spec_end() <= old(self).cursor.size ==> old(self).cursor.offset
                + cursor.spec_end() <= usize::MAX,
            cursor.no_overflow(),
        ensures
            r is Ok <==> cursor.spec_end() <= old(self).cursor.size,
            r is Ok ==> *final(self) == old(self).skipped(cursor),
            r matches Err(e) ==> *final(self) == *old(self) && e == (SourceError::InsufficientData {
                cursor,
                view: old(self).cursor,
            }),
    {
        match self.check(cursor) {
            Ok(()) => {},
            Err(e) => return Err(e),
        }
        self.cursor.offset = self.cursor.offset + cursor.end();
        self.cursor.size = self.cursor.size - cursor.end();
        Ok(())
    }

    /// The bytes of the relative window `cursor`, after which the view moves past it.
    pub fn consume(&mut self, cursor: Cursor) -> (r: VResult<&'a [u8]>)
        requires
            old(self).source.valid(),
            cursor.spec_end() <= old(self).cursor.size ==> old(self).cursor.offset
                + cursor.spec_end() <= usize::MAX,
            cursor.no_overflow(),
        ensures
            cursor.spec_end() > old(self).cursor.size ==> *final(self) == *old(self) && r == Err::<
                &'a [u8],
                SourceError,
            >(SourceError::InsufficientData { cursor, view: old(self).cursor }),
            cursor.spec_end() <= old(self).cursor.size ==> {
                let abs = cursor.shifted(old(self).cursor.offset as int);
                let len = old(self).source.bytes().len();
                &&& *final(self) == old(self).skipped(cursor)
                &&& match r {
                    Ok(out) => abs.spec_end() <= len && out@ == old(self).source.bytes().subrange(
                        abs.offset as int,
                        abs.spec_end(),
                    ),
                    Err(e) => abs.spec_end() > len && e == (SourceError::InsufficientData {
                        cursor: abs,
                        view: old(self).source.frame(),
                    }),
                }
            },
            old(self).wf() ==> (r is Ok <==> cursor.spec_end() <= old(self).cursor.size),
            r matches Ok(out) ==> (old(self).wf() ==> out@ == old(self).spec_bytes().subrange(
                cursor.offset as int,
                cursor.spec_end(),
            )),
    {
        match self.check(cursor) {
            Ok(()) => {},
            Err(e) => return Err(e),
        }
        let source: &'a S = self.source;
        let output = source.peek(cursor.add(self.offset()));
        match self.skip(cursor) {
            Ok(()) => {},
            Err(e) => return Err(e),
        }
        proof {
            if old(self).wf() {
                if let Ok(out) = output {
                    assert(out@ =~= old(self).spec_bytes().subrange(
                        cursor.offset as int,
                        cursor.spec_end(),
                    ));
                }
            }
        }
        output
    }

    pub fn skip_n(&mut self, size: usize) -> (r: VResult<()>)
        requires
            size <= old(self).cursor.size ==> old(self).cursor.offset + size <= usize::MAX,
        ensures
            r is Ok <==> size <= old(self).cursor.size,
            r is Ok ==> *final(self) == old(self).skipped(Cursor { offset: 0, size }),
            r matches Err(e) ==> *final(self) == *old(self) && e == (SourceError::InsufficientData {
                cursor: Cursor { offset: 0, size },
                view: old(self).cursor,
            }),
    {
        self.skip(Cursor::fromstart(size))
    }

    pub fn consume_n(&mut self, size: usize) -> (r: VResult<&'a [u8]>)
        requires
            old(self).source.valid(),
            size <= old(self).cursor.size ==> old(self).cursor.offset + size <= usize::MAX,
        ensures
            size > old(self).cursor.size ==> *final(self) == *old(self) && r == Err::<
                &'a [u8],
                SourceError,
            >(
                SourceError::InsufficientData {
                    cursor: Cursor { offset: 0, size },
                    view: old(self).cursor,
                },
            ),
            size <= old(self).cursor.size ==> {
                let abs = Cursor { offset: old(self).cursor.offset, size };
                let len = old(self).source.bytes().len();
                &&& *final(self) == old(self).skipped(Cursor { offset: 0, size })
                &&& match r {
                    Ok(out) => abs.spec_end() <= len && out@ == old(self).source.bytes().subrange(
                        abs.offset as int,
                        abs.spec_end(),
                    ),
                    Err(e) => abs.spec_end() > len && e == (SourceError::InsufficientData {
                        cursor: abs,
                        view: old(self).source.frame(),
                    }),
                }
            },
            old(self).wf() ==> (r is Ok <==> size <= old(self).cursor.size),
            r matches Ok(out) ==> (old(self).wf() ==> out@ == old(self).spec_bytes().subrange(
                0,
                size as int,
            )),
    {
        self.consume(Cursor::fromstart(size))
    }

    /// A view onto the relative window `cursor`, which must end within this view.
    pub fn subview(&self, cursor: Cursor) -> (r: VResult<Self>)
        requires
            cursor.spec_end() <= self.cursor.size ==> self.cursor.offset + cursor.offset
                <= usize::MAX,
            cursor.no_overflow(),
        ensures
            r is Ok <==> cursor.spec_end() <= self.cursor.size,
            r matches Ok(v) ==> v == self.spec_subview(cursor),
            r matches Err(e) ==> e == (SourceError::InsufficientData { cursor, view: self.cursor }),
            r matches Ok(v) ==> (self.wf() ==> v.wf() && v.spec_bytes() == self.spec_bytes().subrange(
                cursor.offset as int,
                cursor.spec_end(),
            )),
    {
        match self.check(cursor) {
            Ok(()) => {},
            Err(e) => return Err(e),
        }
        let abs_cursor = cursor.add(self.offset());
        let v = View { source: self.source, cursor: abs_cursor };
        proof {
            assert(v.spec_bytes() =~= self.spec_bytes().subrange(
                cursor.offset as int,
                cursor.spec_end(),
            ));
        }
        Ok(v)
    }

    pub fn subview_n(&self, size: usize) -> (r: VResult<Self>)
        ensures
            r is Ok <==> size <= self.cursor.size,
            r matches Ok(v) ==> v == self.spec_subview(Cursor { offset: 0, size }),
            r matches Err(e) ==> e == (SourceError::InsufficientData {
                cursor: Cursor { offset: 0, size },
                view: self.cursor,
            }),
            r matches Ok(v) ==> (self.wf() ==> v.wf() && v.spec_bytes() == self.spec_bytes().subrange(
                0,
                size as int,
            )),
    {
        self.subview(Cursor::fromstart(size))
    }

    /// A view onto the relative window `rel_cursor`, after which this view moves past it.
    pub fn consume_subview(&mut self, rel_cursor: Cursor) -> (r: VResult<Self>)
        requires
            rel_cursor.spec_end() <= old(self).cursor.size ==> old(self).cursor.offset
                + rel_cursor.spec_end() <= usize::MAX,
            rel_cursor.no_overflow(),
        ensures
            r is Ok <==> rel_cursor.spec_end() <= old(self).cursor.size,
            r matches Ok(v) ==> v == old(self).spec_subview(rel_cursor) && *final(self) == old(
                self,
            ).skipped(rel_cursor),
            r matches Err(e) ==> *final(self) == *old(self) && e == (SourceError::InsufficientData {
                cursor: rel_cursor,
                view: old(self).cursor,
            }),
            r matches Ok(v) ==> (old(self).wf() ==> v.wf() && v.spec_bytes() == old(
                self,
            ).spec_bytes().subrange(rel_cursor.offset as int, rel_cursor.spec_end())),
    {
        let output = self.subview(rel_cursor);
        match self.skip(rel_cursor) {
            Ok(()) => {},
            Err(e) => return Err(e),
        }
        output
    }

    pub fn consume_subview_n(&mut self, size: usize) -> (r: VResult<Self>)
        requires
            size <= old(self).cursor.size ==> old(self).cursor.offset + size <= usize::MAX,
        ensures
            r is Ok <==> size <= old(self).cursor.size,
            r matches Ok(v) ==> v == old(self).spec_subview(Cursor { offset: 0, size })
                && *final(self) == old(self).skipped(Cursor { offset: 0, size }),
            r matches Err(e) ==> *final(self) == *old(self) && e == (SourceError::InsufficientData {
                cursor: Cursor { offset: 0, size },
                view: old(self).cursor,
            }),
            r matches Ok(v) ==> (old(self).wf() ==> v.wf() && v.spec_bytes() == old(
                self,
            ).spec_bytes().subrange(0, size as int)),
    {
        self.consume_subview(Cursor::fromstart(size))
    }
}

impl<'a, S: ByteSource> Clone for View<'a, S> {
    fn clone(&self) -> (v: Self)
        ensures
            v == *self,
    {
        View { source: self.source, cursor: self.cursor }
    }
}

impl<'a, S: ByteSource> From<&'a S> for View<'a, S> {
    /// The view onto the whole source.
    fn from(source: &'a S) -> (v: Self)
        ensures
            v == View::whole(source),
    {
        let size = source.size();
        View { source, cursor: Cursor::fromstart(size) }
    }
}

impl<'a, S: ByteSource> vstd::std_specs::convert::FromSpecImpl<&'a S> for View<'a, S> {
    open spec fn obeys_from_spec() -> bool {
        true
    }

    open spec fn from_spec(source: &'a S) -> View<'a, S> {
        View::whole(source)
    }
}

/// A view made from a valid source is well formed and shows every byte of it.
pub proof fn lemma_whole_shows_source<'a, S: ByteSource>(source: &'a S)
    requires
        source.valid(),
        source.bytes().len() <= usize::MAX,
    ensures
        View::whole(source).wf(),
        View::whole(source).spec_bytes() == source.bytes(),
{
    assert(View::whole(source).spec_bytes() =~= source.bytes());
}

/// Skipping keeps the end of the view where it was, keeps the view well formed, and leaves
/// exactly the bytes after the skipped window.
pub proof fn lemma_skip_drops_prefix<'a, S: ByteSource>(v: View<'a, S>, rel: Cursor)
    requires
        v.wf(),
        rel.spec_end() <= v.cursor.size,
    ensures
        v.skipped(rel).cursor.spec_end() == v.cursor.spec_end(),
        v.skipped(rel).wf(),
        v.skipped(rel).spec_bytes() == v.spec_bytes().subrange(rel.spec_end(), v.cursor.size as int),
{
    assert(v.skipped(rel).spec_bytes() =~= v.spec_bytes().subrange(
        rel.spec_end(),
        v.cursor.size as int,
    ));
}

/// Consuming `a` bytes and then `b` bytes moves the view as far as consuming `a + b` bytes at
/// once, and the two pieces together are the bytes that the single read gives.
pub proof fn lemma_consume_in_two<'a, S: ByteSource>(v: View<'a, S>, a: usize, b: usize)
    requires
        v.wf(),
        a + b <= v.cursor.size,
    ensures
        v.skipped(Cursor { offset: 0, size: a }).skipped(Cursor { offset: 0, size: b }) == v.skipped(
            Cursor { offset: 0, size: (a + b) as usize },
        ),
        v.spec_bytes().subrange(0, a as int) + v.skipped(Cursor { offset: 0, size: a }).spec_bytes().subrange(
            0,
            b as int,
        ) == v.spec_bytes().subrange(0, a + b),
{
    let first = v.skipped(Cursor { offset: 0, size: a });
    assert(v.spec_bytes().subrange(0, a as int) + first.spec_bytes().subrange(0, b as int)
        =~= v.spec_bytes().subrange(0, a + b));
}

/// A subview of a subview is the subview of the composed relative window.
pub proof fn lemma_subview_of_subview<'a, S: ByteSource>(v: View<'a, S>, outer: Cursor, inner: Cursor)
    requires
        v.wf(),
        outer.spec_end() <= v.cursor.size,
        inner.spec_end() <= outer.size,
    ensures
        v.spec_subview(outer).spec_subview(inner) == v.spec_subview(inner.shifted(outer.offset as int)),
        v.spec_subview(outer).spec_subview(inner).spec_bytes() == v.spec_bytes().subrange(
            outer.offset + inner.offset,
            outer.offset + inner.spec_end(),
        ),
{
    assert(v.spec_subview(outer).spec_subview(inner).spec_bytes() =~= v.spec_bytes().subrange(
        outer.offset + inner.offset,
        outer.offset + inner.spec_end(),
    ));
}

} // verus!
