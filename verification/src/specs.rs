use crate::byte_source::ByteSource;
use crate::cursor::Cursor;
use crate::decode::{
    be_value, decode_be, decode_le, le_value, lemma_be_is_reversed_le, lemma_be_value_bound,
    lemma_be_value_injective, lemma_be_value_low_digit, lemma_le_value_bound,
    lemma_le_value_injective, lemma_le_value_low_digit, lemma_pow256_widths,
    lemma_twos_complement_low_digit, pow256, twos_complement,
};
use crate::errors::{SResult, SourceError, SpecError};
use crate::trys::{Left, Right, TryResult};
use crate::view::{lemma_skip_drops_prefix, lemma_whole_shows_source, View};
use vstd::prelude::*;
use vstd::view::View as _;

verus! {

/// A format that can be read from bytes.
///
/// A format describes its reading through `accepts`, `consumed`, `reads` and `in_range`. One
/// that keeps the defaults describes nothing: its `in_range` never holds, so no verified
/// caller can read it.
pub trait Spec: Sized {
    type Params;

    /// Reading `bytes` with `params` succeeds.
    open spec fn accepts(bytes: Seq<u8>, params: Self::Params) -> bool {
        false
    }

    /// How many bytes a successful read of `bytes` reports.
    open spec fn consumed(bytes: Seq<u8>, params: Self::Params) -> nat {
        0
    }

    /// `value` is what a successful read of `bytes` gives.
    open spec fn reads(bytes: Seq<u8>, params: Self::Params, value: Self) -> bool {
        false
    }

    /// Reading `bytes` keeps its arithmetic within `usize`.
    open spec fn in_range(bytes: Seq<u8>, params: Self::Params) -> bool {
        false
    }

    /// The error that a failing read gives, of data that holds `bytes` and reports `frame`
    /// as its window.
    open spec fn read_error(bytes: Seq<u8>, frame: Cursor, params: Self::Params) -> SpecError {
        arbitrary()
    }

    fn read_all<S: ByteSource>(data: &S, params: Self::Params) -> (r: SResult<(Self, usize)>)
        requires
            data.valid(),
            Self::in_range(data.bytes(), params),
        ensures
            r is Ok <==> Self::accepts(data.bytes(), params),
            r matches Ok((v, n)) ==> n == Self::consumed(data.bytes(), params) && Self::reads(
                data.bytes(),
                params,
                v,
            ),
            r matches Err(e) ==> e == Self::read_error(data.bytes(), data.frame(), params),
    ;

    /// Reads a value where the view stands and moves the view past it.
    fn read_from_view<'a, S: ByteSource>(view: &mut View<'a, S>, params: Self::Params) -> (r:
        SResult<Self>)
        requires
            old(view).wf(),
            Self::in_range(old(view).spec_bytes(), params),
        ensures
            ({
                let bytes = old(view).spec_bytes();
                let n = Self::consumed(bytes, params);
                &&& r is Ok <==> Self::accepts(bytes, params) && n <= old(view).cursor.size
                &&& r matches Ok(v) ==> Self::reads(bytes, params, v) && *final(view) == old(
                    view,
                ).skipped(Cursor { offset: 0, size: n as usize })
                &&& r matches Ok(v) ==> call_ensures(
                    Self::read_all::<View<'a, S>>,
                    (&*old(view), params),
                    Ok::<(Self, usize), SpecError>((v, n as usize)),
                )
                &&& r is Err ==> *final(view) == *old(view)
                &&& r matches Err(e) ==> e == (if Self::accepts(bytes, params) {
                    SpecError::ReadFailed(
                        SourceError::InsufficientData {
                            cursor: Cursor { offset: 0, size: n as usize },
                            view: old(view).cursor,
                        },
                    )
                } else {
                    Self::read_error(bytes, old(view).cursor, params)
                })
            }),
    {
        let (output, size) = match Self::read_all(&*view, params) {
            Ok(x) => x,
            Err(e) => return Err(e),
        };
        match view.skip_n(size) {
            Ok(()) => {},
            Err(e) => return Err(SpecError::ReadFailed(e)),
        }
        Ok(output)
    }

    /// How many bytes a value takes.
    fn size<S: ByteSource>(data: &S, params: Self::Params) -> (r: SResult<usize>)
        requires
            data.valid(),
            Self::in_range(data.bytes(), params),
        ensures
            r is Ok <==> Self::accepts(data.bytes(), params),
            r matches Ok(n) ==> n == Self::consumed(data.bytes(), params),
            r matches Ok(n) ==> exists|v: Self|
                #[trigger] call_ensures(
                    Self::read_all::<S>,
                    (data, params),
                    Ok::<(Self, usize), SpecError>((v, n)),
                ),
            r matches Err(e) ==> e == Self::read_error(data.bytes(), data.frame(), params),
    {
        match Self::read_all(data, params) {
            Ok((_, n)) => Ok(n),
            Err(e) => Err(e),
        }
    }

    fn read<S: ByteSource>(data: &S, params: Self::Params) -> (r: SResult<Self>)
        requires
            data.valid(),
            Self::in_range(data.bytes(), params),
        ensures
            r is Ok <==> Self::accepts(data.bytes(), params),
            r matches Ok(v) ==> Self::reads(data.bytes(), params, v),
            r matches Ok(v) ==> call_ensures(
                Self::read_all::<S>,
                (data, params),
                Ok::<(Self, usize), SpecError>((v, Self::consumed(data.bytes(), params) as usize)),
            ),
            r matches Err(e) ==> e == Self::read_error(data.bytes(), data.frame(), params),
    {
        match Self::read_all(data, params) {
            Ok((v, _)) => Ok(v),
            Err(e) => Err(e),
        }
    }

    /// Reads a value that starts `offset` bytes into the data.
    fn read_all_at<S: ByteSource>(data: &S, offset: usize, params: Self::Params) -> (r: SResult<
        (Self, usize),
    >)
        requires
            data.valid(),
            offset <= data.bytes().len() ==> Self::in_range(data.bytes().skip(offset as int), params),
        ensures
            ({
                let len = data.bytes().len();
                let rest = data.bytes().skip(offset as int);
                &&& offset > len ==> r == Err::<(Self, usize), SpecError>(
                    SpecError::ReadFailed(
                        SourceError::InsufficientData {
                            cursor: Cursor { offset: 0, size: offset },
                            view: Cursor { offset: 0, size: len as usize },
                        },
                    ),
                )
                &&& offset <= len ==> (r is Ok <==> Self::accepts(rest, params))
                &&& offset <= len ==> (r matches Err(e) ==> e == Self::read_error(
                    rest,
                    Cursor { offset, size: (len - offset) as usize },
                    params,
                ))
                &&& r matches Ok((v, n)) ==> n == Self::consumed(rest, params) && Self::reads(
                    rest,
                    params,
                    v,
                )
                &&& offset <= len ==> call_ensures(
                    Self::read_all::<View<S>>,
                    (&View::whole(data).skipped(Cursor { offset: 0, size: offset }), params),
                    r,
                )
            }),
    {
        let mut view = View { source: data, cursor: Cursor::fromstart(data.size()) };
        proof {
            lemma_whole_shows_source(data);
        }
        match view.skip_n(offset) {
            Ok(()) => {},
            Err(e) => return Err(SpecError::ReadFailed(e)),
        }
        proof {
            lemma_skip_drops_prefix(View::whole(data), Cursor { offset: 0, size: offset });
            assert(view.spec_bytes() =~= data.bytes().skip(offset as int));
        }
        Self::read_all(&view, params)
    }

    /// How many bytes a value that starts `offset` bytes into the data takes.
    fn size_at<S: ByteSource>(data: &S, offset: usize, params: Self::Params) -> (r: SResult<usize>)
        requires
            data.valid(),
            offset <= data.bytes().len() ==> Self::in_range(data.bytes().skip(offset as int), params),
        ensures
            ({
                let len = data.bytes().len();
                let rest = data.bytes().skip(offset as int);
                &&& offset > len ==> r == Err::<usize, SpecError>(
                    SpecError::ReadFailed(
                        SourceError::InsufficientData {
                            cursor: Cursor { offset: 0, size: offset },
                            view: Cursor { offset: 0, size: len as usize },
                        },
                    ),
                )
                &&& offset <= len ==> (r is Ok <==> Self::accepts(rest, params))
                &&& offset <= len ==> (r matches Err(e) ==> e == Self::read_error(
                    rest,
                    Cursor { offset, size: (len - offset) as usize },
                    params,
                ))
                &&& r matches Ok(n) ==> n == Self::consumed(rest, params)
            }),
    {
        let mut view = View { source: data, cursor: Cursor::fromstart(data.size()) };
        proof {
            lemma_whole_shows_source(data);
        }
        match view.skip_n(offset) {
            Ok(()) => {},
            Err(e) => return Err(SpecError::ReadFailed(e)),
        }
        proof {
            lemma_skip_drops_prefix(View::whole(data), Cursor { offset: 0, size: offset });
            assert(view.spec_bytes() =~= data.bytes().skip(offset as int));
        }
        Self::size(&view, params)
    }

    /// Reads the value that starts `offset` bytes into the data.
    fn read_at<S: ByteSource>(data: &S, offset: usize, params: Self::Params) -> (r: SResult<Self>)
        requires
            data.valid(),
            offset <= data.bytes().len() ==> Self::in_range(data.bytes().skip(offset as int), params),
        ensures
            ({
                let len = data.bytes().len();
                let rest = data.bytes().skip(offset as int);
                &&& offset > len ==> r == Err::<Self, SpecError>(
                    SpecError::ReadFailed(
                        SourceError::InsufficientData {
                            cursor: Cursor { offset: 0, size: offset },
                            view: Cursor { offset: 0, size: len as usize },
                        },
                    ),
                )
                &&& offset <= len ==> (r is Ok <==> Self::accepts(rest, params))
                &&& offset <= len ==> (r matches Err(e) ==> e == Self::read_error(
                    rest,
                    Cursor { offset, size: (len - offset) as usize },
                    params,
                ))
                &&& r matches Ok(v) ==> Self::reads(rest, params, v)
            }),
    {
        let mut view = View { source: data, cursor: Cursor::fromstart(data.size()) };
        proof {
            lemma_whole_shows_source(data);
        }
        match view.skip_n(offset) {
            Ok(()) => {},
            Err(e) => return Err(SpecError::ReadFailed(e)),
        }
        proof {
            lemma_skip_drops_prefix(View::whole(data), Cursor { offset: 0, size: offset });
            assert(view.spec_bytes() =~= data.bytes().skip(offset as int));
        }
        Self::read(&view, params)
    }
}


/// After a successful read from a view, the view is well formed and shows exactly the bytes
/// that followed the value.
pub proof fn lemma_read_leaves_rest<'a, S: ByteSource, T: Spec>(view: View<'a, S>, params: T::Params)
    requires
        view.wf(),
        T::accepts(view.spec_bytes(), params),
        T::consumed(view.spec_bytes(), params) <= view.cursor.size,
    ensures
        ({
            let n = T::consumed(view.spec_bytes(), params);
            let after = view.skipped(Cursor { offset: 0, size: n as usize });
            &&& after.wf()
            &&& after.spec_bytes() == view.spec_bytes().skip(n as int)
        }),
{
    let n = T::consumed(view.spec_bytes(), params);
    lemma_skip_drops_prefix(view, Cursor { offset: 0, size: n as usize });
}

/// The error that reading a value from `view`, and moving past it, fails with: the format's
/// own error where it rejects the bytes, else the report that the value runs past the view.
pub open spec fn view_read_error<'a, S: ByteSource, T: Spec>(
    view: View<'a, S>,
    params: T::Params,
) -> SpecError {
    let bytes = view.spec_bytes();
    if T::accepts(bytes, params) {
        SpecError::ReadFailed(
            SourceError::InsufficientData {
                cursor: Cursor { offset: 0, size: T::consumed(bytes, params) as usize },
                view: view.cursor,
            },
        )
    } else {
        T::read_error(bytes, view.cursor, params)
    }
}

/// Byte order of a number.
#[derive(Clone, Copy, Debug)]
pub enum Endianness {
    Big,
    Little,
}

/// The number that `s` encodes in the byte order `e`.
pub open spec fn endian_value(s: Seq<u8>, e: Endianness) -> nat {
    match e {
        Endianness::Big => be_value(s),
        Endianness::Little => le_value(s),
    }
}

/// The first `n` bytes of the data, read as an unsigned number in the byte order `e`.
fn read_uint<S: ByteSource>(data: &S, n: usize, e: Endianness) -> (r: SResult<u64>)
    requires
        data.valid(),
        1 <= n <= 8,
    ensures
        r is Ok <==> n <= data.bytes().len(),
        r matches Ok(v) ==> v == endian_value(data.bytes().take(n as int), e) && v < pow256(
            n as nat,
        ),
        r matches Err(err) ==> err == too_short(n, data.frame()),
{
    let bytes = match data.peek_n(n) {
        Ok(b) => b,
        Err(err) => return Err(SpecError::ReadFailed(err)),
    };
    let v = match e {
        Endianness::Big => decode_be(bytes, n),
        Endianness::Little => decode_le(bytes, n),
    };
    proof {
        assert(bytes@.take(n as int) =~= data.bytes().take(n as int));
    }
    Ok(v)
}

/// The error of reading `n` bytes from data that holds fewer and reports `frame`.
pub open spec fn too_short(n: usize, frame: Cursor) -> SpecError {
    SpecError::ReadFailed(
        SourceError::InsufficientData { cursor: Cursor { offset: 0, size: n }, view: frame },
    )
}

/// An unsigned 8-bit number.
#[derive(Clone, Copy, Debug)]
pub struct U8 {
    pub value: u8,
}

impl Spec for U8 {
    type Params = ();

    open spec fn accepts(bytes: Seq<u8>, params: ()) -> bool {
        1 <= bytes.len()
    }

    open spec fn consumed(bytes: Seq<u8>, params: ()) -> nat {
        1
    }

    open spec fn reads(bytes: Seq<u8>, params: (), value: U8) -> bool {
        value.value == bytes[0]
    }

    open spec fn in_range(bytes: Seq<u8>, params: ()) -> bool {
        true
    }

    open spec fn read_error(bytes: Seq<u8>, frame: Cursor, params: ()) -> SpecError {
        too_short(1, frame)
    }

    fn read_all<S: ByteSource>(data: &S, _params: ()) -> (r: SResult<(Self, usize)>) {
        match data.peek_n(1) {
            Ok(b) => Ok((U8 { value: b[0] }, 1)),
            Err(err) => Err(SpecError::ReadFailed(err)),
        }
    }
}

/// A signed 8-bit number.
#[derive(Clone, Copy, Debug)]
pub struct I8 {
    pub value: i8,
}

impl Spec for I8 {
    type Params = ();

    open spec fn accepts(bytes: Seq<u8>, params: ()) -> bool {
        1 <= bytes.len()
    }

    open spec fn consumed(bytes: Seq<u8>, params: ()) -> nat {
        1
    }

    open spec fn reads(bytes: Seq<u8>, params: (), value: I8) -> bool {
        value.value == twos_complement(bytes[0] as nat, 0x80)
    }

    open spec fn in_range(bytes: Seq<u8>, params: ()) -> bool {
        true
    }

    open spec fn read_error(bytes: Seq<u8>, frame: Cursor, params: ()) -> SpecError {
        too_short(1, frame)
    }

    fn read_all<S: ByteSource>(data: &S, _params: ()) -> (r: SResult<(Self, usize)>) {
        match data.peek_n(1) {
            Ok(b) => {
                let byte = b[0];
                let value = byte as i8;
                assert(value == (if byte < 0x80 { byte as int } else { byte - 0x100 }))
                    by (bit_vector)
                    requires
                        value == byte as i8,
                ;
                Ok((I8 { value }, 1))
            },
            Err(err) => Err(SpecError::ReadFailed(err)),
        }
    }
}

/// An unsigned 16-bit number.
#[derive(Clone, Copy, Debug)]
pub struct U16 {
    pub value: u16,
}

impl U16 {
    /// Reads a little-endian value where the view stands, leaving the view where it is.
    #[allow(non_snake_case)]
    pub fn LE<'a, S: ByteSource>(data: &mut View<'a, S>) -> (r: SResult<Self>)
        requires
            old(data).wf(),
        ensures
            *final(data) == *old(data),
            r is Ok <==> 2 <= old(data).cursor.size,
            r matches Err(e) ==> e == too_short(2, old(data).cursor),
            r matches Ok(v) ==> v.value == le_value(old(data).spec_bytes().take(2)),
    {
        match Self::read_all(&*data, Endianness::Little) {
            Ok((v, _)) => Ok(v),
            Err(e) => Err(e),
        }
    }

    /// Reads a big-endian value where the view stands, leaving the view where it is.
    #[allow(non_snake_case)]
    pub fn BE<'a, S: ByteSource>(data: &mut View<'a, S>) -> (r: SResult<Self>)
        requires
            old(data).wf(),
        ensures
            *final(data) == *old(data),
            r is Ok <==> 2 <= old(data).cursor.size,
            r matches Err(e) ==> e == too_short(2, old(data).cursor),
            r matches Ok(v) ==> v.value == be_value(old(data).spec_bytes().take(2)),
    {
        match Self::read_all(&*data, Endianness::Big) {
            Ok((v, _)) => Ok(v),
            Err(e) => Err(e),
        }
    }
}

impl Spec for U16 {
    type Params = Endianness;

    open spec fn accepts(bytes: Seq<u8>, params: Endianness) -> bool {
        2 <= bytes.len()
    }

    open spec fn consumed(bytes: Seq<u8>, params: Endianness) -> nat {
        2
    }

    open spec fn reads(bytes: Seq<u8>, params: Endianness, value: U16) -> bool {
        value.value == endian_value(bytes.take(2), params)
    }

    open spec fn in_range(bytes: Seq<u8>, params: Endianness) -> bool {
        true
    }

    open spec fn read_error(bytes: Seq<u8>, frame: Cursor, params: Endianness) -> SpecError {
        too_short(2, frame)
    }

    fn read_all<S: ByteSource>(data: &S, params: Endianness) -> (r: SResult<(Self, usize)>) {
        let v = match read_uint(data, 2, params) {
            Ok(v) => v,
            Err(e) => return Err(e),
        };
        proof {
            lemma_pow256_widths();
        }
        Ok((U16 { value: v as u16 }, 2))
    }
}

/// A signed 16-bit number.
#[derive(Clone, Copy, Debug)]
pub struct I16 {
    pub value: i16,
}

impl I16 {
    /// Reads a little-endian value where the view stands, leaving the view where it is.
    #[allow(non_snake_case)]
    pub fn LE<'a, S: ByteSource>(data: &mut View<'a, S>) -> (r: SResult<Self>)
        requires
            old(data).wf(),
        ensures
            *final(data) == *old(data),
            r is Ok <==> 2 <= old(data).cursor.size,
            r matches Err(e) ==> e == too_short(2, old(data).cursor),
            r matches Ok(v) ==> v.value == twos_complement(
                le_value(old(data).spec_bytes().take(2)),
                0x8000,
            ),
    {
        match Self::read_all(&*data, Endianness::Little) {
            Ok((v, _)) => Ok(v),
            Err(e) => Err(e),
        }
    }

    /// Reads a big-endian value where the view stands, leaving the view where it is.
    #[allow(non_snake_case)]
    pub fn BE<'a, S: ByteSource>(data: &mut View<'a, S>) -> (r: SResult<Self>)
        requires
            old(data).wf(),
        ensures
            *final(data) == *old(data),
            r is Ok <==> 2 <= old(data).cursor.size,
            r matches Err(e) ==> e == too_short(2, old(data).cursor),
            r matches Ok(v) ==> v.value == twos_complement(
                be_value(old(data).spec_bytes().take(2)),
                0x8000,
            ),
    {
        match Self::read_all(&*data, Endianness::Big) {
            Ok((v, _)) => Ok(v),
            Err(e) => Err(e),
        }
    }
}

impl Spec for I16 {
    type Params = Endianness;

    open spec fn accepts(bytes: Seq<u8>, params: Endianness) -> bool {
        2 <= bytes.len()
    }

    open spec fn consumed(bytes: Seq<u8>, params: Endianness) -> nat {
        2
    }

    open spec fn reads(bytes: Seq<u8>, params: Endianness, value: I16) -> bool {
        value.value == twos_complement(endian_value(bytes.take(2), params), 0x8000)
    }

    open spec fn in_range(bytes: Seq<u8>, params: Endianness) -> bool {
        true
    }

    open spec fn read_error(bytes: Seq<u8>, frame: Cursor, params: Endianness) -> SpecError {
        too_short(2, frame)
    }

    fn read_all<S: ByteSource>(data: &S, params: Endianness) -> (r: SResult<(Self, usize)>) {
        let v = match read_uint(data, 2, params) {
            Ok(v) => v,
            Err(e) => return Err(e),
        };
        proof {
            lemma_pow256_widths();
        }
        let value = v as u16 as i16;
        assert(v < 0x1_0000 ==> value == (if v < 0x8000 { v as int } else { v - 0x1_0000 }))
            by (bit_vector)
            requires
                value == v as u16 as i16,
        ;
        Ok((I16 { value }, 2))
    }
}


/// An unsigned 32-bit number.
#[derive(Clone, Copy, Debug)]
pub struct U32 {
    pub value: u32,
}

impl U32 {
    /// Reads a little-endian value where the view stands, leaving the view where it is.
    #[allow(non_snake_case)]
    pub fn LE<'a, S: ByteSource>(data: &mut View<'a, S>) -> (r: SResult<Self>)
        requires
            old(data).wf(),
        ensures
            *final(data) == *old(data),
            r is Ok <==> 4 <= old(data).cursor.size,
            r matches Err(e) ==> e == too_short(4, old(data).cursor),
            r matches Ok(v) ==> v.value == le_value(old(data).spec_bytes().take(4)),
    {
        match Self::read_all(&*data, Endianness::Little) {
            Ok((v, _)) => Ok(v),
            Err(e) => Err(e),
        }
    }

    /// Reads a big-endian value where the view stands, leaving the view where it is.
    #[allow(non_snake_case)]
    pub fn BE<'a, S: ByteSource>(data: &mut View<'a, S>) -> (r: SResult<Self>)
        requires
            old(data).wf(),
        ensures
            *final(data) == *old(data),
            r is Ok <==> 4 <= old(data).cursor.size,
            r matches Err(e) ==> e == too_short(4, old(data).cursor),
            r matches Ok(v) ==> v.value == be_value(old(data).spec_bytes().take(4)),
    {
        match Self::read_all(&*data, Endianness::Big) {
            Ok((v, _)) => Ok(v),
            Err(e) => Err(e),
        }
    }
}

impl Spec for U32 {
    type Params = Endianness;

    open spec fn accepts(bytes: Seq<u8>, params: Endianness) -> bool {
        4 <= bytes.len()
    }

    open spec fn consumed(bytes: Seq<u8>, params: Endianness) -> nat {
        4
    }

    open spec fn reads(bytes: Seq<u8>, params: Endianness, value: U32) -> bool {
        value.value == endian_value(bytes.take(4), params)
    }

    open spec fn in_range(bytes: Seq<u8>, params: Endianness) -> bool {
        true
    }

    open spec fn read_error(bytes: Seq<u8>, frame: Cursor, params: Endianness) -> SpecError {
        too_short(4, frame)
    }

    fn read_all<S: ByteSource>(data: &S, params: Endianness) -> (r: SResult<(Self, usize)>) {
        let v = match read_uint(data, 4, params) {
            Ok(v) => v,
            Err(e) => return Err(e),
        };
        proof {
            lemma_pow256_widths();
        }
        Ok((U32 { value: v as u32 }, 4))
    }
}

/// A signed 32-bit number.
#[derive(Clone, Copy, Debug)]
pub struct I32 {
    pub value: i32,
}

impl I32 {
    /// Reads a little-endian value where the view stands, leaving the view where it is.
    #[allow(non_snake_case)]
    pub fn LE<'a, S: ByteSource>(data: &mut View<'a, S>) -> (r: SResult<Self>)
        requires
            old(data).wf(),
        ensures
            *final(data) == *old(data),
            r is Ok <==> 4 <= old(data).cursor.size,
            r matches Err(e) ==> e == too_short(4, old(data).cursor),
            r matches Ok(v) ==> v.value == twos_complement(
                le_value(old(data).spec_bytes().take(4)),
                0x8000_0000,
            ),
    {
        match Self::read_all(&*data, Endianness::Little) {
            Ok((v, _)) => Ok(v),
            Err(e) => Err(e),
        }
    }

    /// Reads a big-endian value where the view stands, leaving the view where it is.
    #[allow(non_snake_case)]
    pub fn BE<'a, S: ByteSource>(data: &mut View<'a, S>) -> (r: SResult<Self>)
        requires
            old(data).wf(),
        ensures
            *final(data) == *old(data),
            r is Ok <==> 4 <= old(data).cursor.size,
            r matches Err(e) ==> e == too_short(4, old(data).cursor),
            r matches Ok(v) ==> v.value == twos_complement(
                be_value(old(data).spec_bytes().take(4)),
                0x8000_0000,
            ),
    {
        match Self::read_all(&*data, Endianness::Big) {
            Ok((v, _)) => Ok(v),
            Err(e) => Err(e),
        }
    }
}

impl Spec for I32 {
    type Params = Endianness;

    open spec fn accepts(bytes: Seq<u8>, params: Endianness) -> bool {
        4 <= bytes.len()
    }

    open spec fn consumed(bytes: Seq<u8>, params: Endianness) -> nat {
        4
    }

    open spec fn reads(bytes: Seq<u8>, params: Endianness, value: I32) -> bool {
        value.value == twos_complement(endian_value(bytes.take(4), params), 0x8000_0000)
    }

    open spec fn in_range(bytes: Seq<u8>, params: Endianness) -> bool {
        true
    }

    open spec fn read_error(bytes: Seq<u8>, frame: Cursor, params: Endianness) -> SpecError {
        too_short(4, frame)
    }

    fn read_all<S: ByteSource>(data: &S, params: Endianness) -> (r: SResult<(Self, usize)>) {
        let v = match read_uint(data, 4, params) {
            Ok(v) => v,
            Err(e) => return Err(e),
        };
        proof {
            lemma_pow256_widths();
        }
        let value = v as u32 as i32;
        assert(v < 0x1_0000_0000 ==> value == (if v < 0x8000_0000 { v as int } else { v - 0x1_0000_0000 }))
            by (bit_vector)
            requires
                value == v as u32 as i32,
        ;
        Ok((I32 { value }, 4))
    }
}

/// An unsigned 64-bit number.
#[derive(Clone, Copy, Debug)]
pub struct U64 {
    pub value: u64,
}

impl U64 {
    /// Reads a little-endian value where the view stands, leaving the view where it is.
    #[allow(non_snake_case)]
    pub fn LE<'a, S: ByteSource>(data: &mut View<'a, S>) -> (r: SResult<Self>)
        requires
            old(data).wf(),
        ensures
            *final(data) == *old(data),
            r is Ok <==> 8 <= old(data).cursor.size,
            r matches Err(e) ==> e == too_short(8, old(data).cursor),
            r matches Ok(v) ==> v.value == le_value(old(data).spec_bytes().take(8)),
    {
        match Self::read_all(&*data, Endianness::Little) {
            Ok((v, _)) => Ok(v),
            Err(e) => Err(e),
        }
    }

    /// Reads a big-endian value where the view stands, leaving the view where it is.
    #[allow(non_snake_case)]
    pub fn BE<'a, S: ByteSource>(data: &mut View<'a, S>) -> (r: SResult<Self>)
        requires
            old(data).wf(),
        ensures
            *final(data) == *old(data),
            r is Ok <==> 8 <= old(data).cursor.size,
            r matches Err(e) ==> e == too_short(8, old(data).cursor),
            r matches Ok(v) ==> v.value == be_value(old(data).spec_bytes().take(8)),
    {
        match Self::read_all(&*data, Endianness::Big) {
            Ok((v, _)) => Ok(v),
            Err(e) => Err(e),
        }
    }
}

impl Spec for U64 {
    type Params = Endianness;

    open spec fn accepts(bytes: Seq<u8>, params: Endianness) -> bool {
        8 <= bytes.len()
    }

    open spec fn consumed(bytes: Seq<u8>, params: Endianness) -> nat {
        8
    }

    open spec fn reads(bytes: Seq<u8>, params: Endianness, value: U64) -> bool {
        value.value == endian_value(bytes.take(8), params)
    }

    open spec fn in_range(bytes: Seq<u8>, params: Endianness) -> bool {
        true
    }

    open spec fn read_error(bytes: Seq<u8>, frame: Cursor, params: Endianness) -> SpecError {
        too_short(8, frame)
    }

    fn read_all<S: ByteSource>(data: &S, params: Endianness) -> (r: SResult<(Self, usize)>) {
        let v = match read_uint(data, 8, params) {
            Ok(v) => v,
            Err(e) => return Err(e),
        };
        proof {
            lemma_pow256_widths();
        }
        Ok((U64 { value: v }, 8))
    }
}

/// A signed 64-bit number.
#[derive(Clone, Copy, Debug)]
pub struct I64 {
    pub value: i64,
}

impl I64 {
    /// Reads a little-endian value where the view stands, leaving the view where it is.
    #[allow(non_snake_case)]
    pub fn LE<'a, S: ByteSource>(data: &mut View<'a, S>) -> (r: SResult<Self>)
        requires
            old(data).wf(),
        ensures
            *final(data) == *old(data),
            r is Ok <==> 8 <= old(data).cursor.size,
            r matches Err(e) ==> e == too_short(8, old(data).cursor),
            r matches Ok(v) ==> v.value == twos_complement(
                le_value(old(data).spec_bytes().take(8)),
                0x8000_0000_0000_0000,
            ),
    {
        match Self::read_all(&*data, Endianness::Little) {
            Ok((v, _)) => Ok(v),
            Err(e) => Err(e),
        }
    }

    /// Reads a big-endian value where the view stands, leaving the view where it is.
    #[allow(non_snake_case)]
    pub fn BE<'a, S: ByteSource>(data: &mut View<'a, S>) -> (r: SResult<Self>)
        requires
            old(data).wf(),
        ensures
            *final(data) == *old(data),
            r is Ok <==> 8 <= old(data).cursor.size,
            r matches Err(e) ==> e == too_short(8, old(data).cursor),
            r matches Ok(v) ==> v.value == twos_complement(
                be_value(old(data).spec_bytes().take(8)),
                0x8000_0000_0000_0000,
            ),
    {
        match Self::read_all(&*data, Endianness::Big) {
            Ok((v, _)) => Ok(v),
            Err(e) => Err(e),
        }
    }
}

impl Spec for I64 {
    type Params = Endianness;

    open spec fn accepts(bytes: Seq<u8>, params: Endianness) -> bool {
        8 <= bytes.len()
    }

    open spec fn consumed(bytes: Seq<u8>, params: Endianness) -> nat {
        8
    }

    open spec fn reads(bytes: Seq<u8>, params: Endianness, value: I64) -> bool {
        value.value == twos_complement(endian_value(bytes.take(8), params), 0x8000_0000_0000_0000)
    }

    open spec fn in_range(bytes: Seq<u8>, params: Endianness) -> bool {
        true
    }

    open spec fn read_error(bytes: Seq<u8>, frame: Cursor, params: Endianness) -> SpecError {
        too_short(8, frame)
    }

    fn read_all<S: ByteSource>(data: &S, params: Endianness) -> (r: SResult<(Self, usize)>) {
        let v = match read_uint(data, 8, params) {
            Ok(v) => v,
            Err(e) => return Err(e),
        };
        proof {
            lemma_pow256_widths();
        }
        let value = v as i64;
        assert(v < 0x1_0000_0000_0000_0000 ==> value == (if v < 0x8000_0000_0000_0000 { v as int } else { v - 0x1_0000_0000_0000_0000 }))
            by (bit_vector)
            requires
                value == v as i64,
        ;
        Ok((I64 { value }, 8))
    }
}


/// A count of values of one format, each read from the same data with the same parameters.
impl<T: Spec> Spec for Vec<T> where T::Params: Copy {
    type Params = (usize, T::Params);

    open spec fn accepts(bytes: Seq<u8>, params: (usize, T::Params)) -> bool {
        params.0 == 0 || T::accepts(bytes, params.1)
    }

    open spec fn consumed(bytes: Seq<u8>, params: (usize, T::Params)) -> nat {
        (params.0 as nat) * T::consumed(bytes, params.1)
    }

    open spec fn reads(bytes: Seq<u8>, params: (usize, T::Params), value: Vec<T>) -> bool {
        &&& value@.len() == params.0
        &&& forall|i: int| 0 <= i < params.0 ==> T::reads(bytes, params.1, #[trigger] value@[i])
    }

    /// The error of the first element's read.
    open spec fn read_error(bytes: Seq<u8>, frame: Cursor, params: (usize, T::Params)) -> SpecError {
        T::read_error(bytes, frame, params.1)
    }

    open spec fn in_range(bytes: Seq<u8>, params: (usize, T::Params)) -> bool {
        params.0 > 0 ==> {
            &&& T::in_range(bytes, params.1)
            &&& T::accepts(bytes, params.1) ==> params.0 * T::consumed(bytes, params.1)
                <= usize::MAX
        }
    }

    fn read_all<S: ByteSource>(data: &S, params: (usize, T::Params)) -> (r: SResult<
        (Self, usize),
    >) {
        let mut output: Vec<T> = Vec::with_capacity(params.0);
        let mut acc: usize = 0;
        let ghost bytes = data.bytes();
        let ghost k = T::consumed(bytes, params.1);
        for i in 0..params.0
            invariant
                data.valid(),
                bytes == data.bytes(),
                k == T::consumed(bytes, params.1),
                Self::in_range(bytes, params),
                output@.len() == i,
                acc == i * k,
                i > 0 ==> T::accepts(bytes, params.1),
                forall|j: int| 0 <= j < i ==> T::reads(bytes, params.1, #[trigger] output@[j]),
        {
            let (spec, size) = match T::read_all(data, params.1) {
                Ok(x) => x,
                Err(e) => return Err(e),
            };
            proof {
                let n = params.0 as int;
                assert((i + 1) * k <= n * k) by (nonlinear_arith)
                    requires
                        i + 1 <= n,
                        k >= 0,
                ;
                assert((i + 1) * k == i * k + k) by (nonlinear_arith);
            }
            acc = acc + size;
            output.push(spec);
        }
        Ok((output, acc))
    }
}


/// A `Try` over two formats, whose errors are those of reading.
pub type TrySpec<L, R> = TryResult<L, R, SpecError>;

/// Runs `l` on a copy of the view; where it succeeds the view takes the position that `l`
/// reached and its value is returned on the left. Where it fails, `r` runs on the view itself,
/// and its outcome is returned on the right together with the error of `l`.
pub fn try_spec<'a, S: ByteSource, L: Spec, R: Spec>(
    l: impl FnOnce(&mut View<'a, S>) -> SResult<L>,
    r: impl FnOnce(&mut View<'a, S>) -> SResult<R>,
    data: &mut View<'a, S>,
) -> (res: TrySpec<L, R>)
    requires
        forall|w: &mut View<'a, S>| *w == *old(data) ==> call_requires(l, (w,)),
        forall|w: &mut View<'a, S>| *w == *old(data) ==> call_requires(r, (w,)),
    ensures
        match res {
            Left(v) => exists|w: &mut View<'a, S>|
                {
                    &&& *w == *old(data)
                    &&& call_ensures(l, (w,), Ok::<L, SpecError>(v))
                    &&& *final(data) == (View { source: old(data).source, cursor: final(w).cursor })
                },
            Right((rv, e)) => {
                &&& exists|w: &mut View<'a, S>|
                    *w == *old(data) && call_ensures(l, (w,), Err::<L, SpecError>(e))
                &&& exists|w: &mut View<'a, S>|
                    *w == *old(data) && call_ensures(r, (w,), rv) && *final(w) == *final(data)
            },
        },
{
    let mut left_data = data.clone();
    match l(&mut left_data) {
        Ok(left) => {
            data.cursor = left_data.cursor;
            Left(left)
        },
        Err(error) => Right((r(data), error)),
    }
}

/// Where reading `count` values one after another from `bytes` ends, if every read succeeds
/// and ends within what is left.
pub open spec fn array_span<T: Spec>(bytes: Seq<u8>, params: T::Params, count: nat) -> Option<nat>
    decreases count,
{
    if count == 0 {
        Some(0)
    } else {
        match array_span::<T>(bytes, params, (count - 1) as nat) {
            Some(o) => {
                let rest = bytes.skip(o as int);
                if T::accepts(rest, params) && T::consumed(rest, params) <= rest.len() {
                    Some(o + T::consumed(rest, params))
                } else {
                    None
                }
            },
            None => None,
        }
    }
}

/// Once a read in the sequence fails, every longer sequence fails too.
pub proof fn lemma_array_span_fails_on<T: Spec>(bytes: Seq<u8>, params: T::Params, i: nat, j: nat)
    requires
        i <= j,
        array_span::<T>(bytes, params, i) is None,
    ensures
        array_span::<T>(bytes, params, j) is None,
    decreases j,
{
    if i < j {
        lemma_array_span_fails_on::<T>(bytes, params, i, (j - 1) as nat);
    }
}

/// A sequence of reads that succeeds ends within the bytes.
pub proof fn lemma_array_span_within<T: Spec>(bytes: Seq<u8>, params: T::Params, j: nat)
    ensures
        array_span::<T>(bytes, params, j) matches Some(o) ==> o <= bytes.len(),
    decreases j,
{
    if j > 0 {
        lemma_array_span_within::<T>(bytes, params, (j - 1) as nat);
    }
}

/// Reads `len` values one after another from the view, moving it past each; stops at the
/// first read that fails, with the view past the values read before it.
#[verifier::rlimit(50)]
pub fn read_array<'a, S: ByteSource, T: Spec>(
    view: &mut View<'a, S>,
    len: usize,
    params: T::Params,
) -> (r: SResult<Vec<T>>) where T::Params: Copy
    requires
        old(view).wf(),
        forall|j: nat|
            j < len ==> (#[trigger] array_span::<T>(old(view).spec_bytes(), params, j) matches Some(
                o,
            ) ==> T::in_range(old(view).spec_bytes().skip(o as int), params)),
    ensures
        ({
            let bytes = old(view).spec_bytes();
            match r {
                Ok(out) => array_span::<T>(bytes, params, len as nat) matches Some(end) && {
                    &&& out@.len() == len
                    &&& forall|i: int|
                        0 <= i < len ==> T::reads(
                            bytes.skip(array_span::<T>(bytes, params, i as nat)->0 as int),
                            params,
                            #[trigger] out@[i],
                        )
                    &&& *final(view) == old(view).skipped(Cursor { offset: 0, size: end as usize })
                },
                Err(e) => array_span::<T>(bytes, params, len as nat) is None && exists|j: nat|
                    {
                        &&& j < len
                        &&& #[trigger] array_span::<T>(bytes, params, j) matches Some(o)
                        &&& array_span::<T>(bytes, params, j + 1) is None
                        &&& *final(view) == old(view).skipped(Cursor { offset: 0, size: o as usize })
                        &&& e == view_read_error::<S, T>(*final(view), params)
                    },
            }
        }),
{
    let ghost bytes = old(view).spec_bytes();
    let ghost start = *old(view);
    let mut output: Vec<T> = Vec::new();
    let mut i: usize = 0;
    assert(bytes.skip(0) =~= bytes);
    assert(start.skipped(Cursor { offset: 0, size: 0 }) == start);
    while i < len
        invariant
            i <= len,
            bytes == start.spec_bytes(),
            start == *old(view),
            start.wf(),
            forall|j: nat|
                j < len ==> (#[trigger] array_span::<T>(bytes, params, j) matches Some(o)
                    ==> T::in_range(bytes.skip(o as int), params)),
            array_span::<T>(bytes, params, i as nat) is Some,
            *view == start.skipped(
                Cursor { offset: 0, size: array_span::<T>(bytes, params, i as nat)->0 as usize },
            ),
            view.wf(),
            view.spec_bytes() == bytes.skip(array_span::<T>(bytes, params, i as nat)->0 as int),
            output@.len() == i,
            forall|k: int|
                0 <= k < i ==> T::reads(
                    bytes.skip(array_span::<T>(bytes, params, k as nat)->0 as int),
                    params,
                    #[trigger] output@[k],
                ),
        decreases len - i,
    {
        let ghost o = array_span::<T>(bytes, params, i as nat)->0;
        let ghost cur = *view;
        proof {
            lemma_array_span_within::<T>(bytes, params, i as nat);
        }
        match T::read_from_view(view, params) {
            Ok(v) => {
                proof {
                    let n = T::consumed(cur.spec_bytes(), params);
                    lemma_skip_drops_prefix(cur, Cursor { offset: 0, size: n as usize });
                    assert(view.spec_bytes() =~= bytes.skip((o + n) as int));
                }
                output.push(v);
                i = i + 1;
            },
            Err(e) => {
                proof {
                    assert(cur.spec_bytes().len() == cur.cursor.size);
                    assert(array_span::<T>(bytes, params, (i + 1) as nat) is None);
                    lemma_array_span_fails_on::<T>(bytes, params, (i + 1) as nat, len as nat);
                    assert(array_span::<T>(bytes, params, i as nat) matches Some(o));
                }
                return Err(e);
            },
        }
    }
    Ok(output)
}


/// `T` reads values of a fixed width: a successful read reports exactly the bytes it needs
/// (its prefix alone is read the same way, and one byte fewer is refused); the value depends
/// only on those bytes; different bytes give different values; and there are as many byte
/// strings of that width as there are `count` values, so every value can be read.
pub open spec fn reads_fixed_width<T: Spec>(params: T::Params, count: nat) -> bool {
    &&& forall|b: Seq<u8>|
        #[trigger] T::accepts(b, params) ==> {
            let c = T::consumed(b, params);
            &&& 0 < c <= b.len()
            &&& T::accepts(b.take(c as int), params)
            &&& T::consumed(b.take(c as int), params) == c
            &&& !T::accepts(b.take(c - 1), params)
            &&& pow256(c) == count
        }
    &&& forall|b1: Seq<u8>, b2: Seq<u8>, v: T|
        #![trigger T::reads(b1, params, v), T::reads(b2, params, v)]
        T::accepts(b1, params) && T::accepts(b2, params) && b1.take(T::consumed(b1, params) as int)
            == b2.take(T::consumed(b2, params) as int) ==> (T::reads(b1, params, v) <==> T::reads(
            b2,
            params,
            v,
        ))
    &&& forall|b1: Seq<u8>, b2: Seq<u8>, v: T|
        #![trigger T::reads(b1, params, v), T::reads(b2, params, v)]
        T::accepts(b1, params) && T::accepts(b2, params) && T::reads(b1, params, v) && T::reads(
            b2,
            params,
            v,
        ) ==> b1.take(T::consumed(b1, params) as int) == b2.take(T::consumed(b2, params) as int)
}

/// Equal numbers from digit strings of one length, in one byte order, come from equal digits;
/// and such a number is below 256 to the power of the length.
proof fn lemma_endian_value(s1: Seq<u8>, s2: Seq<u8>, e: Endianness)
    requires
        s1.len() == s2.len(),
    ensures
        endian_value(s1, e) < pow256(s1.len()),
        endian_value(s1, e) == endian_value(s2, e) ==> s1 == s2,
{
    match e {
        Endianness::Big => {
            lemma_be_value_bound(s1);
            if be_value(s1) == be_value(s2) {
                lemma_be_value_injective(s1, s2);
            }
        },
        Endianness::Little => {
            lemma_le_value_bound(s1);
            if le_value(s1) == le_value(s2) {
                lemma_le_value_injective(s1, s2);
            }
        },
    }
}

/// An unsigned 8-bit number takes exactly one byte, and each byte is a different number.
pub proof fn lemma_u8_fixed_width()
    ensures
        reads_fixed_width::<U8>((), 0x100),
{
    lemma_pow256_widths();
    assert forall|b1: Seq<u8>, b2: Seq<u8>, v: U8|
        #![trigger U8::reads(b1, (), v), U8::reads(b2, (), v)]
        U8::accepts(b1, ()) && U8::accepts(b2, ()) && U8::reads(b1, (), v) && U8::reads(b2, (), v)
            implies b1.take(1) == b2.take(1) by {
        assert(b1.take(1) =~= b2.take(1));
    }
    assert forall|b1: Seq<u8>, b2: Seq<u8>, v: U8|
        #![trigger U8::reads(b1, (), v), U8::reads(b2, (), v)]
        U8::accepts(b1, ()) && U8::accepts(b2, ()) && b1.take(1) == b2.take(1) implies (U8::reads(
            b1,
            (),
            v,
        ) <==> U8::reads(b2, (), v)) by {
        assert(b1[0] == b1.take(1)[0]);
        assert(b2[0] == b2.take(1)[0]);
    }
}

/// A signed 8-bit number takes exactly one byte, and each byte is a different number.
pub proof fn lemma_i8_fixed_width()
    ensures
        reads_fixed_width::<I8>((), 0x100),
{
    lemma_pow256_widths();
    assert forall|b1: Seq<u8>, b2: Seq<u8>, v: I8|
        #![trigger I8::reads(b1, (), v), I8::reads(b2, (), v)]
        I8::accepts(b1, ()) && I8::accepts(b2, ()) && I8::reads(b1, (), v) && I8::reads(b2, (), v)
            implies b1.take(1) == b2.take(1) by {
        assert(b1[0] == b2[0]);
        assert(b1.take(1) =~= b2.take(1));
    }
    assert forall|b1: Seq<u8>, b2: Seq<u8>, v: I8|
        #![trigger I8::reads(b1, (), v), I8::reads(b2, (), v)]
        I8::accepts(b1, ()) && I8::accepts(b2, ()) && b1.take(1) == b2.take(1) implies (I8::reads(
            b1,
            (),
            v,
        ) <==> I8::reads(b2, (), v)) by {
        assert(b1[0] == b1.take(1)[0]);
        assert(b2[0] == b2.take(1)[0]);
    }
}

/// An unsigned 16-bit number takes exactly two bytes, and different bytes are different numbers.
pub proof fn lemma_u16_fixed_width(e: Endianness)
    ensures
        reads_fixed_width::<U16>(e, 0x1_0000),
{
    lemma_pow256_widths();
    assert forall|b1: Seq<u8>, b2: Seq<u8>, v: U16|
        #![trigger U16::reads(b1, e, v), U16::reads(b2, e, v)]
        U16::accepts(b1, e) && U16::accepts(b2, e) && U16::reads(b1, e, v) && U16::reads(
            b2,
            e,
            v,
        ) implies b1.take(2) == b2.take(2) by {
        lemma_endian_value(b1.take(2), b2.take(2), e);
        lemma_endian_value(b2.take(2), b1.take(2), e);
    }
}

/// A signed 16-bit number takes exactly two bytes, and different bytes are different numbers.
pub proof fn lemma_i16_fixed_width(e: Endianness)
    ensures
        reads_fixed_width::<I16>(e, 0x1_0000),
{
    lemma_pow256_widths();
    assert forall|b1: Seq<u8>, b2: Seq<u8>, v: I16|
        #![trigger I16::reads(b1, e, v), I16::reads(b2, e, v)]
        I16::accepts(b1, e) && I16::accepts(b2, e) && I16::reads(b1, e, v) && I16::reads(
            b2,
            e,
            v,
        ) implies b1.take(2) == b2.take(2) by {
        lemma_endian_value(b1.take(2), b2.take(2), e);
        lemma_endian_value(b2.take(2), b1.take(2), e);
        let x1 = endian_value(b1.take(2), e);
        let x2 = endian_value(b2.take(2), e);
        assert(x1 == x2) by {
            assert(twos_complement(x1, 0x8000) == twos_complement(x2, 0x8000));
        }
    }
}

/// An unsigned 32-bit number takes exactly four bytes, and different bytes are different numbers.
pub proof fn lemma_u32_fixed_width(e: Endianness)
    ensures
        reads_fixed_width::<U32>(e, 0x1_0000_0000),
{
    lemma_pow256_widths();
    assert forall|b1: Seq<u8>, b2: Seq<u8>, v: U32|
        #![trigger U32::reads(b1, e, v), U32::reads(b2, e, v)]
        U32::accepts(b1, e) && U32::accepts(b2, e) && U32::reads(b1, e, v) && U32::reads(
            b2,
            e,
            v,
        ) implies b1.take(4) == b2.take(4) by {
        lemma_endian_value(b1.take(4), b2.take(4), e);
        lemma_endian_value(b2.take(4), b1.take(4), e);
    }
}

/// A signed 32-bit number takes exactly four bytes, and different bytes are different numbers.
pub proof fn lemma_i32_fixed_width(e: Endianness)
    ensures
        reads_fixed_width::<I32>(e, 0x1_0000_0000),
{
    lemma_pow256_widths();
    assert forall|b1: Seq<u8>, b2: Seq<u8>, v: I32|
        #![trigger I32::reads(b1, e, v), I32::reads(b2, e, v)]
        I32::accepts(b1, e) && I32::accepts(b2, e) && I32::reads(b1, e, v) && I32::reads(
            b2,
            e,
            v,
        ) implies b1.take(4) == b2.take(4) by {
        lemma_endian_value(b1.take(4), b2.take(4), e);
        lemma_endian_value(b2.take(4), b1.take(4), e);
        let x1 = endian_value(b1.take(4), e);
        let x2 = endian_value(b2.take(4), e);
        assert(x1 == x2) by {
            assert(twos_complement(x1, 0x8000_0000) == twos_complement(x2, 0x8000_0000));
        }
    }
}

/// An unsigned 64-bit number takes exactly eight bytes in either byte order, and different bytes are different numbers.
pub proof fn lemma_u64_fixed_width(e: Endianness)
    ensures
        reads_fixed_width::<U64>(e, 0x1_0000_0000_0000_0000),
{
    lemma_pow256_widths();
    assert forall|b1: Seq<u8>, b2: Seq<u8>, v: U64|
        #![trigger U64::reads(b1, e, v), U64::reads(b2, e, v)]
        U64::accepts(b1, e) && U64::accepts(b2, e) && U64::reads(b1, e, v) && U64::reads(
            b2,
            e,
            v,
        ) implies b1.take(8) == b2.take(8) by {
        lemma_endian_value(b1.take(8), b2.take(8), e);
        lemma_endian_value(b2.take(8), b1.take(8), e);
    }
}

/// A signed 64-bit number takes exactly eight bytes in either byte order, and different bytes are different numbers.
pub proof fn lemma_i64_fixed_width(e: Endianness)
    ensures
        reads_fixed_width::<I64>(e, 0x1_0000_0000_0000_0000),
{
    lemma_pow256_widths();
    assert forall|b1: Seq<u8>, b2: Seq<u8>, v: I64|
        #![trigger I64::reads(b1, e, v), I64::reads(b2, e, v)]
        I64::accepts(b1, e) && I64::accepts(b2, e) && I64::reads(b1, e, v) && I64::reads(
            b2,
            e,
            v,
        ) implies b1.take(8) == b2.take(8) by {
        lemma_endian_value(b1.take(8), b2.take(8), e);
        lemma_endian_value(b2.take(8), b1.take(8), e);
        let x1 = endian_value(b1.take(8), e);
        let x2 = endian_value(b2.take(8), e);
        assert(x1 == x2) by {
            assert(twos_complement(x1, 0x8000_0000_0000_0000) == twos_complement(x2, 0x8000_0000_0000_0000));
        }
    }
}


/// Little-endian puts the lowest byte of an unsigned 16-bit number first and big-endian puts it last; a big-endian
/// read gives what a little-endian read of the same bytes, reversed, gives.
pub proof fn lemma_u16_byte_order(b: Seq<u8>, v: U16)
    requires
        2 <= b.len(),
    ensures
        U16::reads(b, Endianness::Little, v) ==> (v.value as int) % 256 == b[0],
        U16::reads(b, Endianness::Big, v) ==> (v.value as int) % 256 == b[2 - 1],
        U16::reads(b, Endianness::Big, v) <==> U16::reads(
            b.take(2).reverse(),
            Endianness::Little,
            v,
        ),
{
    let s = b.take(2);
    lemma_le_value_low_digit(s);
    lemma_be_value_low_digit(s);
    lemma_be_is_reversed_le(s);
    assert(s.reverse().take(2) =~= s.reverse());
}

/// Little-endian puts the lowest byte of a signed 16-bit number first and big-endian puts it last; a big-endian
/// read gives what a little-endian read of the same bytes, reversed, gives.
pub proof fn lemma_i16_byte_order(b: Seq<u8>, v: I16)
    requires
        2 <= b.len(),
    ensures
        I16::reads(b, Endianness::Little, v) ==> (v.value as int) % 256 == b[0],
        I16::reads(b, Endianness::Big, v) ==> (v.value as int) % 256 == b[2 - 1],
        I16::reads(b, Endianness::Big, v) <==> I16::reads(
            b.take(2).reverse(),
            Endianness::Little,
            v,
        ),
{
    let s = b.take(2);
    lemma_le_value_low_digit(s);
    lemma_be_value_low_digit(s);
    lemma_be_is_reversed_le(s);
    assert(s.reverse().take(2) =~= s.reverse());
    lemma_twos_complement_low_digit(le_value(s), 0x8000);
    lemma_twos_complement_low_digit(be_value(s), 0x8000);
}

/// Little-endian puts the lowest byte of an unsigned 32-bit number first and big-endian puts it last; a big-endian
/// read gives what a little-endian read of the same bytes, reversed, gives.
pub proof fn lemma_u32_byte_order(b: Seq<u8>, v: U32)
    requires
        4 <= b.len(),
    ensures
        U32::reads(b, Endianness::Little, v) ==> (v.value as int) % 256 == b[0],
        U32::reads(b, Endianness::Big, v) ==> (v.value as int) % 256 == b[4 - 1],
        U32::reads(b, Endianness::Big, v) <==> U32::reads(
            b.take(4).reverse(),
            Endianness::Little,
            v,
        ),
{
    let s = b.take(4);
    lemma_le_value_low_digit(s);
    lemma_be_value_low_digit(s);
    lemma_be_is_reversed_le(s);
    assert(s.reverse().take(4) =~= s.reverse());
}

/// Little-endian puts the lowest byte of a signed 32-bit number first and big-endian puts it last; a big-endian
/// read gives what a little-endian read of the same bytes, reversed, gives.
pub proof fn lemma_i32_byte_order(b: Seq<u8>, v: I32)
    requires
        4 <= b.len(),
    ensures
        I32::reads(b, Endianness::Little, v) ==> (v.value as int) % 256 == b[0],
        I32::reads(b, Endianness::Big, v) ==> (v.value as int) % 256 == b[4 - 1],
        I32::reads(b, Endianness::Big, v) <==> I32::reads(
            b.take(4).reverse(),
            Endianness::Little,
            v,
        ),
{
    let s = b.take(4);
    lemma_le_value_low_digit(s);
    lemma_be_value_low_digit(s);
    lemma_be_is_reversed_le(s);
    assert(s.reverse().take(4) =~= s.reverse());
    lemma_twos_complement_low_digit(le_value(s), 0x8000_0000);
    lemma_twos_complement_low_digit(be_value(s), 0x8000_0000);
}

/// Little-endian puts the lowest byte of an unsigned 64-bit number first and big-endian puts it last; a big-endian
/// read gives what a little-endian read of the same bytes, reversed, gives.
pub proof fn lemma_u64_byte_order(b: Seq<u8>, v: U64)
    requires
        8 <= b.len(),
    ensures
        U64::reads(b, Endianness::Little, v) ==> (v.value as int) % 256 == b[0],
        U64::reads(b, Endianness::Big, v) ==> (v.value as int) % 256 == b[8 - 1],
        U64::reads(b, Endianness::Big, v) <==> U64::reads(
            b.take(8).reverse(),
            Endianness::Little,
            v,
        ),
{
    let s = b.take(8);
    lemma_le_value_low_digit(s);
    lemma_be_value_low_digit(s);
    lemma_be_is_reversed_le(s);
    assert(s.reverse().take(8) =~= s.reverse());
}

/// Little-endian puts the lowest byte of a signed 64-bit number first and big-endian puts it last; a big-endian
/// read gives what a little-endian read of the same bytes, reversed, gives.
pub proof fn lemma_i64_byte_order(b: Seq<u8>, v: I64)
    requires
        8 <= b.len(),
    ensures
        I64::reads(b, Endianness::Little, v) ==> (v.value as int) % 256 == b[0],
        I64::reads(b, Endianness::Big, v) ==> (v.value as int) % 256 == b[8 - 1],
        I64::reads(b, Endianness::Big, v) <==> I64::reads(
            b.take(8).reverse(),
            Endianness::Little,
            v,
        ),
{
    let s = b.take(8);
    lemma_le_value_low_digit(s);
    lemma_be_value_low_digit(s);
    lemma_be_is_reversed_le(s);
    assert(s.reverse().take(8) =~= s.reverse());
    lemma_twos_complement_low_digit(le_value(s), 0x8000_0000_0000_0000);
    lemma_twos_complement_low_digit(be_value(s), 0x8000_0000_0000_0000);
}

} // verus!
