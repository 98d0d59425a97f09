use binspec::byte_source::ByteSource;
use binspec::errors::{SResult, SpecError, ValidationError};
use binspec::specs::{Endianness, Spec, U16, U32, U8};
use binspec::view::View;

#[derive(Debug)]
struct Color {
    red: U8,
    green: U8,
    blue: U8,
}

impl Spec for Color {
    type Params = ();

    fn read_all<S: ByteSource>(data: &S, _params: ()) -> SResult<(Self, usize)> {
        let mut view = View::from(data);
        let blue = U8::read_from_view(&mut view, ())?;
        let green = U8::read_from_view(&mut view, ())?;
        let red = U8::read_from_view(&mut view, ())?;
        let reserved = U8::read_from_view(&mut view, ())?;
        if reserved.value != 0 {
            return Err(SpecError::ValidationFailed(ValidationError::fail("reserved is not 0")));
        }
        Ok((Color { red, green, blue }, view.offset()))
    }
}

#[derive(Debug)]
struct Header {
    magic: U16,
    size: U32,
}

impl Spec for Header {
    type Params = Endianness;

    fn read_all<S: ByteSource>(data: &S, e: Endianness) -> SResult<(Self, usize)> {
        let mut view = View::from(data);
        let magic = U16::read_from_view(&mut view, e)?;
        let size = U32::read_from_view(&mut view, e)?;
        Ok((Header { magic, size }, view.offset()))
    }
}

#[test]
fn user_format_reads_fields_in_order() {
    let d = vec![10u8, 20, 30, 0, 99];
    let (c, n) = Color::read_all(&d, ()).unwrap();
    assert_eq!((c.blue.value, c.green.value, c.red.value), (10, 20, 30));
    assert_eq!(n, 4);
}

#[test]
fn user_format_reports_validation_failure() {
    let d = vec![10u8, 20, 30, 1, 99];
    match Color::read_all(&d, ()) {
        Err(SpecError::ValidationFailed(ValidationError::AssertionFailed { msg, offset })) => {
            assert_eq!(msg, "reserved is not 0");
            assert_eq!(offset, None);
        }
        other => panic!("expected a validation failure, got {other:?}"),
    }
}

#[test]
fn user_formats_nest_through_views() {
    let d = vec![0x42u8, 0x4d, 0, 0, 1, 0, 7];
    let (h, n) = Header::read_all(&d, Endianness::Little).unwrap();
    assert_eq!(h.magic.value, 0x4d42);
    assert_eq!(h.size.value, 0x0001_0000);
    assert_eq!(n, 6);
    let c = Color::read_at(&d, 2, ()).unwrap();
    assert_eq!((c.blue.value, c.green.value, c.red.value), (0, 0, 1));
}

#[test]
fn vec_of_user_format() {
    let d = vec![1u8, 2, 3, 0, 9];
    let (v, n) = Vec::<Color>::read_all(&d, (2, ())).unwrap();
    assert_eq!(v.len(), 2);
    assert_eq!(v[1].red.value, 3);
    assert_eq!(n, 8);
}
