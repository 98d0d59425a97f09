use binspec::cursor::Cursor;
use binspec::errors::{SourceError, SpecError};
use binspec::specs::{
    read_array, try_spec, Endianness, Spec, I16, I32, I64, I8, U16, U32, U64, U8,
};
use binspec::trys::Either;
use binspec::view::View;

fn bytes() -> Vec<u8> {
    vec![0x01, 0x02, 0x03, 0x04, 0x05, 0x06, 0x07, 0x08, 0xff, 0xfe, 0x00]
}

fn insufficient(e: SpecError) -> ((usize, usize), (usize, usize)) {
    match e {
        SpecError::ReadFailed(SourceError::InsufficientData { cursor, view }) => {
            ((cursor.offset, cursor.size), (view.offset, view.size))
        }
        other => panic!("unexpected error {other:?}"),
    }
}

#[test]
fn u8_and_i8_read_the_first_byte() {
    let d = vec![0xfeu8, 0x01];
    let (u, n) = U8::read_all(&d, ()).unwrap();
    assert_eq!((u.value, n), (0xfe, 1));
    let (i, n) = I8::read_all(&d, ()).unwrap();
    assert_eq!((i.value, n), (-2, 1));
}

#[test]
fn the_last_byte_can_be_read() {
    let d = vec![0x7fu8];
    assert_eq!(U8::read_all(&d, ()).unwrap().0.value, 0x7f);
    assert_eq!(I8::read_all(&d, ()).unwrap().0.value, 0x7f);
}

#[test]
fn a_byte_from_empty_data_fails() {
    let d: Vec<u8> = Vec::new();
    let e = U8::read_all(&d, ()).unwrap_err();
    assert_eq!(insufficient(e), ((0, 1), (0, 0)));
    assert!(I8::read_all(&d, ()).is_err());
}

#[test]
fn u16_byte_orders() {
    let d = bytes();
    assert_eq!(U16::read_all(&d, Endianness::Little).unwrap().0.value, 0x0201);
    assert_eq!(U16::read_all(&d, Endianness::Big).unwrap().0.value, 0x0102);
    assert_eq!(U16::read_all(&d, Endianness::Big).unwrap().1, 2);
}

#[test]
fn u32_and_u64_byte_orders() {
    let d = bytes();
    assert_eq!(U32::read_all(&d, Endianness::Little).unwrap().0.value, 0x0403_0201);
    assert_eq!(U32::read_all(&d, Endianness::Big).unwrap().0.value, 0x0102_0304);
    assert_eq!(U64::read_all(&d, Endianness::Little).unwrap().0.value, 0x0807_0605_0403_0201);
    assert_eq!(U64::read_all(&d, Endianness::Big).unwrap().0.value, 0x0102_0304_0506_0708);
    assert_eq!(U64::read_all(&d, Endianness::Big).unwrap().1, 8);
}

#[test]
fn signed_values_use_twos_complement() {
    let d = vec![0xffu8, 0xfe, 0xff, 0xff, 0xff, 0xff, 0xff, 0xff, 0x00];
    assert_eq!(I16::read_all(&d, Endianness::Little).unwrap().0.value, -257);
    assert_eq!(I16::read_all(&d, Endianness::Big).unwrap().0.value, -2);
    assert_eq!(I32::read_all(&d, Endianness::Big).unwrap().0.value, -65537);
    assert_eq!(I64::read_all(&d, Endianness::Little).unwrap().0.value, -257);
    let p = vec![0x7fu8, 0xff, 0xff, 0xff, 0x00];
    assert_eq!(I32::read_all(&p, Endianness::Big).unwrap().0.value, i32::MAX);
}

#[test]
fn big_endian_is_little_endian_of_reversed_bytes() {
    let d = vec![0x12u8, 0x34, 0x56, 0x78, 0x00];
    let mut r = d[..4].to_vec();
    r.reverse();
    r.push(0);
    assert_eq!(
        U32::read_all(&d, Endianness::Big).unwrap().0.value,
        U32::read_all(&r, Endianness::Little).unwrap().0.value
    );
}

#[test]
fn number_too_long_for_data() {
    let d = vec![1u8, 2, 3];
    let e = U32::read_all(&d, Endianness::Little).unwrap_err();
    assert_eq!(insufficient(e), ((0, 4), (0, 3)));
    assert!(I64::read_all(&vec![0u8; 7], Endianness::Big).is_err());
    assert_eq!(I64::read_all(&vec![0xffu8; 8], Endianness::Big).unwrap().0.value, -1);
}

#[test]
fn le_and_be_do_not_move_the_view() {
    let d = bytes();
    let mut v = View::from(&d);
    assert_eq!(U16::LE(&mut v).unwrap().value, 0x0201);
    assert_eq!(U16::BE(&mut v).unwrap().value, 0x0102);
    assert_eq!(U32::LE(&mut v).unwrap().value, 0x0403_0201);
    assert_eq!(I16::BE(&mut v).unwrap().value, 0x0102);
    assert_eq!((v.cursor.offset, v.cursor.size), (0, 11));
    v.skip_n(9).unwrap();
    let e = U32::LE(&mut v).unwrap_err();
    assert_eq!(insufficient(e), ((0, 4), (9, 2)));
}

#[test]
fn read_from_view_moves_past_the_value() {
    let d = bytes();
    let mut v = View::from(&d);
    assert_eq!(U8::read_from_view(&mut v, ()).unwrap().value, 0x01);
    assert_eq!(U16::read_from_view(&mut v, Endianness::Big).unwrap().value, 0x0203);
    assert_eq!((v.cursor.offset, v.cursor.size), (3, 8));
}

#[test]
fn read_from_view_fails_without_moving() {
    let d = vec![1u8, 2, 3];
    let mut v = View::from(&d);
    v.skip_n(2).unwrap();
    let e = U16::read_from_view(&mut v, Endianness::Big).unwrap_err();
    assert_eq!(insufficient(e), ((0, 2), (2, 1)));
    assert_eq!((v.cursor.offset, v.cursor.size), (2, 1));
}

#[test]
fn size_and_read_split_read_all() {
    let d = bytes();
    assert_eq!(U32::size(&d, Endianness::Big).unwrap(), 4);
    assert_eq!(U32::read(&d, Endianness::Big).unwrap().value, 0x0102_0304);
}

#[test]
fn reads_at_an_offset() {
    let d = bytes();
    let (v, n) = U16::read_all_at(&d, 2, Endianness::Big).unwrap();
    assert_eq!((v.value, n), (0x0304, 2));
    assert_eq!(U16::read_at(&d, 8, Endianness::Little).unwrap().value, 0xfeff);
    assert_eq!(U32::size_at(&d, 4, Endianness::Little).unwrap(), 4);
    assert_eq!(U8::read_at(&d, 0, ()).unwrap().value, U8::read(&d, ()).unwrap().value);
}

#[test]
fn offset_past_the_data() {
    let d = bytes();
    let e = U8::read_at(&d, 12, ()).unwrap_err();
    assert_eq!(insufficient(e), ((0, 12), (0, 11)));
    assert!(U8::read_all_at(&d, 20, ()).is_err());
    let e = U8::size_at(&d, 11, ()).unwrap_err();
    assert_eq!(insufficient(e), ((0, 1), (11, 0)));
    let e = U16::read_at(&d, 10, Endianness::Big).unwrap_err();
    assert_eq!(insufficient(e), ((0, 2), (10, 1)));
    assert_eq!(U16::read_at(&d, 9, Endianness::Big).unwrap().value, 0xfe00);
}

#[test]
fn vec_reads_the_same_value_count_times() {
    let d = bytes();
    let (v, n) = Vec::<U16>::read_all(&d, (3, Endianness::Big)).unwrap();
    let values: Vec<u16> = v.iter().map(|x| x.value).collect();
    assert_eq!(values, vec![0x0102, 0x0102, 0x0102]);
    assert_eq!(n, 6);
    let (empty, n) = Vec::<U8>::read_all(&Vec::new(), (0, ())).unwrap();
    assert!(empty.is_empty());
    assert_eq!(n, 0);
    let (ones, n) = Vec::<U8>::read_all(&vec![1u8], (2, ())).unwrap();
    assert_eq!((ones.len(), ones[1].value, n), (2, 1, 2));
    let e = Vec::<U8>::read_all(&Vec::new(), (2, ())).unwrap_err();
    assert_eq!(insufficient(e), ((0, 1), (0, 0)));
}

#[test]
fn read_array_reads_one_after_another() {
    let d = bytes();
    let mut v = View::from(&d);
    let out: Vec<U16> = read_array(&mut v, 3, Endianness::Big).unwrap();
    let values: Vec<u16> = out.iter().map(|x| x.value).collect();
    assert_eq!(values, vec![0x0102, 0x0304, 0x0506]);
    assert_eq!((v.cursor.offset, v.cursor.size), (6, 5));
}

#[test]
fn read_array_stops_at_first_failure() {
    let d = vec![1u8, 2, 3, 4];
    let mut v = View::from(&d);
    let r: Result<Vec<U8>, _> = read_array(&mut v, 5, ());
    assert_eq!(insufficient(r.unwrap_err()), ((0, 1), (4, 0)));
    assert_eq!((v.cursor.offset, v.cursor.size), (4, 0));
    let mut w = View::from(&d);
    let all: Vec<U8> = read_array(&mut w, 4, ()).unwrap();
    assert_eq!(all[3].value, 4);
    assert_eq!((w.cursor.offset, w.cursor.size), (4, 0));
}

#[test]
fn try_spec_takes_left_when_it_reads() {
    let d = bytes();
    let mut v = View::from(&d);
    let r = try_spec(
        |w: &mut View<Vec<u8>>| U16::read_from_view(w, Endianness::Big),
        |w: &mut View<Vec<u8>>| U8::read_from_view(w, ()),
        &mut v,
    );
    match r {
        Either::Left(x) => assert_eq!(x.value, 0x0102),
        Either::Right(_) => panic!("expected the left reading"),
    }
    assert_eq!((v.cursor.offset, v.cursor.size), (2, 9));
}

#[test]
fn try_spec_falls_back_to_right() {
    let d = vec![7u8, 8];
    let mut v = View::from(&d);
    let r = try_spec(
        |w: &mut View<Vec<u8>>| U32::read_from_view(w, Endianness::Big),
        |w: &mut View<Vec<u8>>| U8::read_from_view(w, ()),
        &mut v,
    );
    match r {
        Either::Right((Ok(x), e)) => {
            assert_eq!(x.value, 7);
            assert_eq!(insufficient(e), ((0, 4), (0, 2)));
        }
        _ => panic!("expected the fallback reading"),
    }
    assert_eq!((v.cursor.offset, v.cursor.size), (1, 1));
}

#[test]
fn insufficient_error_is_named_by_cursor() {
    let d = vec![1u8];
    let e = U16::read_all(&d, Endianness::Big).unwrap_err();
    assert_eq!(insufficient(e), ((0, 2), (0, 1)));
    let c = Cursor::fromstart(2);
    assert_eq!(c.end(), 2);
}
