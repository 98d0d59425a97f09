use binspec::byte_source::ByteSource;
use binspec::cursor::Cursor;
use binspec::errors::SourceError;
use binspec::view::View;

fn data() -> Vec<u8> {
    (0u8..10).collect()
}

fn pair(c: Cursor) -> (usize, usize) {
    (c.offset, c.size)
}

fn insufficient(e: SourceError) -> ((usize, usize), (usize, usize)) {
    match e {
        SourceError::InsufficientData { cursor, view } => (pair(cursor), pair(view)),
        SourceError::IoError(m) => panic!("unexpected I/O error {m}"),
    }
}

#[test]
fn vec_source_size_and_peek() {
    let d = data();
    assert_eq!(d.size(), 10);
    assert_eq!(d.peek(Cursor::new(2, 3)).unwrap(), &[2, 3, 4]);
    assert_eq!(d.peek_n(4).unwrap(), &[0, 1, 2, 3]);
    assert_eq!(d._unsafe_peek(Cursor::new(7, 3)), &[7, 8, 9]);
}

#[test]
fn check_accepts_windows_up_to_the_end() {
    let d = data();
    assert!(d.check(Cursor::new(0, 10)).is_ok());
    assert!(d.check(Cursor::new(10, 0)).is_ok());
    assert_eq!(d.peek_n(10).unwrap(), d.as_slice());
    let e = d.check(Cursor::new(0, 11)).unwrap_err();
    assert_eq!(insufficient(e), ((0, 11), (0, 10)));
    let e = d.peek(Cursor::new(8, 3)).unwrap_err();
    assert_eq!(insufficient(e), ((8, 3), (0, 10)));
}

#[test]
fn view_from_covers_the_source() {
    let d = data();
    let v = View::from(&d);
    assert_eq!(pair(v.cursor), (0, 10));
    assert_eq!(v.offset(), 0);
    assert_eq!(v.size(), 10);
    assert_eq!(v.peek_n(3).unwrap(), &[0, 1, 2]);
}

#[test]
fn skip_moves_past_the_window() {
    let d = data();
    let mut v = View::from(&d);
    v.skip(Cursor::new(1, 2)).unwrap();
    assert_eq!(pair(v.cursor), (3, 7));
    v.skip_n(2).unwrap();
    assert_eq!(pair(v.cursor), (5, 5));
    assert_eq!(v.offset(), 5);
}

#[test]
fn skip_failure_leaves_view_unchanged() {
    let d = data();
    let mut v = View::from(&d);
    v.skip_n(4).unwrap();
    let e = v.skip_n(7).unwrap_err();
    assert_eq!(insufficient(e), ((0, 7), (4, 6)));
    assert_eq!(pair(v.cursor), (4, 6));
    v.skip_n(6).unwrap();
    assert_eq!(pair(v.cursor), (10, 0));
}

#[test]
fn consume_returns_bytes_and_advances() {
    let d = data();
    let mut v = View::from(&d);
    assert_eq!(v.consume_n(3).unwrap(), &[0, 1, 2]);
    assert_eq!(v.consume(Cursor::new(1, 2)).unwrap(), &[4, 5]);
    assert_eq!(pair(v.cursor), (6, 4));
}

#[test]
fn consume_in_two_equals_consume_once() {
    let d = data();
    let mut a = View::from(&d);
    let mut first = a.consume_n(2).unwrap().to_vec();
    first.extend_from_slice(a.consume_n(3).unwrap());
    let mut b = View::from(&d);
    let once = b.consume_n(5).unwrap();
    assert_eq!(first.as_slice(), once);
    assert_eq!(pair(a.cursor), pair(b.cursor));
}

#[test]
fn consume_failure_leaves_view_unchanged() {
    let d = data();
    let mut v = View::from(&d);
    let e = v.consume_n(11).unwrap_err();
    assert_eq!(insufficient(e), ((0, 11), (0, 10)));
    assert_eq!(pair(v.cursor), (0, 10));
    assert_eq!(v.consume_n(10).unwrap(), d.as_slice());
    assert_eq!(pair(v.cursor), (10, 0));
}

#[test]
fn view_check_reports_its_own_window() {
    let d = data();
    let mut v = View::from(&d);
    v.skip_n(3).unwrap();
    assert!(v.check(Cursor::new(2, 5)).is_ok());
    let e = v.check(Cursor::new(2, 6)).unwrap_err();
    assert_eq!(insufficient(e), ((2, 6), (3, 7)));
}

#[test]
fn subview_is_relative_and_leaves_view() {
    let d = data();
    let mut v = View::from(&d);
    v.skip_n(2).unwrap();
    let s = v.subview(Cursor::new(1, 4)).unwrap();
    assert_eq!(pair(s.cursor), (3, 4));
    assert_eq!(s.peek_n(2).unwrap(), &[3, 4]);
    assert_eq!(pair(v.cursor), (2, 8));
    let s2 = v.subview_n(3).unwrap();
    assert_eq!(pair(s2.cursor), (2, 3));
    assert_eq!(pair(v.subview_n(8).unwrap().cursor), (2, 8));
    assert!(v.subview_n(9).is_err());
}

#[test]
fn subview_of_subview_composes() {
    let d = data();
    let v = View::from(&d);
    let outer = v.subview(Cursor::new(2, 6)).unwrap();
    let inner = outer.subview(Cursor::new(1, 3)).unwrap();
    assert_eq!(pair(inner.cursor), (3, 3));
    assert_eq!(inner.peek_n(2).unwrap(), &[3, 4]);
}

#[test]
fn consume_subview_returns_window_and_advances() {
    let d = data();
    let mut v = View::from(&d);
    let s = v.consume_subview(Cursor::new(1, 2)).unwrap();
    assert_eq!(pair(s.cursor), (1, 2));
    assert_eq!(pair(v.cursor), (3, 7));
    let s = v.consume_subview_n(4).unwrap();
    assert_eq!(pair(s.cursor), (3, 4));
    assert_eq!(pair(v.cursor), (7, 3));
    let e = v.consume_subview_n(4).unwrap_err();
    assert_eq!(insufficient(e), ((0, 4), (7, 3)));
    assert_eq!(pair(v.cursor), (7, 3));
    let s = v.consume_subview_n(3).unwrap();
    assert_eq!(pair(s.cursor), (7, 3));
    assert_eq!(pair(v.cursor), (10, 0));
}

#[test]
fn view_of_view_peeks_through() {
    let d = data();
    let mut outer = View::from(&d);
    outer.skip_n(4).unwrap();
    let mut inner = View::from(&outer);
    assert_eq!(pair(inner.cursor), (0, 6));
    assert_eq!(inner.consume_n(2).unwrap(), &[4, 5]);
}

#[test]
fn clone_copies_position() {
    let d = data();
    let mut v = View::from(&d);
    v.skip_n(1).unwrap();
    let c = v.clone();
    assert_eq!(pair(c.cursor), (1, 9));
}
