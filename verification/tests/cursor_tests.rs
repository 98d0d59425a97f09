use binspec::cursor::Cursor;

fn pair(c: Cursor) -> (usize, usize) {
    (c.offset, c.size)
}

#[test]
fn new_and_fromstart_set_fields() {
    assert_eq!(pair(Cursor::new(3, 4)), (3, 4));
    assert_eq!(pair(Cursor::fromstart(9)), (0, 9));
}

#[test]
fn end_is_offset_plus_size() {
    assert_eq!(Cursor::new(3, 4).end(), 7);
    assert_eq!(Cursor::fromstart(0).end(), 0);
}

#[test]
fn add_moves_offset_only() {
    assert_eq!(pair(Cursor::new(3, 4).add(10)), (13, 4));
}

#[test]
fn subrange_is_relative() {
    let parent = Cursor::new(10, 5);
    assert_eq!(parent.subrange(Cursor::new(1, 3)).map(pair), Some((11, 3)));
    assert_eq!(parent.subrange(Cursor::new(0, 5)).map(pair), Some((10, 5)));
    assert!(parent.subrange(Cursor::new(3, 3)).is_none());
}

#[test]
fn subrange_result_is_subset_of_parent() {
    let parent = Cursor::new(10, 5);
    let child = parent.subrange(Cursor::new(2, 2)).unwrap();
    assert!(child.is_subset(parent));
    assert!(parent.is_superset(child));
}

#[test]
fn subset_and_superset_are_mirrors() {
    let a = Cursor::new(2, 3);
    let b = Cursor::new(0, 10);
    assert!(a.is_subset(b));
    assert!(!b.is_subset(a));
    assert!(b.is_superset(a));
    assert!(!a.is_superset(b));
    assert!(a.is_subset(a));
}

#[test]
fn shared_is_the_overlap() {
    let a = Cursor::new(0, 10);
    let b = Cursor::new(5, 10);
    assert_eq!(a.shared(b).map(pair), Some((5, 5)));
    assert_eq!(b.shared(a).map(pair), Some((5, 5)));
}

#[test]
fn shared_is_none_when_only_touching() {
    let a = Cursor::new(0, 5);
    let b = Cursor::new(5, 5);
    assert!(a.shared(b).is_none());
    assert!(Cursor::new(0, 5).shared(Cursor::new(8, 1)).is_none());
}

#[test]
fn join_covers_touching_windows() {
    let a = Cursor::new(0, 5);
    let b = Cursor::new(5, 5);
    assert_eq!(a.join(b).map(pair), Some((0, 10)));
    assert_eq!(b.join(a).map(pair), Some((0, 10)));
}

#[test]
fn join_of_overlapping_windows() {
    assert_eq!(Cursor::new(2, 6).join(Cursor::new(4, 10)).map(pair), Some((2, 12)));
    assert_eq!(Cursor::new(0, 20).join(Cursor::new(4, 2)).map(pair), Some((0, 20)));
}

#[test]
fn join_is_none_across_a_gap() {
    assert!(Cursor::new(0, 4).join(Cursor::new(5, 1)).is_none());
    assert!(Cursor::new(5, 1).join(Cursor::new(0, 4)).is_none());
}

#[test]
fn plus_moves_offset_only() {
    assert_eq!(pair(Cursor::new(3, 4) + 10), (13, 4));
}

#[test]
fn subset_short_circuits_on_offset() {
    let far = Cursor::new(usize::MAX, 5);
    assert!(!Cursor::new(0, 1).is_subset(far));
    assert!(!far.is_superset(Cursor::new(0, 1)));
    assert!(Cursor::new(0, 2).join(Cursor::new(10, usize::MAX)).is_none());
}
