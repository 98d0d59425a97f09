use binspec::byte_source::ByteSource;
use binspec::cursor::Cursor;
use binspec::file::MmapByteSource;
use binspec::specs::{Endianness, Spec, U16};
use binspec::view::View;
use memmap2::{Mmap, MmapMut};

fn mapped(bytes: &[u8]) -> Mmap {
    let mut map = MmapMut::map_anon(bytes.len()).unwrap();
    map.copy_from_slice(bytes);
    map.make_read_only().unwrap()
}

#[test]
fn mapped_source_reads_its_bytes() {
    let source = MmapByteSource::from_parts(mapped(&[1, 2, 3, 4, 5]), 5);
    assert_eq!(source.size(), 5);
    assert_eq!(source.peek(Cursor::new(1, 2)).unwrap(), &[2, 3]);
    assert_eq!(U16::read_all(&source, Endianness::Big).unwrap().0.value, 0x0102);
    assert_eq!(source.peek_n(5).unwrap(), &[1, 2, 3, 4, 5]);
    assert!(source.peek_n(6).is_err());
    assert!(source.is_valid());
}

#[test]
fn mapped_source_holds_only_the_given_length() {
    let source = MmapByteSource::from_parts(mapped(&[1, 2, 3, 4, 5, 6, 7, 8]), 3);
    assert_eq!(source.size(), 3);
    assert!(source.peek_n(4).is_err());
    assert!(source.is_valid());
    assert!(!MmapByteSource::from_parts(mapped(&[1, 2]), 3).is_valid());
    let mut view = View::from(&source);
    assert_eq!(view.consume_n(2).unwrap(), &[1, 2]);
}
