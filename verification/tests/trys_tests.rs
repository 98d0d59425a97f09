use binspec::trys::{get_string, string_or_bytes, Either};

#[test]
fn valid_utf8_becomes_text() {
    match get_string(b"ustar") {
        Either::Left(s) => assert_eq!(s, "ustar"),
        Either::Right(_) => panic!("expected text"),
    }
    match get_string("héllo".as_bytes()) {
        Either::Left(s) => assert_eq!(s, "héllo"),
        Either::Right(_) => panic!("expected text"),
    }
    match get_string(b"") {
        Either::Left(s) => assert_eq!(s, ""),
        Either::Right(_) => panic!("expected text"),
    }
}

#[test]
fn invalid_utf8_keeps_the_bytes() {
    let data = [0x66u8, 0xff, 0x6f];
    match get_string(&data) {
        Either::Right((bytes, err)) => {
            assert_eq!(bytes, data.to_vec());
            assert_eq!(err.valid_up_to(), 1);
        }
        Either::Left(_) => panic!("expected the raw bytes"),
    }
}

#[test]
fn error_is_the_one_from_utf8_gives() {
    let data = [0x61u8, 0xff];
    match get_string(&data) {
        Either::Right((bytes, err)) => {
            assert_eq!(bytes, data.to_vec());
            assert_eq!(Err(err), std::str::from_utf8(&data));
            assert_eq!(err.valid_up_to(), 1);
        }
        Either::Left(_) => panic!("expected the raw bytes"),
    }
}

#[test]
fn string_or_bytes_passes_outcome_on() {
    match string_or_bytes(b"hi", Ok("hi")) {
        Either::Left(s) => assert_eq!(s, "hi"),
        Either::Right(_) => panic!("expected text"),
    }
    let err = std::str::from_utf8(&[0xffu8]).unwrap_err();
    match string_or_bytes(&[1, 2], Err(err)) {
        Either::Right((bytes, e)) => {
            assert_eq!(bytes, vec![1u8, 2]);
            assert_eq!(e, err);
        }
        Either::Left(_) => panic!("expected the raw bytes"),
    }
}
