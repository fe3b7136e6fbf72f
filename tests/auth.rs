use dbus_codec::authentication::{
    auth_request, check_agree_reply, check_auth_reply, digits, hex_to_ascii, negotiate_request, to_ascii,
    DigitIter, Error,
};

#[test]
fn test_digit_iter() {
    let mut iter = DigitIter::new(1000);
    assert_eq!(iter.next(), Some(1));
    assert_eq!(iter.next(), Some(0));
    assert_eq!(iter.next(), Some(0));
    assert_eq!(iter.next(), Some(0));
    assert_eq!(iter.next(), None);
}

#[test]
fn zero_has_one_digit() {
    let mut iter = DigitIter::new(0);
    assert_eq!(iter.next(), Some(0));
    assert_eq!(iter.next(), None);
    assert_eq!(digits(0), 0);
    assert_eq!(digits(1000), 4);
    assert_eq!(digits(u32::MAX), 10);
}

#[test]
fn ascii_of_digits() {
    assert_eq!(to_ascii(1), *b"31");
    assert_eq!(to_ascii(9), *b"39");
    assert_eq!(hex_to_ascii(10), b'a');
    assert_eq!(hex_to_ascii(3), b'3');
}

#[test]
fn request_names_the_user() {
    assert_eq!(auth_request(1000), b"\0AUTH EXTERNAL 31303030\r\n".to_vec());
    assert_eq!(auth_request(0), b"\0AUTH EXTERNAL 30\r\n".to_vec());
    assert_eq!(negotiate_request(), b"NEGOTIATE_UNIX_FD\r\nBEGIN\r\n".to_vec());
}

#[test]
fn replies_are_checked() {
    assert!(check_auth_reply::<()>(b"OK 1234abcd\r\n").is_ok());
    assert!(matches!(check_auth_reply::<()>(b"REJECTED EXTERNAL\r\n"), Err(Error::AuthenticationFailed)));
    assert!(check_agree_reply::<()>(b"AGREE_UNIX_FD\r\n").is_ok());
    assert!(matches!(check_agree_reply::<()>(b"ERROR\r\n"), Err(Error::NegotiationFailed)));
}

#[test]
fn io_errors_convert() {
    let e: Error<u8> = Error::from(7u8);
    assert!(matches!(e, Error::Io(7)));
}
