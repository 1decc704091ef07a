use passrs::digest::{content_hash, utf8_text};
use passrs::error::PassrsError;

#[test]
fn fingerprints_are_sha256_in_hex() {
    assert_eq!(
        content_hash(b""),
        "e3b0c44298fc1c149afbf4c8996fb92427ae41e4649b934ca495991b7852b855"
    );
    assert_eq!(
        content_hash(b"abc"),
        "ba7816bf8f01cfea414140de5dae2223b00361a396177a9cb410ff61f20015ad"
    );
}

#[test]
fn utf8_errors_say_where() {
    assert_eq!(utf8_text(b"h\xc3\xa9").unwrap(), "hé");
    assert_eq!(
        utf8_text(b"ab\xffcd"),
        Err(PassrsError::InvalidUtf8 { valid_up_to: 2, error_len: Some(1) })
    );
    assert_eq!(
        utf8_text(b"ab\xc3"),
        Err(PassrsError::InvalidUtf8 { valid_up_to: 2, error_len: None })
    );
    assert_eq!(
        PassrsError::InvalidUtf8 { valid_up_to: 2, error_len: Some(1) }.message(),
        "invalid utf-8 sequence of 1 bytes from index 2"
    );
    assert_eq!(
        PassrsError::InvalidUtf8 { valid_up_to: 2, error_len: None }.message(),
        "incomplete utf-8 byte sequence from index 2"
    );
}
