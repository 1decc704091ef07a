use passrs::error::PassrsError;
use passrs::secret::{charset, chars_from_random, generate_chars_from_set};

#[test]
fn default_charsets() {
    let all = charset(None, false);
    assert_eq!(
        all,
        b"0123456789abcdefghijklmnopqrstuvwxyzABCDEFGHIJKLMNOPQRSTUVWXYZ!\"#$%&'()*+,-./:;<=>?@[\\]^_`{|}~".to_vec()
    );
    let plain = charset(None, true);
    assert_eq!(plain, b"0123456789abcdefghijklmnopqrstuvwxyzABCDEFGHIJKLMNOPQRSTUVWXYZ".to_vec());
    assert_eq!(charset(Some("xyz"), false), b"xyz".to_vec());
}

#[test]
fn random_bytes_pick_from_the_set() {
    assert_eq!(chars_from_random(b"abc", &[0, 1, 2, 3, 4, 255], 6), b"abcaba".to_vec());
    assert_eq!(chars_from_random(b"abc", &[7, 8, 9], 2), b"bc".to_vec());
}

#[test]
fn generated_secrets_have_the_length_and_alphabet() {
    for len in [1usize, 24, 64, 65, 200] {
        let secret = generate_chars_from_set(b"01", len).unwrap();
        assert_eq!(secret.len(), len);
        assert!(secret.iter().all(|b| *b == b'0' || *b == b'1'));
    }
    let r: Result<Vec<u8>, PassrsError> = generate_chars_from_set(b"x", 3);
    assert_eq!(r.unwrap(), b"xxx".to_vec());
}

#[test]
fn a_length_of_zero_gives_the_empty_secret() {
    assert_eq!(generate_chars_from_set(b"abc", 0), Ok(Vec::new()));
    assert_eq!(generate_chars_from_set(b"", 0), Ok(Vec::new()));
}
