use passrs::config::{generated_length, key_list, masked_mode, setting_or, store_dir, umask, version_string};
use passrs::text::IntErrorKind;

#[test]
fn store_folder() {
    assert_eq!(store_dir(None, "/home/u"), "/home/u/.password-store/");
    assert_eq!(store_dir(Some("/srv/pass"), "/home/u"), "/srv/pass");
}

#[test]
fn keys_are_the_words() {
    assert_eq!(key_list(Some(" ab  cd e ")), vec!["ab", "cd", "e"]);
    assert!(key_list(Some("   ")).is_empty());
    assert!(key_list(None).is_empty());
}

#[test]
fn umask_is_octal() {
    assert_eq!(umask(None), Ok(0o77));
    assert_eq!(umask(Some("022")), Ok(0o22));
    assert_eq!(umask(Some("8")), Err(IntErrorKind::InvalidDigit));
    assert_eq!(masked_mode(0o666, 0o77), 0o600);
    assert_eq!(masked_mode(0o755, 0o22), 0o755);
}

#[test]
fn generated_length_default() {
    assert_eq!(generated_length(None), Ok(24));
    assert_eq!(generated_length(Some("40")), Ok(40));
    assert_eq!(generated_length(Some("x")), Err(IntErrorKind::InvalidDigit));
    assert_eq!(setting_or(None, "45"), "45");
    assert_eq!(setting_or(Some("9"), "45"), "9");
}

#[test]
fn versions() {
    assert_eq!(version_string("0.1.0", "abc123"), "0.1.0 (abc123)");
    assert_eq!(version_string("0.1.0", ""), "0.1.0");
}
