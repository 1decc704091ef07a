use passrs::error::PassrsError;
use passrs::text::IntErrorKind;

const RED: &str = "\x1b[38;5;1m";
const RESET: &str = "\x1b[m";

#[test]
fn messages_are_red_and_name_the_subject() {
    assert_eq!(
        PassrsError::NoMatchesFound("amazon".to_string()).message(),
        format!("{}Error: No matches found for 'amazon'{}", RED, RESET)
    );
    assert_eq!(
        PassrsError::SneakyPath("../x".to_string()).message(),
        format!("{}Error: Sneaky path '../x'{}", RED, RESET)
    );
    assert_eq!(PassrsError::UserAbort.message(), format!("{}Error: User aborted{}", RED, RESET));
    assert_eq!(
        PassrsError::Other("boom".to_string()).message(),
        format!("{}Error: boom{}", RED, RESET)
    );
}

#[test]
fn messages_with_a_second_line() {
    assert_eq!(
        PassrsError::StoreDoesntExist.message(),
        format!(
            "{}Error: Store does not exist{}\nYou must run `pass init gpg-id` before you can use the password store",
            RED, RESET
        )
    );
    assert_eq!(
        PassrsError::InvalidKeyUri.message(),
        format!(
            "{}Error: URI was not in valid Key Uri Format.{}\nSee https://github.com/google/google-authenticator/wiki/Key-Uri-Format for more information.",
            RED, RESET
        )
    );
}

#[test]
fn uncoloured_messages() {
    assert_eq!(PassrsError::ContentsUnchanged.message(), "Contents unchanged");
    assert_eq!(PassrsError::UriMismatch.message(), "Failed to get regex captures");
    assert_eq!(
        PassrsError::InvalidNumber(IntErrorKind::PosOverflow).message(),
        "number too large to fit in target type"
    );
    assert_eq!(
        PassrsError::InvalidNumber(IntErrorKind::Empty).message(),
        "cannot parse integer from empty string"
    );
    assert_eq!(
        PassrsError::InvalidNumber(IntErrorKind::InvalidDigit).message(),
        "invalid digit found in string"
    );
}

#[test]
fn text_errors_are_other() {
    let e: PassrsError = "boom".to_string().into();
    assert_eq!(e, PassrsError::Other("boom".to_string()));
}
