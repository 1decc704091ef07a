//! Errors
//!
//! Every way in which an operation of this library can fail.
use crate::style::{fg_red, reset};
use crate::text::{decimal, format_decimal, push_str, IntErrorKind};
use vstd::prelude::*;

verus! {

/// An error of the password store.
#[derive(Debug, PartialEq, Eq)]
pub enum PassrsError {
    NoPrivateKeyFound,
    NoMatchesFound(String),
    SecretsDontMatch,
    HashMismatch,
    UserAbort,
    InvalidKeyUri,
    InvalidHashAlgorithm(String),
    NoUriFound(String),
    NoSigningKeyFound,
    PathDoesntExist(String),
    SneakyPath(String),
    StoreDoesntExist,
    NotInStore(String),
    SourceIsDestination,
    PathIsDir(String),
    ContentsUnchanged,
    PasteFailed,
    NoGpgIdFile(String),
    ClipFailed,
    StdoutNotTty,
    Other(String),
    /// The text is not in the Key Uri Format at all (no part of it matches).
    UriMismatch,
    /// A number field of a key URI is not a decimal number that fits its type.
    InvalidNumber(IntErrorKind),
    /// The system random number generator failed.
    RandomFailed,
    /// Bytes that had to be UTF-8 text were not: the first `valid_up_to` bytes
    /// are, then comes a bad sequence of `error_len` bytes (or the end, in the
    /// middle of a character).
    InvalidUtf8 { valid_up_to: usize, error_len: Option<u8> },
    /// A failure that is reported by its text alone.
    Plain(String),
}


/// The escape sequence that starts red text.
pub open spec fn red_seq() -> Seq<char> {
    "\u{1b}[38;5;1m"@
}

/// The escape sequence that resets colours and styles.
pub open spec fn reset_seq() -> Seq<char> {
    "\u{1b}[m"@
}

/// An error text as the store prints it: in red, after `"Error: "`.
pub open spec fn in_red(t: Seq<char>) -> Seq<char> {
    red_seq() + "Error: "@ + t + reset_seq()
}

/// What `core::num::ParseIntError` displays for each kind.
pub open spec fn int_error_text(k: IntErrorKind) -> Seq<char> {
    match k {
        IntErrorKind::Empty => "cannot parse integer from empty string"@,
        IntErrorKind::InvalidDigit => "invalid digit found in string"@,
        IntErrorKind::PosOverflow => "number too large to fit in target type"@,
    }
}

fn int_error_str(k: IntErrorKind) -> (r: &'static str)
    ensures
        r@ == int_error_text(k),
{
    match k {
        IntErrorKind::Empty => "cannot parse integer from empty string",
        IntErrorKind::InvalidDigit => "invalid digit found in string",
        IntErrorKind::PosOverflow => "number too large to fit in target type",
    }
}

/// The text that describes an error.
pub open spec fn message_of(e: PassrsError) -> Seq<char> {
    match e {
        PassrsError::NoPrivateKeyFound => in_red("No private key found"@),
        PassrsError::NoMatchesFound(s) => in_red("No matches found for '"@ + s@ + "'"@),
        PassrsError::SecretsDontMatch => in_red("The entered secrets do not match."@),
        PassrsError::HashMismatch => in_red("Hashes don't match"@),
        PassrsError::UserAbort => in_red("User aborted"@),
        PassrsError::InvalidKeyUri => in_red("URI was not in valid Key Uri Format."@) + "\nSee https://github.com/google/google-authenticator/wiki/Key-Uri-Format for more information."@,
        PassrsError::InvalidHashAlgorithm(s) => in_red("Invalid hash function: '"@ + s@ + "'"@),
        PassrsError::NoUriFound(s) => in_red("No URIs found in entry '"@ + s@ + "'"@),
        PassrsError::NoSigningKeyFound => in_red("No signing key found"@),
        PassrsError::PathDoesntExist(s) => in_red("Path '"@ + s@ + "' does not exist"@),
        PassrsError::SneakyPath(s) => in_red("Sneaky path '"@ + s@ + "'"@),
        PassrsError::StoreDoesntExist => in_red("Store does not exist"@) + "\nYou must run `pass init gpg-id` before you can use the password store"@,
        PassrsError::NotInStore(s) => in_red("'"@ + s@ + "' is not in the password store"@),
        PassrsError::SourceIsDestination => in_red("Source is destination"@),
        PassrsError::PathIsDir(s) => in_red("'"@ + s@ + "' is a directory"@),
        PassrsError::PasteFailed => in_red("Failed to get contents of clipboard"@),
        PassrsError::NoGpgIdFile(s) => in_red("No `.gpg-id` was found in '"@ + s@ + "'"@),
        PassrsError::ClipFailed => in_red("Failed to set contents of clipboard"@),
        PassrsError::StdoutNotTty => in_red("stdout was not a tty"@),
        PassrsError::Other(s) => in_red(s@),
        PassrsError::ContentsUnchanged => "Contents unchanged"@,
        PassrsError::UriMismatch => "Failed to get regex captures"@,
        PassrsError::InvalidNumber(k) => int_error_text(k),
        PassrsError::RandomFailed => "failed to generate random array"@,
        PassrsError::InvalidUtf8 { valid_up_to, error_len } => match error_len {
            Some(n) => "invalid utf-8 sequence of "@ + decimal(n as nat) + " bytes from index "@ + decimal(
                valid_up_to as nat,
            ),
            None => "incomplete utf-8 byte sequence from index "@ + decimal(valid_up_to as nat),
        },
        PassrsError::Plain(s) => s@,
    }
}

fn red_error(t: &str) -> (r: String)
    ensures
        r@ == in_red(t@),
{
    let mut out = fg_red();
    push_str(&mut out, "Error: ");
    push_str(&mut out, t);
    let z = reset();
    push_str(&mut out, z.as_str());
    out
}

impl PassrsError {
    /// The text that describes this error, as the store prints it.
    pub fn message(&self) -> (r: String)
        ensures
            r@ == message_of(*self),
    {
        match self {
            PassrsError::NoPrivateKeyFound => {
                let mut t = String::new();
                push_str(&mut t, "No private key found");
                let mut out = red_error(t.as_str());
                out
            },
            PassrsError::NoMatchesFound(s) => {
                let mut t = String::new();
                push_str(&mut t, "No matches found for '");
                push_str(&mut t, s.as_str());
                push_str(&mut t, "'");
                let mut out = red_error(t.as_str());
                out
            },
            PassrsError::SecretsDontMatch => {
                let mut t = String::new();
                push_str(&mut t, "The entered secrets do not match.");
                let mut out = red_error(t.as_str());
                out
            },
            PassrsError::HashMismatch => {
                let mut t = String::new();
                push_str(&mut t, "Hashes don't match");
                let mut out = red_error(t.as_str());
                out
            },
            PassrsError::UserAbort => {
                let mut t = String::new();
                push_str(&mut t, "User aborted");
                let mut out = red_error(t.as_str());
                out
            },
            PassrsError::InvalidKeyUri => {
                let mut t = String::new();
                push_str(&mut t, "URI was not in valid Key Uri Format.");
                let mut out = red_error(t.as_str());
                push_str(&mut out, "\nSee https://github.com/google/google-authenticator/wiki/Key-Uri-Format for more information.");
                out
            },
            PassrsError::InvalidHashAlgorithm(s) => {
                let mut t = String::new();
                push_str(&mut t, "Invalid hash function: '");
                push_str(&mut t, s.as_str());
                push_str(&mut t, "'");
                let mut out = red_error(t.as_str());
                out
            },
            PassrsError::NoUriFound(s) => {
                let mut t = String::new();
                push_str(&mut t, "No URIs found in entry '");
                push_str(&mut t, s.as_str());
                push_str(&mut t, "'");
                let mut out = red_error(t.as_str());
                out
            },
            PassrsError::NoSigningKeyFound => {
                let mut t = String::new();
                push_str(&mut t, "No signing key found");
                let mut out = red_error(t.as_str());
                out
            },
            PassrsError::PathDoesntExist(s) => {
                let mut t = String::new();
                push_str(&mut t, "Path '");
                push_str(&mut t, s.as_str());
                push_str(&mut t, "' does not exist");
                let mut out = red_error(t.as_str());
                out
            },
            PassrsError::SneakyPath(s) => {
                let mut t = String::new();
                push_str(&mut t, "Sneaky path '");
                push_str(&mut t, s.as_str());
                push_str(&mut t, "'");
                let mut out = red_error(t.as_str());
                out
            },
            PassrsError::StoreDoesntExist => {
                let mut t = String::new();
                push_str(&mut t, "Store does not exist");
                let mut out = red_error(t.as_str());
                push_str(&mut out, "\nYou must run `pass init gpg-id` before you can use the password store");
                out
            },
            PassrsError::NotInStore(s) => {
                let mut t = String::new();
                push_str(&mut t, "'");
                push_str(&mut t, s.as_str());
                push_str(&mut t, "' is not in the password store");
                let mut out = red_error(t.as_str());
                out
            },
            PassrsError::SourceIsDestination => {
                let mut t = String::new();
                push_str(&mut t, "Source is destination");
                let mut out = red_error(t.as_str());
                out
            },
            PassrsError::PathIsDir(s) => {
                let mut t = String::new();
                push_str(&mut t, "'");
                push_str(&mut t, s.as_str());
                push_str(&mut t, "' is a directory");
                let mut out = red_error(t.as_str());
                out
            },
            PassrsError::PasteFailed => {
                let mut t = String::new();
                push_str(&mut t, "Failed to get contents of clipboard");
                let mut out = red_error(t.as_str());
                out
            },
            PassrsError::NoGpgIdFile(s) => {
                let mut t = String::new();
                push_str(&mut t, "No `.gpg-id` was found in '");
                push_str(&mut t, s.as_str());
                push_str(&mut t, "'");
                let mut out = red_error(t.as_str());
                out
            },
            PassrsError::ClipFailed => {
                let mut t = String::new();
                push_str(&mut t, "Failed to set contents of clipboard");
                let mut out = red_error(t.as_str());
                out
            },
            PassrsError::StdoutNotTty => {
                let mut t = String::new();
                push_str(&mut t, "stdout was not a tty");
                let mut out = red_error(t.as_str());
                out
            },
            PassrsError::Other(s) => {
                let mut t = String::new();
                push_str(&mut t, s.as_str());
                let mut out = red_error(t.as_str());
                out
            },
            PassrsError::ContentsUnchanged => {
                let mut out = String::new();
                push_str(&mut out, "Contents unchanged");
                out
            },
            PassrsError::UriMismatch => {
                let mut out = String::new();
                push_str(&mut out, "Failed to get regex captures");
                out
            },
            PassrsError::InvalidNumber(k) => {
                let mut out = String::new();
                push_str(&mut out, int_error_str(*k));
                out
            },
            PassrsError::RandomFailed => {
                let mut out = String::new();
                push_str(&mut out, "failed to generate random array");
                out
            },
            PassrsError::InvalidUtf8 { valid_up_to, error_len } => {
                let mut out = String::new();
                let at = format_decimal(*valid_up_to as u64);
                match error_len {
                    Some(n) => {
                        push_str(&mut out, "invalid utf-8 sequence of ");
                        let len = format_decimal(*n as u64);
                        push_str(&mut out, len.as_str());
                        push_str(&mut out, " bytes from index ");
                        push_str(&mut out, at.as_str());
                    },
                    None => {
                        push_str(&mut out, "incomplete utf-8 byte sequence from index ");
                        push_str(&mut out, at.as_str());
                    },
                }
                out
            },
            PassrsError::Plain(s) => s.clone(),
        }
    }
}

impl From<String> for PassrsError {
    /// A failure described by text alone is `Other`.
    fn from(error: String) -> (r: PassrsError) {
        PassrsError::Other(error)
    }
}

impl vstd::std_specs::convert::FromSpecImpl<String> for PassrsError {
    open spec fn obeys_from_spec() -> bool {
        true
    }

    open spec fn from_spec(v: String) -> PassrsError {
        PassrsError::Other(v)
    }
}

} // verus!
