//! The background process that clears the clipboard.
use crate::digest::{content_hash, fingerprint, utf8_error_at, utf8_text};
use crate::error::PassrsError;
use crate::text::{chars_eq, chars_of, contains_chars, seq_contains};
use vstd::prelude::*;
use vstd::utf8::valid_utf8;

verus! {

/// Whether the clipboard may be cleared: the pasted bytes must be text, and
/// their fingerprint must be the one recorded when they were copied unless
/// the clearing is forced.
pub fn unclip_verdict(expected: &str, pasted: &[u8], force: bool) -> (r: Result<(), PassrsError>)
    requires
        pasted@.len() < 0x2000_0000_0000_0000,
    ensures
        !valid_utf8(pasted@) ==> r == Err::<(), PassrsError>(
            PassrsError::InvalidUtf8 { valid_up_to: utf8_error_at(pasted@).0, error_len: utf8_error_at(pasted@).1 },
        ),
        valid_utf8(pasted@) ==> (r is Ok <==> (fingerprint(pasted@) == expected@ || force)),
        valid_utf8(pasted@) && r is Err ==> r == Err::<(), PassrsError>(PassrsError::HashMismatch),
{
    match utf8_text(pasted) {
        Err(e) => Err(e),
        Ok(_) => {
            let hash = content_hash(pasted);
            let hc = chars_of(hash.as_str());
            let ec = chars_of(expected);
            if chars_eq(hc.as_slice(), ec.as_slice()) || force {
                Ok(())
            } else {
                Err(PassrsError::HashMismatch)
            }
        },
    }
}

/// A process is an earlier clearing process to stop: it runs the same
/// program, is not this process, and was started with `unclip` on its
/// command line.
pub open spec fn stale_unclip(same_exe: bool, pid: u32, own_pid: u32, cmdline: Option<Seq<char>>) -> bool {
    same_exe && pid != own_pid && (cmdline matches Some(c) && seq_contains(c, "unclip"@))
}

/// Whether a running process is an earlier clearing process to stop.
pub fn is_stale_unclip(same_exe: bool, pid: u32, own_pid: u32, cmdline: Option<&str>) -> (r: bool)
    ensures
        r == stale_unclip(
            same_exe,
            pid,
            own_pid,
            match cmdline {
                Some(c) => Some(c@),
                None => None,
            },
        ),
{
    if !same_exe || pid == own_pid {
        return false;
    }
    match cmdline {
        Some(c) => {
            let cc = chars_of(c);
            let word = chars_of("unclip");
            contains_chars(cc.as_slice(), word.as_slice())
        },
        None => false,
    }
}

} // verus!
