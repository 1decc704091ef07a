//! Showing a secret, or copying one of its lines.
use crate::error::PassrsError;
use crate::style::{fg_yellow, reset};
use crate::text::{decimal, format_decimal, push_str};
use vstd::prelude::*;

verus! {

/// The line that `show --clip` copies: line `n` (counted from 1; 0 counts as
/// 1) where a line is asked for, else the first line.
pub fn line_to_clip(lines: &Vec<String>, clip: Option<usize>) -> (r: Result<String, PassrsError>)
    ensures
        clip matches Some(n) ==> {
            let k = if n > 0 { n - 1 } else { 0 };
            &&& k < lines@.len() ==> (r matches Ok(s) && s@ == lines@[k]@)
            &&& k >= lines@.len() ==> (r matches Err(PassrsError::Plain(m)) && m@ == "File at line "@
                + decimal(n as nat) + " was empty"@)
        },
        clip is None ==> {
            &&& lines@.len() > 0 ==> (r matches Ok(s) && s@ == lines@[0]@)
            &&& lines@.len() == 0 ==> (r matches Err(PassrsError::Plain(m)) && m@ == "Vec was empty"@)
        },
{
    match clip {
        Some(n) => {
            let k = n.saturating_sub(1);
            if k < lines.len() {
                Ok(lines[k].clone())
            } else {
                let mut m = "File at line ".to_owned();
                let d = format_decimal(n as u64);
                push_str(&mut m, d.as_str());
                push_str(&mut m, " was empty");
                Err(PassrsError::Plain(m))
            }
        },
        None => {
            if lines.len() > 0 {
                Ok(lines[0].clone())
            } else {
                Err(PassrsError::Plain("Vec was empty".to_owned()))
            }
        },
    }
}

/// `name` in yellow.
pub open spec fn yellow(name: Seq<char>) -> Seq<char> {
    "\u{1b}[38;5;3m"@ + name + "\u{1b}[m"@
}

fn yellow_text(name: &str) -> (r: String)
    ensures
        r@ == yellow(name@),
{
    let mut m = fg_yellow();
    push_str(&mut m, name);
    let z = reset();
    push_str(&mut m, z.as_str());
    m
}

/// What is printed after copying `what` (`name` in yellow) to the clipboard,
/// which is cleared after `clip_time` seconds.
pub open spec fn copied_spec(what: Seq<char>, name: Seq<char>, clip_time: Seq<char>) -> Seq<char> {
    "Copied "@ + what + yellow(name) + " to the clipboard, which will clear in "@ + clip_time + " seconds."@
}

/// The notice that the entry `name` was copied to the clipboard.
pub fn copied_message(name: &str, clip_time: &str) -> (r: String)
    ensures
        r@ == copied_spec(Seq::empty(), name@, clip_time@),
{
    let mut m = "Copied ".to_owned();
    let y = yellow_text(name);
    push_str(&mut m, y.as_str());
    push_str(&mut m, " to the clipboard, which will clear in ");
    push_str(&mut m, clip_time);
    push_str(&mut m, " seconds.");
    m
}

/// The notice that a code of the entry `name` was copied to the clipboard.
pub fn copied_token_message(name: &str, clip_time: &str) -> (r: String)
    ensures
        r@ == copied_spec("token for "@, name@, clip_time@),
{
    let mut m = "Copied ".to_owned();
    push_str(&mut m, "token for ");
    let y = yellow_text(name);
    push_str(&mut m, y.as_str());
    push_str(&mut m, " to the clipboard, which will clear in ");
    push_str(&mut m, clip_time);
    push_str(&mut m, " seconds.");
    m
}

/// The line above the contents of the entry `name`.
pub fn contents_header(name: &str) -> (r: String)
    ensures
        r@ == "Contents of "@ + yellow(name@),
{
    let mut m = "Contents of ".to_owned();
    let y = yellow_text(name);
    push_str(&mut m, y.as_str());
    m
}

} // verus!
