//! Terminal colours and styles, as the escape sequences that `termion` writes.
use termion::{color, style};
use vstd::prelude::*;

verus! {

/// Writes `termion::color::Fg(color::Red)`; its `Display` writes the CSI
/// sequence for foreground colour 1 of the 256-colour palette.
#[verifier::external_body]
pub(crate) fn fg_red() -> (r: String)
    ensures
        r@ == "\u{1b}[38;5;1m"@,
{
    format!("{}", color::Fg(color::Red))
}

/// Writes `termion::color::Fg(color::Green)` (palette colour 2).
#[verifier::external_body]
pub(crate) fn fg_green() -> (r: String)
    ensures
        r@ == "\u{1b}[38;5;2m"@,
{
    format!("{}", color::Fg(color::Green))
}

/// Writes `termion::color::Fg(color::Yellow)` (palette colour 3).
#[verifier::external_body]
pub(crate) fn fg_yellow() -> (r: String)
    ensures
        r@ == "\u{1b}[38;5;3m"@,
{
    format!("{}", color::Fg(color::Yellow))
}

/// Writes `termion::color::Fg(color::Blue)` (palette colour 4).
#[verifier::external_body]
pub(crate) fn fg_blue() -> (r: String)
    ensures
        r@ == "\u{1b}[38;5;4m"@,
{
    format!("{}", color::Fg(color::Blue))
}

/// Writes `termion::style::Bold`, the CSI sequence `1m`.
#[verifier::external_body]
pub(crate) fn bold() -> (r: String)
    ensures
        r@ == "\u{1b}[1m"@,
{
    format!("{}", style::Bold)
}

/// Writes `termion::style::NoBold`, the CSI sequence `21m`.
#[verifier::external_body]
pub(crate) fn no_bold() -> (r: String)
    ensures
        r@ == "\u{1b}[21m"@,
{
    format!("{}", style::NoBold)
}

/// Writes `termion::style::Underline`, the CSI sequence `4m`.
#[verifier::external_body]
pub(crate) fn underline() -> (r: String)
    ensures
        r@ == "\u{1b}[4m"@,
{
    format!("{}", style::Underline)
}

/// Writes `termion::style::Reset`, the CSI sequence `m`.
#[verifier::external_body]
pub(crate) fn reset() -> (r: String)
    ensures
        r@ == "\u{1b}[m"@,
{
    format!("{}", style::Reset)
}

} // verus!
