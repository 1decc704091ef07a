//! The clipboard: which program sets, reads and clears it, with which
//! arguments, and the background process that clears it again.
use crate::error::PassrsError;
use crate::text::{chars_eq, chars_of, push_str};
use vstd::prelude::*;

verus! {

/// The programs that reach the clipboard.
#[derive(Debug, Clone, Copy, PartialEq, Eq, Structural)]
pub enum ClipTool {
    /// `wl-copy` and `wl-paste`, on Wayland.
    Wayland,
    /// `xclip`, on X11.
    X11,
}

/// The clipboard program for a session: Wayland where `WAYLAND_DISPLAY` is
/// set, else X11 where `DISPLAY` is set, else none.
pub open spec fn tool_for(wayland: bool, x11: bool) -> Option<ClipTool> {
    if wayland {
        Some(ClipTool::Wayland)
    } else if x11 {
        Some(ClipTool::X11)
    } else {
        None
    }
}

/// The clipboard program for a session, given whether `WAYLAND_DISPLAY` and
/// `DISPLAY` are set.
pub fn clip_tool(wayland: bool, x11: bool) -> (r: Option<ClipTool>)
    ensures
        r == tool_for(wayland, x11),
{
    if wayland {
        Some(ClipTool::Wayland)
    } else if x11 {
        Some(ClipTool::X11)
    } else {
        None
    }
}

/// The X selection to use: `PASSWORD_STORE_X_SELECTION` where it names the
/// primary or secondary selection (`p`, `primary`, `sec`, `secondary`), else
/// `clipboard`.
pub open spec fn x_selection_spec(configured: Option<Seq<char>>) -> Seq<char> {
    match configured {
        Some(s) => if s == "p"@ || s == "primary"@ || s == "sec"@ || s == "secondary"@ {
            s
        } else {
            "clipboard"@
        },
        None => "clipboard"@,
    }
}

fn is_word(s: &[char], w: &str) -> (r: bool)
    ensures
        r == (s@ == w@),
{
    let wc = chars_of(w);
    chars_eq(s, wc.as_slice())
}

/// The X selection to use, from `PASSWORD_STORE_X_SELECTION`.
pub fn x_selection(configured: Option<&str>) -> (r: String)
    ensures
        r@ == x_selection_spec(
            match configured {
                Some(s) => Some(s@),
                None => None,
            },
        ),
{
    match configured {
        Some(s) => {
            let cs = chars_of(s);
            if is_word(cs.as_slice(), "p") || is_word(cs.as_slice(), "primary") || is_word(cs.as_slice(), "sec")
                || is_word(cs.as_slice(), "secondary") {
                s.to_owned()
            } else {
                "clipboard".to_owned()
            }
        },
        None => "clipboard".to_owned(),
    }
}

/// The views of a list of arguments.
pub open spec fn args_of(v: Seq<String>) -> Seq<Seq<char>> {
    v.map_values(|s: String| s@)
}

fn strings(words: &[&str]) -> (r: Vec<String>)
    ensures
        r@.len() == words@.len(),
        forall|i: int| 0 <= i < words@.len() ==> (#[trigger] r@[i])@ == words@[i]@,
{
    let mut r: Vec<String> = Vec::new();
    let mut i: usize = 0;
    while i < words.len()
        invariant
            i <= words@.len(),
            r@.len() == i,
            forall|k: int| 0 <= k < i ==> (#[trigger] r@[k])@ == words@[k]@,
        decreases words.len() - i,
    {
        r.push(words[i].to_owned());
        i += 1;
    }
    r
}

/// The program and arguments that put text (given on its input) on the
/// clipboard.
pub fn copy_command(tool: ClipTool, selection: &str) -> (r: (String, Vec<String>))
    ensures
        tool is Wayland ==> r.0@ == "wl-copy"@ && args_of(r.1@) == seq!["--trim-newline"@],
        tool is X11 ==> r.0@ == "xclip"@ && args_of(r.1@) == seq!["-in"@, "-selection"@, selection@],
{
    match tool {
        ClipTool::Wayland => {
            let a = strings(&["--trim-newline"]);
            assert(args_of(a@) =~= seq!["--trim-newline"@]);
            ("wl-copy".to_owned(), a)
        },
        ClipTool::X11 => {
            let a = strings(&["-in", "-selection", selection]);
            assert(args_of(a@) =~= seq!["-in"@, "-selection"@, selection@]);
            ("xclip".to_owned(), a)
        },
    }
}

/// The program and arguments that print the clipboard.
pub fn paste_command(tool: ClipTool, selection: &str) -> (r: (String, Vec<String>))
    ensures
        tool is Wayland ==> r.0@ == "wl-paste"@ && args_of(r.1@) == seq!["--no-newline"@],
        tool is X11 ==> r.0@ == "xclip"@ && args_of(r.1@) == seq!["-out"@, "-selection"@, selection@],
{
    match tool {
        ClipTool::Wayland => {
            let a = strings(&["--no-newline"]);
            assert(args_of(a@) =~= seq!["--no-newline"@]);
            ("wl-paste".to_owned(), a)
        },
        ClipTool::X11 => {
            let a = strings(&["-out", "-selection", selection]);
            assert(args_of(a@) =~= seq!["-out"@, "-selection"@, selection@]);
            ("xclip".to_owned(), a)
        },
    }
}

/// The program and arguments that clear the clipboard (`xclip` clears it by
/// copying nothing).
pub fn clear_command(tool: ClipTool, selection: &str) -> (r: (String, Vec<String>))
    ensures
        tool is Wayland ==> r.0@ == "wl-copy"@ && args_of(r.1@) == seq!["--clear"@],
        tool is X11 ==> r.0@ == "xclip"@ && args_of(r.1@) == seq!["-in"@, "-selection"@, selection@],
{
    match tool {
        ClipTool::Wayland => {
            let a = strings(&["--clear"]);
            assert(args_of(a@) =~= seq!["--clear"@]);
            ("wl-copy".to_owned(), a)
        },
        ClipTool::X11 => copy_command(tool, selection),
    }
}

/// Copying needs a clipboard program; without one it fails.
pub fn copy_tool(wayland: bool, x11: bool) -> (r: Result<ClipTool, PassrsError>)
    ensures
        tool_for(wayland, x11) matches Some(t) ==> r == Ok::<ClipTool, PassrsError>(t),
        tool_for(wayland, x11) is None ==> r == Err::<ClipTool, PassrsError>(PassrsError::ClipFailed),
{
    match clip_tool(wayland, x11) {
        Some(t) => Ok(t),
        None => Err(PassrsError::ClipFailed),
    }
}

/// Pasting needs a clipboard program; without one it fails.
pub fn paste_tool(wayland: bool, x11: bool) -> (r: Result<ClipTool, PassrsError>)
    ensures
        tool_for(wayland, x11) matches Some(t) ==> r == Ok::<ClipTool, PassrsError>(t),
        tool_for(wayland, x11) is None ==> r == Err::<ClipTool, PassrsError>(PassrsError::PasteFailed),
{
    match clip_tool(wayland, x11) {
        Some(t) => Ok(t),
        None => Err(PassrsError::PasteFailed),
    }
}

/// The arguments of the background process that clears the clipboard after
/// `clip_time` seconds: `unclip`, the time, and `--force` or `--`.
pub fn unclip_args(clip_time: &str, force: bool) -> (r: Vec<String>)
    ensures
        args_of(r@) == seq!["unclip"@, clip_time@, if force { "--force"@ } else { "--"@ }],
{
    let last = if force {
        "--force"
    } else {
        "--"
    };
    let a = strings(&["unclip", clip_time, last]);
    assert(args_of(a@) =~= seq!["unclip"@, clip_time@, if force { "--force"@ } else { "--"@ }]);
    a
}

} // verus!
