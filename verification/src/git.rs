//! What a commit to the store's repository reports, and how paths of the
//! store are named to git.
use crate::error::PassrsError;
use crate::text::{chars_eq, chars_of, digit_char, push_str, string_of, sub_chars};
use vstd::prelude::*;

verus! {

/// The octal spelling of `n`, as `format!("{:o}", n)` writes it.
pub open spec fn octal(n: nat) -> Seq<char>
    decreases n,
{
    if n < 8 {
        seq![digit_char(n)]
    } else {
        octal(n / 8).push(digit_char(n % 8))
    }
}

/// The octal spelling of `n`.
pub fn format_octal(n: u32) -> (s: String)
    ensures
        s@ == octal(n as nat),
{
    let mut digits: Vec<char> = Vec::new();
    let mut rest: u32 = n;
    let ghost mut suffix: Seq<char> = Seq::empty();
    while rest >= 8
        invariant
            octal(n as nat) == octal(rest as nat) + suffix,
            digits@ == suffix,
        decreases rest,
    {
        let d = rest % 8;
        let c = ((d as u8) + 48) as char;
        assert(c == digit_char((rest % 8) as nat));
        proof {
            assert(octal(rest as nat) == octal((rest / 8) as nat).push(c));
            assert(octal(n as nat) =~= octal((rest / 8) as nat) + (seq![c] + suffix));
        }
        digits.insert(0, c);
        proof {
            suffix = seq![c] + suffix;
            assert(digits@ =~= suffix);
        }
        rest = rest / 8;
    }
    let c = ((rest as u8) + 48) as char;
    assert(c == digit_char(rest as nat));
    digits.insert(0, c);
    proof {
        assert(octal(n as nat) =~= seq![c] + suffix);
        suffix = seq![c] + suffix;
        assert(digits@ =~= suffix);
    }
    string_of(digits.as_slice())
}

/// How a change staged in the index is named in the report of a commit: the
/// first that applies of a new, a deleted, a renamed and a modified file;
/// other changes are not reported.
pub open spec fn status_label_spec(new: bool, deleted: bool, renamed: bool, modified: bool) -> Option<Seq<char>> {
    if new {
        Some("create"@)
    } else if deleted {
        Some("delete"@)
    } else if renamed {
        Some("rename"@)
    } else if modified {
        Some("rewrite"@)
    } else {
        None
    }
}

/// The name of a staged change, from its `INDEX_NEW`, `INDEX_DELETED`,
/// `INDEX_RENAMED` and `INDEX_MODIFIED` flags.
pub fn status_label(new: bool, deleted: bool, renamed: bool, modified: bool) -> (r: Option<&'static str>)
    ensures
        match status_label_spec(new, deleted, renamed, modified) {
            Some(l) => r matches Some(s) && s@ == l,
            None => r is None,
        },
{
    if new {
        Some("create")
    } else if deleted {
        Some("delete")
    } else if renamed {
        Some("rename")
    } else if modified {
        Some("rewrite")
    } else {
        None
    }
}

/// The first `n` characters of `s` (all of it where it is shorter).
pub open spec fn truncated(s: Seq<char>, n: nat) -> Seq<char> {
    if s.len() <= n {
        s
    } else {
        s.take(n as int)
    }
}

/// The line that reports a commit: `[branch abbreviated-id] message`.
pub fn commit_summary(branch: &str, commit: &str, message: &str) -> (r: String)
    ensures
        r@ == "["@ + branch@ + " "@ + truncated(commit@, 7) + "] "@ + message@,
{
    let mut m = "[".to_owned();
    push_str(&mut m, branch);
    push_str(&mut m, " ");
    let cc = chars_of(commit);
    let end = if cc.len() <= 7 {
        cc.len()
    } else {
        7
    };
    let short = sub_chars(cc.as_slice(), 0, end);
    let s = string_of(short.as_slice());
    assert(short@ =~= truncated(commit@, 7));
    push_str(&mut m, s.as_str());
    push_str(&mut m, "] ");
    push_str(&mut m, message);
    m
}

/// The branch a commit goes to: the short name of `HEAD`, or `master`.
pub fn branch_name(shorthand: Option<&str>) -> (r: String)
    ensures
        shorthand matches Some(s) ==> r@ == s@,
        shorthand is None ==> r@ == "master"@,
{
    match shorthand {
        Some(s) => s.to_owned(),
        None => "master".to_owned(),
    }
}

/// The line that reports a staged change labelled `label`: a change of path
/// as `old => new (100%)`, a rewrite as `old (100%)`, anything else with the
/// file's mode in octal (`100644` where the tree does not name the file) and
/// its path.
pub open spec fn status_line_spec(label: Seq<char>, old: Option<Seq<char>>, new: Option<Seq<char>>, mode: Option<u32>) -> Option<Seq<char>> {
    match (old, new) {
        (Some(o), Some(n)) if o != n => Some(" "@ + label + " "@ + o + " => "@ + n + " (100%)"@),
        (Some(o), Some(_)) if label == "rewrite"@ => Some(" "@ + label + " "@ + o + " (100%)"@),
        _ => match (if old is Some { old } else { new }) {
            Some(p) => Some(" "@ + label + " mode "@ + octal(
                match mode {
                    Some(m) => m as nat,
                    None => 0o100644,
                },
            ) + " "@ + p),
            None => None,
        },
    }
}

/// The line that reports a staged change, or the error that it names no path.
pub fn status_line(label: &str, old: Option<&str>, new: Option<&str>, mode: Option<u32>) -> (r: Result<String, PassrsError>)
    ensures
        ({
            let o = match old {
                Some(s) => Some(s@),
                None => None,
            };
            let n = match new {
                Some(s) => Some(s@),
                None => None,
            };
            match status_line_spec(label@, o, n, mode) {
                Some(l) => r matches Ok(s) && s@ == l,
                None => r matches Err(PassrsError::Plain(m)) && m@ == "neither old nor new were valid paths"@,
            }
        }),
{
    let lc = chars_of(label);
    let rewrite = chars_of("rewrite");
    match (old, new) {
        (Some(o), Some(n)) => {
            let oc = chars_of(o);
            let nc = chars_of(n);
            if !chars_eq(oc.as_slice(), nc.as_slice()) {
                let mut m = " ".to_owned();
                push_str(&mut m, label);
                push_str(&mut m, " ");
                push_str(&mut m, o);
                push_str(&mut m, " => ");
                push_str(&mut m, n);
                push_str(&mut m, " (100%)");
                return Ok(m);
            }
            if chars_eq(lc.as_slice(), rewrite.as_slice()) {
                let mut m = " ".to_owned();
                push_str(&mut m, label);
                push_str(&mut m, " ");
                push_str(&mut m, o);
                push_str(&mut m, " (100%)");
                return Ok(m);
            }
        },
        _ => {},
    }
    let path = match old {
        Some(o) => o,
        None => match new {
            Some(n) => n,
            None => {
                return Err(PassrsError::Plain("neither old nor new were valid paths".to_owned()));
            },
        },
    };
    let m_value: u32 = match mode {
        Some(m) => m,
        None => 0o100644,
    };
    let mut m = " ".to_owned();
    push_str(&mut m, label);
    push_str(&mut m, " mode ");
    let oct = format_octal(m_value);
    push_str(&mut m, oct.as_str());
    push_str(&mut m, " ");
    push_str(&mut m, path);
    Ok(m)
}

} // verus!
