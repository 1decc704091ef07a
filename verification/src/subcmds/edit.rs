//! Editing a secret in a temporary file.
use crate::digest::{content_hash, fingerprint};
use crate::error::PassrsError;
use crate::text::{chars_eq, chars_of, push_str};
use vstd::prelude::*;

verus! {

/// What editing came to: nothing entered is an abort, the same contents are
/// no change, anything else is saved.
pub fn edit_outcome(old: &[u8], new: &[u8]) -> (r: Result<(), PassrsError>)
    requires
        old@.len() < 0x2000_0000_0000_0000,
        new@.len() < 0x2000_0000_0000_0000,
    ensures
        new@.len() == 0 ==> r == Err::<(), PassrsError>(PassrsError::UserAbort),
        new@.len() > 0 && fingerprint(old@) == fingerprint(new@) ==> r == Err::<(), PassrsError>(
            PassrsError::ContentsUnchanged,
        ),
        new@.len() > 0 && fingerprint(old@) != fingerprint(new@) ==> r is Ok,
{
    let hash = content_hash(old);
    let new_hash = content_hash(new);
    if new.len() == 0 {
        return Err(PassrsError::UserAbort);
    }
    let a = chars_of(hash.as_str());
    let b = chars_of(new_hash.as_str());
    if chars_eq(a.as_slice(), b.as_slice()) {
        Err(PassrsError::ContentsUnchanged)
    } else {
        Ok(())
    }
}

/// `s` with every `'/'` replaced by `'-'`.
pub open spec fn dashed(s: Seq<char>) -> Seq<char> {
    s.map_values(|c: char| if c == '/' { '-' } else { c })
}

/// The temporary file that a secret is edited in:
/// `{dir}/{exe}.{folder}/{file}-{name}.txt`, the name with `'-'` for `'/'`.
pub open spec fn temp_path_spec(dir: Seq<char>, exe: Seq<char>, folder: Seq<char>, file: Seq<char>, name: Seq<char>) -> Seq<char> {
    dir + "/"@ + exe + "."@ + folder + "/"@ + file + "-"@ + dashed(name) + ".txt"@
}

/// The temporary file that the secret `name` is edited in, in the folder
/// `dir`, named after the program `exe` and the random parts `folder` and
/// `file`.
pub fn temp_file_path(dir: &str, exe: &str, folder: &str, file: &str, name: &str) -> (r: String)
    ensures
        r@ == temp_path_spec(dir@, exe@, folder@, file@, name@),
{
    let nc = chars_of(name);
    let mut dn = String::new();
    let mut i: usize = 0;
    while i < nc.len()
        invariant
            i <= nc@.len(),
            dn@ == dashed(nc@.take(i as int)),
        decreases nc.len() - i,
    {
        if nc[i] == '/' {
            dn.push('-');
        } else {
            dn.push(nc[i]);
        }
        assert(dashed(nc@.take(i + 1)) =~= dashed(nc@.take(i as int)).push(if nc@[i as int] == '/' {
            '-'
        } else {
            nc@[i as int]
        }));
        i += 1;
    }
    assert(nc@.take(nc.len() as int) =~= nc@);
    let mut out = dir.to_owned();
    push_str(&mut out, "/");
    push_str(&mut out, exe);
    push_str(&mut out, ".");
    push_str(&mut out, folder);
    push_str(&mut out, "/");
    push_str(&mut out, file);
    push_str(&mut out, "-");
    push_str(&mut out, dn.as_str());
    push_str(&mut out, ".txt");
    out
}

/// The editor to run: `EDITOR`, else `VISUAL`, else `/usr/bin/vi` (also in
/// place of an empty choice).
pub open spec fn editor_spec(editor: Option<Seq<char>>, visual: Option<Seq<char>>) -> Seq<char> {
    let chosen = match editor {
        Some(e) => e,
        None => match visual {
            Some(v) => v,
            None => "/usr/bin/vi"@,
        },
    };
    if chosen.len() == 0 {
        "/usr/bin/vi"@
    } else {
        chosen
    }
}

/// The editor to run, from `EDITOR` and `VISUAL`.
pub fn editor(configured: Option<&str>, visual: Option<&str>) -> (r: String)
    ensures
        r@ == editor_spec(
            match configured {
                Some(e) => Some(e@),
                None => None,
            },
            match visual {
                Some(v) => Some(v@),
                None => None,
            },
        ),
{
    let chosen = match configured {
        Some(e) => e.to_owned(),
        None => match visual {
            Some(v) => v.to_owned(),
            None => "/usr/bin/vi".to_owned(),
        },
    };
    let cs = chars_of(chosen.as_str());
    if cs.len() == 0 {
        "/usr/bin/vi".to_owned()
    } else {
        chosen
    }
}

/// The commit message of an edit.
pub fn edit_commit_message(name: &str, editor: &str) -> (r: String)
    ensures
        r@ == "Edit secret for "@ + name@ + " using "@ + editor@,
{
    let mut m = "Edit secret for ".to_owned();
    push_str(&mut m, name);
    push_str(&mut m, " using ");
    push_str(&mut m, editor);
    m
}

} // verus!
