//! Moving and copying entries: where they go, and the commit messages.
use crate::error::PassrsError;
use crate::paths::{exact_path, is_sneaky, store_path};
use crate::text::{chars_of, push_str, string_of, sub_chars};
use crate::tree::last_slash;
use vstd::prelude::*;

verus! {

/// What a move into a folder keeps of the source's name: the source from its
/// last `'/'` on (all of it where it has none).
pub open spec fn moved_name(source: Seq<char>) -> Seq<char> {
    if last_slash(source) >= 0 {
        source.subrange(last_slash(source), source.len() as int)
    } else {
        source
    }
}

fn moved_name_exec(source: &str) -> (r: String)
    ensures
        r@ == moved_name(source@),
{
    let cs = chars_of(source);
    let mut i: usize = cs.len();
    assert(cs@.take(i as int) =~= cs@);
    while i > 0
        invariant
            i <= cs@.len(),
            cs@ == source@,
            last_slash(cs@) == last_slash(cs@.take(i as int)),
        ensures
            i == 0 || cs@[i - 1] == '/',
        decreases i,
    {
        assert(cs@.take(i as int).drop_last() =~= cs@.take(i - 1));
        if cs[i - 1] == '/' {
            break;
        }
        i -= 1;
    }
    if i == 0 {
        assert(cs@.take(0).len() == 0);
        source.to_owned()
    } else {
        let piece = sub_chars(cs.as_slice(), i - 1, cs.len());
        string_of(piece.as_slice())
    }
}

/// `p` ends with `'/'`.
pub open spec fn slash_ended(p: Seq<char>) -> bool {
    p.len() > 0 && p.last() == '/'
}

/// The name a moved entry gets, before it is placed in the store: a file keeps
/// its name (and gets `.gpg`) when the destination is a folder (ends with
/// `'/'`), else takes the destination with `.gpg`; a folder takes the
/// destination as it is.
pub open spec fn mv_target(source: Seq<char>, dest: Seq<char>, is_file: bool) -> Seq<char> {
    if is_file {
        if slash_ended(dest) {
            dest + moved_name(source) + ".gpg"@
        } else {
            dest + ".gpg"@
        }
    } else {
        dest
    }
}

/// Where a moved entry goes in the store, and whether it goes into a folder
/// named by `dest`; refused where that could reach outside the store.
pub fn mv_destination(source: &str, dest: &str, is_file: bool, home: &str, store: &str) -> (r: Result<(String, bool), PassrsError>)
    ensures
        ({
            let target = store_path(mv_target(source@, dest@, is_file), home@, store@);
            &&& r is Ok <==> !is_sneaky(target)
            &&& r matches Ok(d) ==> d.0@ == target && d.1 == (is_file && slash_ended(dest@))
            &&& r is Err ==> (r matches Err(PassrsError::SneakyPath(p)) && p@ == target)
        }),
{
    let dc = chars_of(dest);
    let into_dir = is_file && dc.len() > 0 && dc[dc.len() - 1] == '/';
    let mut target = dest.to_owned();
    if is_file {
        if into_dir {
            let name = moved_name_exec(source);
            push_str(&mut target, name.as_str());
        }
        push_str(&mut target, ".gpg");
    }
    match exact_path(target.as_str(), home, store) {
        Ok(p) => Ok((p, into_dir)),
        Err(e) => Err(e),
    }
}

/// The commit message of a move: into a folder it names the moved name after
/// the folder (without its final `'/'`).
pub open spec fn mv_message_spec(source: Seq<char>, dest: Seq<char>, into_dir: bool) -> Seq<char> {
    if into_dir && dest.len() > 0 {
        "Rename "@ + source + " to "@ + dest.drop_last() + moved_name(source)
    } else if into_dir {
        "Rename "@ + source + " to "@ + moved_name(source)
    } else {
        "Rename "@ + source + " to "@ + dest
    }
}

/// The commit message of moving `source` to `dest`.
pub fn mv_commit_message(source: &str, dest: &str, into_dir: bool) -> (r: String)
    ensures
        r@ == mv_message_spec(source@, dest@, into_dir),
{
    let mut m = "Rename ".to_owned();
    push_str(&mut m, source);
    push_str(&mut m, " to ");
    if into_dir {
        let dc = chars_of(dest);
        if dc.len() > 0 {
            let kept = sub_chars(dc.as_slice(), 0, dc.len() - 1);
            let d = string_of(kept.as_slice());
            assert(kept@ =~= dest@.drop_last());
            push_str(&mut m, d.as_str());
        }
        let name = moved_name_exec(source);
        push_str(&mut m, name.as_str());
    } else {
        push_str(&mut m, dest);
    }
    m
}

/// Where a copied entry goes in the store: a file takes the destination with
/// `.gpg`, a folder the destination as it is.
pub fn cp_destination(dest: &str, is_file: bool, home: &str, store: &str) -> (r: Result<String, PassrsError>)
    ensures
        ({
            let target = store_path(if is_file { dest@ + ".gpg"@ } else { dest@ }, home@, store@);
            &&& r is Ok <==> !is_sneaky(target)
            &&& r matches Ok(d) ==> d@ == target
            &&& r is Err ==> (r matches Err(PassrsError::SneakyPath(p)) && p@ == target)
        }),
{
    let mut target = dest.to_owned();
    if is_file {
        push_str(&mut target, ".gpg");
    }
    exact_path(target.as_str(), home, store)
}

/// The commit message of copying `source` to `dest`.
pub fn cp_commit_message(source: &str, dest: &str) -> (r: String)
    ensures
        r@ == "Copy "@ + source@ + " to "@ + dest@,
{
    let mut m = "Copy ".to_owned();
    push_str(&mut m, source);
    push_str(&mut m, " to ");
    push_str(&mut m, dest);
    m
}

/// What removing an entry does.
#[derive(Debug, Clone, Copy, PartialEq, Eq, Structural)]
pub enum Removal {
    /// Remove the folder and all in it.
    Folder,
    /// Remove the file.
    Entry,
}

/// What removing the entry at `path` does, from what the file system says of
/// it (`Some(is_dir)` where it exists): a folder goes only with `recursive`.
pub fn rm_action(existing: Option<bool>, recursive: bool, path: &str) -> (r: Result<Removal, PassrsError>)
    ensures
        existing == Some(true) && recursive ==> r == Ok::<Removal, PassrsError>(Removal::Folder),
        existing == Some(true) && !recursive ==> (r matches Err(PassrsError::PathIsDir(p)) && p@ == path@),
        existing == Some(false) ==> r == Ok::<Removal, PassrsError>(Removal::Entry),
        existing is None ==> (r matches Err(PassrsError::PathDoesntExist(p)) && p@ == path@),
{
    match existing {
        Some(true) => {
            if recursive {
                Ok(Removal::Folder)
            } else {
                Err(PassrsError::PathIsDir(path.to_owned()))
            }
        },
        Some(false) => Ok(Removal::Entry),
        None => Err(PassrsError::PathDoesntExist(path.to_owned())),
    }
}

/// The commit message of a removal of `name`.
pub fn rm_commit_message(name: &str, removal: Removal) -> (r: String)
    ensures
        removal is Folder ==> r@ == "Remove folder "@ + name@ + " from store"@,
        removal is Entry ==> r@ == "Remove entry "@ + name@ + " from store"@,
{
    let mut m = match removal {
        Removal::Folder => "Remove folder ".to_owned(),
        Removal::Entry => "Remove entry ".to_owned(),
    };
    push_str(&mut m, name);
    push_str(&mut m, " from store");
    m
}

/// The question asked before `name` is deleted.
pub fn delete_prompt(name: &str) -> (r: String)
    ensures
        r@ == "Are you sure you would like to delete "@ + name@ + "?"@,
{
    let mut m = "Are you sure you would like to delete ".to_owned();
    push_str(&mut m, name);
    push_str(&mut m, "?");
    m
}

} // verus!
