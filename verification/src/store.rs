//! Reading and writing the entries of the store: the lines of a decrypted
//! entry, what is written back, the keys an entry is encrypted for, and the
//! answers the user gives.
use crate::digest::{utf8_error_at, utf8_text};
use crate::error::PassrsError;
use crate::paths::{check_sneaky_paths, is_sneaky};
use crate::text::{chars_eq, chars_of, lower_char, push_str, string_of};
use vstd::prelude::*;
use vstd::utf8::{encode_utf8, valid_utf8};

verus! {

/// A line without the `'\r'` of a `"\r\n"` ending.
pub open spec fn strip_cr(line: Seq<char>) -> Seq<char> {
    if line.len() > 0 && line.last() == '\r' {
        line.drop_last()
    } else {
        line
    }
}

/// The lines of `s` from position `i` on, `current` being the part of a line
/// read before `i`: lines end at `'\n'` (with a `'\r'` before it dropped);
/// a last line needs no ending, and an empty text has no lines.
pub open spec fn lines_from(s: Seq<char>, i: int, current: Seq<char>) -> Seq<Seq<char>>
    decreases s.len() - i,
{
    if i >= s.len() {
        if current.len() > 0 {
            seq![current]
        } else {
            Seq::empty()
        }
    } else if s[i] == '\n' {
        seq![strip_cr(current)] + lines_from(s, i + 1, Seq::empty())
    } else {
        lines_from(s, i + 1, current.push(s[i]))
    }
}

/// The lines of `s`, as `str::lines` gives them.
pub open spec fn text_lines(s: Seq<char>) -> Seq<Seq<char>> {
    lines_from(s, 0, Seq::empty())
}

/// The lines of `s`.
pub fn lines(s: &str) -> (r: Vec<String>)
    ensures
        r@.map_values(|l: String| l@) == text_lines(s@),
{
    let cs = chars_of(s);
    let mut out: Vec<String> = Vec::new();
    let mut current: Vec<char> = Vec::new();
    let mut i: usize = 0;
    assert(out@.map_values(|l: String| l@) =~= Seq::<Seq<char>>::empty());
    assert(Seq::<Seq<char>>::empty() + lines_from(cs@, 0, current@) =~= text_lines(s@));
    while i < cs.len()
        invariant
            i <= cs@.len(),
            cs@ == s@,
            out@.map_values(|l: String| l@) + lines_from(cs@, i as int, current@) == text_lines(s@),
        decreases cs.len() - i,
    {
        let ghost before = out@.map_values(|l: String| l@);
        let ghost cur = current@;
        if cs[i] == '\n' {
            let n = current.len();
            let line = if n > 0 && current[n - 1] == '\r' {
                let kept = crate::text::sub_chars(current.as_slice(), 0, n - 1);
                assert(kept@ =~= cur.drop_last());
                string_of(kept.as_slice())
            } else {
                string_of(current.as_slice())
            };
            out.push(line);
            assert(out@.map_values(|l: String| l@) =~= before.push(strip_cr(cur)));
            current = Vec::new();
            assert(current@ =~= Seq::<char>::empty());
            assert(before.push(strip_cr(cur)) + lines_from(cs@, i + 1, Seq::empty()) =~= before + (seq![
                strip_cr(cur),
            ] + lines_from(cs@, i + 1, Seq::empty())));
        } else {
            current.push(cs[i]);
        }
        i += 1;
    }
    if current.len() > 0 {
        let ghost before = out@.map_values(|l: String| l@);
        let w = string_of(current.as_slice());
        out.push(w);
        assert(out@.map_values(|l: String| l@) =~= before.push(current@));
        assert(before + seq![current@] =~= before.push(current@));
    } else {
        assert(out@.map_values(|l: String| l@) + Seq::<Seq<char>>::empty() =~= out@.map_values(
            |l: String| l@,
        ));
    }
    out
}

/// An answer to a yes-or-no question counts as yes when it starts with `y` or
/// `Y`; no answer at all (end of input) counts as no.
pub open spec fn is_yes_spec(reply: Option<Seq<char>>) -> bool {
    reply matches Some(r) && r.len() > 0 && lower_char(r[0]) == 'y'
}

/// Whether an answer to a yes-or-no question counts as yes.
pub fn is_yes(reply: Option<&str>) -> (r: bool)
    ensures
        r == is_yes_spec(
            match reply {
                Some(s) => Some(s@),
                None => None,
            },
        ),
{
    match reply {
        Some(s) => {
            let cs = chars_of(s);
            cs.len() > 0 && (cs[0] == 'y' || cs[0] == 'Y')
        },
        None => false,
    }
}

/// A yes-or-no question as it is put: the question, then ` [y/N] `.
pub fn yes_no_prompt(prompt: &str) -> (r: String)
    ensures
        r@ == prompt@ + " [y/N] "@,
{
    let mut m = prompt.to_owned();
    push_str(&mut m, " [y/N] ");
    m
}

/// The secret entered without echo, twice: it counts where both entries
/// agree; end of input is an abort.
pub fn confirmed_secret(first: Option<String>, second: Option<String>) -> (r: Result<String, PassrsError>)
    ensures
        first is None ==> r == Err::<String, PassrsError>(PassrsError::UserAbort),
        first is Some && second is None ==> r == Err::<String, PassrsError>(PassrsError::UserAbort),
        first is Some && second is Some && first->0@ == second->0@ ==> (r matches Ok(s) && s@ == first->0@),
        first is Some && second is Some && first->0@ != second->0@ ==> r == Err::<String, PassrsError>(
            PassrsError::SecretsDontMatch,
        ),
{
    match first {
        None => Err(PassrsError::UserAbort),
        Some(a) => match second {
            None => Err(PassrsError::UserAbort),
            Some(b) => {
                let ac = chars_of(a.as_str());
                let bc = chars_of(b.as_str());
                if chars_eq(ac.as_slice(), bc.as_slice()) {
                    Ok(a)
                } else {
                    Err(PassrsError::SecretsDontMatch)
                }
            },
        },
    }
}

/// The secret entered with echo: one line; end of input is an abort.
pub fn echoed_secret(line: Option<String>) -> (r: Result<String, PassrsError>)
    ensures
        line is None ==> r == Err::<String, PassrsError>(PassrsError::UserAbort),
        line matches Some(l) ==> (r matches Ok(s) && s@ == l@),
{
    match line {
        Some(l) => Ok(l),
        None => Err(PassrsError::UserAbort),
    }
}

/// The question before a secret is entered.
pub fn secret_prompt(name: &str, again: bool) -> (r: String)
    ensures
        !again ==> r@ == "Enter secret for "@ + name@ + ": "@,
        again ==> r@ == "Re-enter secret for "@ + name@ + ": "@,
{
    let mut m = if again {
        "Re-enter secret for ".to_owned()
    } else {
        "Enter secret for ".to_owned()
    };
    push_str(&mut m, name);
    push_str(&mut m, ": ");
    m
}

/// The words before multi-line input.
pub fn multiline_prompt(name: &str) -> (r: String)
    ensures
        r@ == "Enter the contents of "@ + name@ + " and press Ctrl-D when finished:\n\n"@,
{
    let mut m = "Enter the contents of ".to_owned();
    push_str(&mut m, name);
    push_str(&mut m, " and press Ctrl-D when finished:\n\n");
    m
}

/// How an entry is written: its contents replaced, or new contents appended.
#[derive(Debug, Clone, Copy, PartialEq, Eq, Structural)]
pub enum EditMode {
    /// Overwrite the entry completely.
    Clobber,
    /// Append to the entry.
    Append,
}

/// What is encrypted into an entry written with `mode`: the new contents,
/// after the old ones (the decrypted `existing`) and a line break where they
/// are appended.
pub fn contents_to_encrypt(mode: EditMode, existing: &[u8], new: &[u8]) -> (r: Vec<u8>)
    ensures
        mode is Append ==> r@ == existing@ + seq![0x0au8] + new@,
        mode is Clobber ==> r@ == new@,
{
    let mut out: Vec<u8> = Vec::new();
    if mode == EditMode::Append {
        out = vstd::slice::slice_to_vec(existing);
        out.push(0x0a);
    }
    let ghost start = out@;
    let mut i: usize = 0;
    while i < new.len()
        invariant
            i <= new@.len(),
            out@ == start + new@.take(i as int),
        decreases new.len() - i,
    {
        out.push(new[i]);
        assert(start + new@.take(i as int).push(new@[i as int]) =~= start + new@.take(i + 1));
        i += 1;
    }
    assert(new@.take(new.len() as int) =~= new@);
    out
}

/// The keys an entry is encrypted for: those of the governing `.gpg-id`, one
/// a line, then those of `PASSWORD_STORE_KEY`.
pub fn encryption_keys(gpg_id_lines: Vec<String>, configured: Vec<String>) -> (r: Vec<String>)
    ensures
        r@ == gpg_id_lines@ + configured@,
{
    let mut keys = gpg_id_lines;
    let ghost start = keys@;
    let mut i: usize = 0;
    while i < configured.len()
        invariant
            i <= configured@.len(),
            keys@ == start + configured@.take(i as int),
        decreases configured.len() - i,
    {
        keys.push(configured[i].clone());
        assert(start + configured@.take(i as int).push(configured@[i as int]) =~= start + configured@.take(i + 1));
        i += 1;
    }
    assert(configured@.take(configured.len() as int) =~= configured@);
    keys
}

/// Encrypting needs at least one key that the keyring knows; recrypting too.
pub fn require_keys(found: usize, signing: bool) -> (r: Result<(), PassrsError>)
    ensures
        found > 0 ==> r is Ok,
        found == 0 && signing ==> r == Err::<(), PassrsError>(PassrsError::NoSigningKeyFound),
        found == 0 && !signing ==> r == Err::<(), PassrsError>(PassrsError::NoPrivateKeyFound),
{
    if found > 0 {
        Ok(())
    } else if signing {
        Err(PassrsError::NoSigningKeyFound)
    } else {
        Err(PassrsError::NoPrivateKeyFound)
    }
}

/// The store exists where both its folder and its `.gpg-id` do.
pub fn verify_store_exists(store_exists: bool, gpg_id_exists: bool) -> (r: Result<(), PassrsError>)
    ensures
        r is Ok <==> store_exists && gpg_id_exists,
        r is Err ==> r == Err::<(), PassrsError>(PassrsError::StoreDoesntExist),
{
    if store_exists && gpg_id_exists {
        Ok(())
    } else {
        Err(PassrsError::StoreDoesntExist)
    }
}

/// The lines of a decrypted entry, which must be UTF-8 text.
pub fn decrypted_lines(plain: &[u8]) -> (r: Result<Vec<String>, PassrsError>)
    ensures
        r is Ok <==> valid_utf8(plain@),
        r matches Ok(v) ==> exists|t: Seq<char>|
            encode_utf8(t) == plain@ && v@.map_values(|l: String| l@) == #[trigger] text_lines(t),
        r is Err ==> r == Err::<Vec<String>, PassrsError>(
            PassrsError::InvalidUtf8 { valid_up_to: utf8_error_at(plain@).0, error_len: utf8_error_at(plain@).1 },
        ),
{
    match utf8_text(plain) {
        Ok(t) => {
            let v = lines(t.as_str());
            assert(encode_utf8(t@) == plain@ && v@.map_values(|l: String| l@) == text_lines(t@));
            Ok(v)
        },
        Err(e) => Err(e),
    }
}

/// Whether a path names something within reach: an existing path does; a
/// missing one is checked for ways out of the store.
pub fn path_exists(exists: bool, path: &str) -> (r: Result<bool, PassrsError>)
    ensures
        exists ==> r == Ok::<bool, PassrsError>(true),
        !exists && !is_sneaky(path@) ==> r == Ok::<bool, PassrsError>(false),
        !exists && is_sneaky(path@) ==> (r matches Err(PassrsError::SneakyPath(p)) && p@ == path@),
{
    if exists {
        return Ok(true);
    }
    match check_sneaky_paths(path) {
        Ok(()) => Ok(false),
        Err(e) => Err(e),
    }
}

/// What re-encrypting a folder does with one of its entries.
#[derive(Debug, Clone, Copy, PartialEq, Eq, Structural)]
pub enum RecryptAction {
    /// Pass over it.
    Skip,
    /// The folder's own `.gpg-id`: the folder belongs to other keys.
    Stop,
    /// Re-encrypt the file.
    File,
    /// Re-encrypt the folder, entry by entry.
    Folder,
}

/// What re-encrypting a folder does with the entry `name`: entries starting
/// with `.git` are passed over; a `.gpg-id` other than the store's own ends
/// the folder; `.gpg` files and folders are re-encrypted.
pub open spec fn recrypt_action_spec(name: Seq<char>, is_store_gpg_id: bool, is_file: bool, gpg_ext: bool, is_dir: bool) -> RecryptAction {
    if name.len() >= 4 && name.take(4) == ".git"@ {
        RecryptAction::Skip
    } else if name == ".gpg-id"@ {
        if is_store_gpg_id {
            RecryptAction::Skip
        } else {
            RecryptAction::Stop
        }
    } else if is_file && gpg_ext {
        RecryptAction::File
    } else if is_dir {
        RecryptAction::Folder
    } else {
        RecryptAction::Skip
    }
}

/// What re-encrypting a folder does with the entry `name`: `is_store_gpg_id`
/// tells whether it is the store's own `.gpg-id`, `is_file` and `is_dir` what
/// it is, `gpg_ext` whether its extension is `gpg`.
pub fn recrypt_action(name: &str, is_store_gpg_id: bool, is_file: bool, gpg_ext: bool, is_dir: bool) -> (r: RecryptAction)
    ensures
        r == recrypt_action_spec(name@, is_store_gpg_id, is_file, gpg_ext, is_dir),
{
    let nc = chars_of(name);
    let git = chars_of(".git");
    if nc.len() >= 4 {
        let head = crate::text::sub_chars(nc.as_slice(), 0, 4);
        assert(head@ =~= name@.take(4));
        if chars_eq(head.as_slice(), git.as_slice()) {
            return RecryptAction::Skip;
        }
    }
    let id = chars_of(".gpg-id");
    if chars_eq(nc.as_slice(), id.as_slice()) {
        if is_store_gpg_id {
            RecryptAction::Skip
        } else {
            RecryptAction::Stop
        }
    } else if is_file && gpg_ext {
        RecryptAction::File
    } else if is_dir {
        RecryptAction::Folder
    } else {
        RecryptAction::Skip
    }
}

/// An entry of a folder, as re-encrypting sees it: its name, whether it is the
/// store's own `.gpg-id`, whether it is a file, whether its extension is
/// `gpg`, and whether it is a folder.
pub struct FolderEntry {
    pub name: String,
    pub is_store_gpg_id: bool,
    pub is_file: bool,
    pub gpg_ext: bool,
    pub is_dir: bool,
}

/// The action for one entry.
pub open spec fn entry_action(e: FolderEntry) -> RecryptAction {
    recrypt_action_spec(e.name@, e.is_store_gpg_id, e.is_file, e.gpg_ext, e.is_dir)
}

/// A folder is left as it is, as a whole, where it holds a `.gpg-id` of its
/// own (one that is not the store's): its entries belong to other keys.
pub open spec fn folder_has_own_keys(entries: Seq<FolderEntry>) -> bool {
    exists|i: int| 0 <= i < entries.len() && entry_action(#[trigger] entries[i]) == RecryptAction::Stop
}

/// What re-encrypting a folder does with entry `i`: a sub-folder (not `top`,
/// the folder that re-encrypting starts from) with a `.gpg-id` of its own is
/// left as it is, as a whole; otherwise each entry gets its own action, the
/// starting folder's own `.gpg-id` being passed over.
pub open spec fn planned_action(entries: Seq<FolderEntry>, i: int, top: bool) -> RecryptAction {
    if !top && folder_has_own_keys(entries) {
        RecryptAction::Skip
    } else if entry_action(entries[i]) == RecryptAction::Stop {
        RecryptAction::Skip
    } else {
        entry_action(entries[i])
    }
}

/// What re-encrypting a folder does with each of its entries, decided for the
/// whole folder before any entry is touched, whatever order the entries are
/// listed in.
pub fn recrypt_plan(entries: &Vec<FolderEntry>, top: bool) -> (r: Vec<RecryptAction>)
    ensures
        r@.len() == entries@.len(),
        forall|i: int| 0 <= i < entries@.len() ==> #[trigger] r@[i] == planned_action(entries@, i, top),
{
    let mut actions: Vec<RecryptAction> = Vec::new();
    let mut own = false;
    let mut i: usize = 0;
    while i < entries.len()
        invariant
            i <= entries@.len(),
            actions@.len() == i,
            forall|k: int| 0 <= k < i ==> #[trigger] actions@[k] == entry_action(entries@[k]),
            own <==> exists|k: int| 0 <= k < i && entry_action(#[trigger] entries@[k]) == RecryptAction::Stop,
        decreases entries.len() - i,
    {
        let e = &entries[i];
        let a = recrypt_action(e.name.as_str(), e.is_store_gpg_id, e.is_file, e.gpg_ext, e.is_dir);
        if a == RecryptAction::Stop {
            own = true;
        }
        actions.push(a);
        i += 1;
    }
    let ignore = own && !top;
    let mut plan: Vec<RecryptAction> = Vec::new();
    let mut k: usize = 0;
    while k < entries.len()
        invariant
            k <= entries@.len(),
            actions@.len() == entries@.len(),
            forall|j: int| 0 <= j < entries@.len() ==> #[trigger] actions@[j] == entry_action(entries@[j]),
            ignore == (!top && folder_has_own_keys(entries@)),
            plan@.len() == k,
            forall|j: int| 0 <= j < k ==> #[trigger] plan@[j] == planned_action(entries@, j, top),
        decreases entries.len() - k,
    {
        let a = actions[k];
        if ignore || a == RecryptAction::Stop {
            plan.push(RecryptAction::Skip);
        } else {
            plan.push(a);
        }
        k += 1;
    }
    plan
}

/// What setting the permissions of a path does next.
#[derive(Debug, Clone, Copy, PartialEq, Eq, Structural)]
pub enum PermissionStep {
    /// Leave it: it belongs to someone else.
    Leave,
    /// Mask the folder's mode, then stop: it is the store's folder.
    MaskAndStop,
    /// Mask the mode, then go on with the parent folder.
    MaskAndUp,
}

/// What setting permissions does with a path owned by `path_uid` when the
/// user is `uid`: paths of others are left alone; the user's own files and
/// folders get the umask, and the walk goes on up to the store's folder.
pub fn permission_step(path_uid: u32, uid: u32, is_dir: bool, is_store: bool) -> (r: PermissionStep)
    ensures
        path_uid != uid ==> r == PermissionStep::Leave,
        path_uid == uid && is_dir && is_store ==> r == PermissionStep::MaskAndStop,
        path_uid == uid && !(is_dir && is_store) ==> r == PermissionStep::MaskAndUp,
{
    if path_uid != uid {
        PermissionStep::Leave
    } else if is_dir && is_store {
        PermissionStep::MaskAndStop
    } else {
        PermissionStep::MaskAndUp
    }
}

/// Whether a name is shown in listings: names starting with `.` are hidden,
/// as are names that are not text.
pub fn is_shown_name(name: Option<&str>) -> (r: bool)
    ensures
        r == (name matches Some(n) && !(n@.len() > 0 && n@[0] == '.')),
{
    match name {
        Some(n) => {
            let nc = chars_of(n);
            !(nc.len() > 0 && nc[0] == '.')
        },
        None => false,
    }
}

} // verus!
