//! Paths of entries in the password store, as text.
use crate::error::PassrsError;
use crate::order::{sorted_order, stable_order};
use crate::text::{
    ascii_lower, chars_eq, chars_of, contains_chars, occurs_at, push_str, replace_tilde,
    replace_tilde_exec, seq_contains, string_of, to_ascii_lowercase,
};
use vstd::prelude::*;
use vstd::string::StringSliceAdditionalSpecFns;
use vstd::utf8::{
    decode_utf8, encode_utf8, encode_utf8_decode_utf8, encode_utf8_valid_utf8, is_char_boundary,
    is_char_boundary_iff_not_is_continuation_byte, is_char_boundary_start_end_of_seq,
    is_continuation_byte, length_of_first_scalar, pop_first_scalar, valid_utf8, valid_utf8_split,
};

verus! {

/// `b` holds the extension `.gpg` at byte `i`.
pub open spec fn gpg_at(b: Seq<u8>, i: int) -> bool {
    &&& 0 <= i
    &&& i + 4 <= b.len()
    &&& b[i] == 0x2eu8
    &&& b[i + 1] == 0x67u8
    &&& b[i + 2] == 0x70u8
    &&& b[i + 3] == 0x67u8
}

/// The last place before byte `i` of `b` that holds `.gpg`.
pub open spec fn last_gpg_before(b: Seq<u8>, i: int) -> Option<int>
    decreases i,
{
    if i <= 0 {
        None
    } else if gpg_at(b, i - 1) {
        Some(i - 1)
    } else {
        last_gpg_before(b, i - 1)
    }
}

/// Where `str::rfind(".gpg")` finds the extension in `b`: the last place that
/// holds it.
pub open spec fn last_gpg(b: Seq<u8>) -> Option<int> {
    last_gpg_before(b, b.len() as int)
}

/// What `last_gpg_before` finds holds `.gpg`, and nothing later before `i` does.
pub proof fn lemma_last_gpg_before(b: Seq<u8>, i: int)
    ensures
        last_gpg_before(b, i) matches Some(j) ==> j < i && gpg_at(b, j) && forall|k: int|
            j < k < i ==> !gpg_at(b, k),
        last_gpg_before(b, i) is None ==> forall|k: int| k < i ==> !gpg_at(b, k),
    decreases i,
{
    if i > 0 {
        lemma_last_gpg_before(b, i - 1);
    }
}

/// The end of the part of `b` before its last `.gpg` (all of `b` without one).
pub open spec fn stem_end(b: Seq<u8>) -> int {
    match last_gpg(b) {
        Some(i) => i,
        None => b.len() as int,
    }
}

/// `str::rfind(".gpg")` on the bytes of `s`.
pub fn rfind_gpg(s: &str) -> (r: Option<usize>)
    ensures
        r matches Some(i) ==> last_gpg(s.spec_bytes()) == Some(i as int),
        r is None ==> last_gpg(s.spec_bytes()) is None,
{
    let b = s.as_bytes();
    let n = b.len();
    let mut i: usize = n;
    assert(b@ == s.spec_bytes());
    while i > 0
        invariant
            i <= n,
            n == b@.len(),
            b@ == s.spec_bytes(),
            last_gpg_before(b@, n as int) == last_gpg_before(b@, i as int),
        decreases i,
    {
        let j = i - 1;
        if j < n && n - j >= 4 && b[j] == 0x2e && b[j + 1] == 0x67 && b[j + 2] == 0x70 && b[j + 3]
            == 0x67 {
            assert(gpg_at(b@, j as int));
            assert(last_gpg_before(b@, i as int) == Some(j as int));
            assert(last_gpg(s.spec_bytes()) == last_gpg_before(b@, n as int));
            return Some(j);
        }
        i = j;
    }
    None
}

/// The text of the bytes `a..e` of `s`, where both are character boundaries.
pub fn byte_slice(s: &str, a: usize, e: usize) -> (r: &str)
    requires
        a <= e <= s.spec_bytes().len(),
        is_char_boundary(s.spec_bytes(), a as int),
        is_char_boundary(s.spec_bytes(), e as int),
    ensures
        r.spec_bytes() == s.spec_bytes().subrange(a as int, e as int),
        r@ == decode_utf8(s.spec_bytes().subrange(a as int, e as int)),
{
    let ghost b = s.spec_bytes();
    proof {
        encode_utf8_valid_utf8(s@);
        valid_utf8_split(b, a as int);
        let rest = b.subrange(a as int, b.len() as int);
        if e == b.len() {
            is_char_boundary_start_end_of_seq(rest);
        } else if e > a {
            is_char_boundary_iff_not_is_continuation_byte(rest, e - a);
            is_char_boundary_iff_not_is_continuation_byte(b, e as int);
            assert(rest[e - a] == b[e as int]);
        }
    }
    let (_, rest) = s.split_at(a);
    let (piece, _) = rest.split_at(e - a);
    proof {
        assert(piece.spec_bytes() =~= b.subrange(a as int, e as int));
        encode_utf8_decode_utf8(piece@);
    }
    piece
}

/// A byte that holds an ASCII character starts a character.
pub proof fn lemma_ascii_byte_is_boundary(b: Seq<u8>, i: int)
    requires
        valid_utf8(b),
        0 <= i < b.len(),
        b[i] < 0x80,
    ensures
        is_char_boundary(b, i),
{
    is_char_boundary_iff_not_is_continuation_byte(b, i);
}

/// The byte after an ASCII character that starts at a boundary is a boundary.
pub proof fn lemma_after_ascii_is_boundary(b: Seq<u8>, k: int)
    requires
        valid_utf8(b),
        0 <= k < b.len(),
        is_char_boundary(b, k),
        b[k] < 0x80,
    ensures
        is_char_boundary(b, k + 1),
    decreases b.len(),
{
    let l = length_of_first_scalar(b);
    let rest = pop_first_scalar(b);
    assert(valid_utf8(rest));
    assert(1 <= l <= b.len());
    assert(rest.len() == b.len() - l);
    if k == 0 {
        assert(l == 1);
        assert(is_char_boundary(b, 1) == is_char_boundary(rest, 0));
    } else {
        assert(is_char_boundary(b, k) == is_char_boundary(rest, k - l));
        assert(rest[k - l] == b[k]);
        lemma_after_ascii_is_boundary(rest, k - l);
        assert(is_char_boundary(b, k + 1) == is_char_boundary(rest, k + 1 - l));
    }
}

/// The name under which an entry is shown: its path from byte `store_len` on,
/// up to its last `.gpg` (or to its end when it has none).
pub open spec fn entry_name_spec(entry: Seq<u8>, store_len: int) -> Seq<char> {
    decode_utf8(entry.subrange(store_len, stem_end(entry)))
}

/// The name under which an entry is shown (`entry[store_len..]` without the
/// extension).
pub fn entry_name(entry: &str, store_len: usize) -> (r: String)
    requires
        store_len <= stem_end(entry.spec_bytes()),
        is_char_boundary(entry.spec_bytes(), store_len as int),
    ensures
        r@ == entry_name_spec(entry.spec_bytes(), store_len as int),
{
    let ghost b = entry.spec_bytes();
    proof {
        encode_utf8_valid_utf8(entry@);
    }
    let end = match rfind_gpg(entry) {
        Some(i) => {
            proof {
                lemma_last_gpg_before(b, b.len() as int);
                lemma_ascii_byte_is_boundary(b, i as int);
            }
            i
        },
        None => {
            proof {
                is_char_boundary_start_end_of_seq(b);
            }
            entry.as_bytes().len()
        },
    };
    byte_slice(entry, store_len, end).to_owned()
}

/// Paths that could reach outside the store: they hold `../` or `/..`, or are
/// `..` itself.
pub open spec fn is_sneaky(p: Seq<char>) -> bool {
    seq_contains(p, "../"@) || seq_contains(p, "/.."@) || p == ".."@
}

/// Refuses a path that could reach outside the store.
pub fn check_sneaky_paths(path: &str) -> (r: Result<(), PassrsError>)
    ensures
        r is Ok <==> !is_sneaky(path@),
        r is Err ==> (r matches Err(PassrsError::SneakyPath(p)) && p@ == path@),
{
    let cs = chars_of(path);
    let up = chars_of("../");
    let down = chars_of("/..");
    let dots = chars_of("..");
    if contains_chars(cs.as_slice(), up.as_slice()) || contains_chars(cs.as_slice(), down.as_slice())
        || chars_eq(cs.as_slice(), dots.as_slice()) {
        Err(PassrsError::SneakyPath(path.to_owned()))
    } else {
        Ok(())
    }
}

/// `p` is the folder `folder` itself or a path below it: it starts with
/// `folder`, and the next character, if any, begins a new component.
pub open spec fn under_folder(p: Seq<char>, folder: Seq<char>) -> bool {
    &&& folder.len() <= p.len()
    &&& p.subrange(0, folder.len() as int) == folder
    &&& (p.len() == folder.len() || (folder.len() > 0 && folder.last() == '/') || p[folder.len() as int]
        == '/')
}

/// Tells whether `p` is the folder `folder` or a path below it.
pub fn is_under_folder(p: &[char], folder: &[char]) -> (r: bool)
    ensures
        r == under_folder(p@, folder@),
{
    if folder.len() > p.len() {
        return false;
    }
    let mut i: usize = 0;
    while i < folder.len()
        invariant
            folder.len() <= p.len(),
            i <= folder.len(),
            forall|j: int| 0 <= j < i ==> p@[j] == folder@[j],
        decreases folder.len() - i,
    {
        if p[i] != folder[i] {
            assert(p@.subrange(0, folder.len() as int)[i as int] != folder@[i as int]);
            return false;
        }
        i += 1;
    }
    assert(p@.subrange(0, folder.len() as int) =~= folder@);
    p.len() == folder.len() || (folder.len() > 0 && folder[folder.len() - 1] == '/') || p[folder.len()]
        == '/'
}

/// A path named by the user, within the store: every `'~'` replaced by the
/// home folder, and the store's path put in front unless the path already
/// lies below it.
pub open spec fn store_path(path: Seq<char>, home: Seq<char>, store: Seq<char>) -> Seq<char> {
    let p = replace_tilde(path, home);
    if under_folder(p, store) {
        p
    } else {
        store + "/"@ + p
    }
}

/// A path named by the user lies below the store's folder.
pub proof fn lemma_store_path_in_store(path: Seq<char>, home: Seq<char>, store: Seq<char>)
    ensures
        under_folder(store_path(path, home, store), store),
{
    let p = replace_tilde(path, home);
    if !under_folder(p, store) {
        reveal_strlit("/");
        let q = store + "/"@ + p;
        assert(q.subrange(0, store.len() as int) =~= store);
        assert(q[store.len() as int] == "/"@[0]);
    }
}

/// The path of `path` within the store (`store` being the store's path and
/// `home` the home folder), refused where it could reach outside the store.
/// The path need not exist.
pub fn exact_path(path: &str, home: &str, store: &str) -> (r: Result<String, PassrsError>)
    ensures
        r is Ok <==> !is_sneaky(store_path(path@, home@, store@)),
        r matches Ok(p) ==> p@ == store_path(path@, home@, store@),
        r matches Ok(p) ==> under_folder(p@, store@) && !is_sneaky(p@),
        r is Err ==> (r matches Err(PassrsError::SneakyPath(p)) && p@ == store_path(
            path@,
            home@,
            store@,
        )),
{
    let mut p = replace_tilde_exec(path, home);
    let pc = chars_of(p.as_str());
    let sc = chars_of(store);
    if !is_under_folder(pc.as_slice(), sc.as_slice()) {
        let mut q = store.to_owned();
        push_str(&mut q, "/");
        push_str(&mut q, p.as_str());
        p = q;
    }
    proof {
        lemma_store_path_in_store(path@, home@, store@);
    }
    match check_sneaky_paths(p.as_str()) {
        Ok(()) => Ok(p),
        Err(e) => Err(e),
    }
}

/// `p` ends with `'/'`.
pub open spec fn ends_with_slash(p: Seq<char>) -> bool {
    p.len() > 0 && p.last() == '/'
}

/// The file of an entry: `path` itself where it names a folder (it exists as
/// one, or ends with `'/'`), otherwise `path` with `.gpg`; the `.gpg` file
/// wins where it exists. `existing` tells whether `path` exists, and if so
/// whether as a folder.
pub open spec fn resolved(path: Seq<char>, gpg_exists: bool, existing: Option<bool>) -> Seq<char> {
    if gpg_exists {
        path + ".gpg"@
    } else if (existing matches Some(d) && d) || ends_with_slash(path) {
        path
    } else {
        path + ".gpg"@
    }
}

/// Picks the file of an entry at `path` (within the store), from what the file
/// system says of `path` and of `path` with `.gpg`.
pub fn resolve_entry(path: String, gpg_exists: bool, existing: Option<bool>) -> (r: String)
    ensures
        r@ == resolved(path@, gpg_exists, existing),
{
    let cs = chars_of(path.as_str());
    let slash = cs.len() > 0 && cs[cs.len() - 1] == '/';
    let is_dir = match existing {
        Some(d) => d,
        None => false,
    };
    if !gpg_exists && (is_dir || slash) {
        path
    } else {
        let mut p = path;
        push_str(&mut p, ".gpg");
        p
    }
}

/// The folder that `ls` lists: the store itself, or `path` within it.
pub open spec fn ls_root_spec(path: Option<Seq<char>>, store: Seq<char>) -> Seq<char> {
    match path {
        Some(p) => if under_folder(p, store) {
            p
        } else {
            store + "/"@ + p
        },
        None => store,
    }
}

/// The folder that `ls` lists for an optional sub-folder `path`.
pub fn ls_root(path: Option<&str>, store: &str) -> (r: String)
    ensures
        r@ == ls_root_spec(
            match path {
                Some(p) => Some(p@),
                None => None,
            },
            store@,
        ),
{
    match path {
        Some(p) => {
            let pc = chars_of(p);
            let sc = chars_of(store);
            if is_under_folder(pc.as_slice(), sc.as_slice()) {
                p.to_owned()
            } else {
                let mut q = store.to_owned();
                push_str(&mut q, "/");
                push_str(&mut q, p);
                q
            }
        },
        None => store.to_owned(),
    }
}

/// The length of the store's path as entries inside it start with it: with
/// the `'/'` that follows it (entries of a store whose path lacks a final
/// `'/'` have one there).
pub open spec fn store_len_spec(store: Seq<u8>) -> int {
    if store.len() > 0 && store.last() == 0x2fu8 {
        store.len() as int
    } else {
        store.len() as int + 1
    }
}

/// The number of bytes that the store's path takes at the start of an entry.
pub fn store_len(store: &str) -> (r: usize)
    requires
        store.spec_bytes().len() < usize::MAX,
    ensures
        r == store_len_spec(store.spec_bytes()),
{
    let b = store.as_bytes();
    if b.len() > 0 && b[b.len() - 1] == 0x2f {
        b.len()
    } else {
        b.len() + 1
    }
}

/// An entry that walking the store visits: its path, its file name, and
/// whether it is a file.
pub struct WalkEntry {
    pub path: String,
    pub file_name: String,
    pub is_file: bool,
}

/// The UTF-8 bytes of a string.
pub open spec fn bytes_of(s: String) -> Seq<u8> {
    encode_utf8(s@)
}

/// `b` ends with `.gpg`.
pub open spec fn ends_gpg(b: Seq<u8>) -> bool {
    b.len() >= 4 && gpg_at(b, b.len() - 4)
}

/// The entry is the one searched for: an encrypted entry whose file name,
/// with or without the extension, is `target`.
pub open spec fn exact_hit(e: WalkEntry, target: Seq<char>) -> bool {
    &&& ends_gpg(bytes_of(e.path))
    &&& (e.file_name@ == target || target == decode_utf8(
        bytes_of(e.file_name).subrange(0, bytes_of(e.file_name).len() - 4),
    ))
}

/// The path of an entry from byte `store_len` on: its path within the store.
pub open spec fn relative(e: WalkEntry, store_len: int) -> Seq<char> {
    decode_utf8(bytes_of(e.path).subrange(store_len, bytes_of(e.path).len() as int))
}

/// The entry matches `target` in part: an encrypted file whose path within
/// the store holds `target`, as it is or ASCII lower-cased.
pub open spec fn partial_hit(e: WalkEntry, target: Seq<char>, store_len: int) -> bool {
    &&& ends_gpg(bytes_of(e.path))
    &&& e.is_file
    &&& (seq_contains(relative(e, store_len), target) || seq_contains(
        ascii_lower(relative(e, store_len)),
        target,
    ))
}

/// The parts of the entry that the search reads can be cut where it cuts them.
pub open spec fn entry_readable(e: WalkEntry, target: Seq<char>, store_len: int) -> bool {
    &&& (ends_gpg(bytes_of(e.path)) && e.file_name@ != target) ==> (bytes_of(e.file_name).len() >= 4
        && is_char_boundary(bytes_of(e.file_name), bytes_of(e.file_name).len() - 4))
    &&& (ends_gpg(bytes_of(e.path)) && e.is_file && !exact_hit(e, target)) ==> (store_len <= bytes_of(
        e.path,
    ).len() && is_char_boundary(bytes_of(e.path), store_len))
}

/// The first of the first `n` entries that is the one searched for.
pub open spec fn exact_before(entries: Seq<WalkEntry>, target: Seq<char>, n: int) -> Option<int>
    decreases n,
{
    if n <= 0 {
        None
    } else {
        match exact_before(entries, target, n - 1) {
            Some(i) => Some(i),
            None => if exact_hit(entries[n - 1], target) {
                Some(n - 1)
            } else {
                None
            },
        }
    }
}

/// Every entry that the search reads, up to the first exact hit, can be read.
pub open spec fn walk_readable(entries: Seq<WalkEntry>, target: Seq<char>, store_len: int) -> bool {
    forall|i: int|
        0 <= i < entries.len() && exact_before(entries, target, i) is None ==> entry_readable(
            #[trigger] entries[i],
            target,
            store_len,
        )
}

/// The paths of the entries that match in part, in the order of the walk.
pub open spec fn partial_matches(entries: Seq<WalkEntry>, target: Seq<char>, store_len: int) -> Seq<Seq<char>> {
    entries.filter(|e: WalkEntry| partial_hit(e, target, store_len)).map_values(|e: WalkEntry| e.path@)
}

/// Paths sorted stably by their ASCII lower-cased text.
pub open spec fn by_name(m: Seq<Seq<char>>) -> Seq<Seq<char>> {
    let order = sorted_order(m.map_values(|p: Seq<char>| ascii_lower(p)));
    order.map_values(|k: usize| m[k as int])
}

fn ends_with_gpg(s: &str) -> (r: bool)
    ensures
        r == ends_gpg(s.spec_bytes()),
{
    let b = s.as_bytes();
    let n = b.len();
    n >= 4 && b[n - 4] == 0x2e && b[n - 3] == 0x67 && b[n - 2] == 0x70 && b[n - 1] == 0x67
}

fn lines_to_strings(v: &Vec<String>, order: &Vec<usize>) -> (r: Vec<String>)
    requires
        forall|a: int| 0 <= a < order@.len() ==> #[trigger] order@[a] < v@.len(),
    ensures
        r@.len() == order@.len(),
        forall|a: int| 0 <= a < order@.len() ==> (#[trigger] r@[a])@ == v@[order@[a] as int]@,
{
    let mut r: Vec<String> = Vec::new();
    let mut k: usize = 0;
    while k < order.len()
        invariant
            k <= order@.len(),
            forall|a: int| 0 <= a < order@.len() ==> #[trigger] order@[a] < v@.len(),
            r@.len() == k,
            forall|a: int| 0 <= a < k ==> (#[trigger] r@[a])@ == v@[order@[a] as int]@,
        decreases order.len() - k,
    {
        r.push(v[order[k]].clone());
        k += 1;
    }
    r
}

/// The entries of the store that match `target`: the first entry that is the
/// one searched for (by file name, with or without `.gpg`), or else every
/// encrypted file whose path within the store holds `target`, sorted by name
/// without regard to ASCII case; none at all is an error. `entries` are the
/// entries of the store in the order of the walk, and `store_len` the length
/// of the store's path at their start.
pub fn find_matches(entries: &Vec<WalkEntry>, target: &str, store_len: usize) -> (r: Result<Vec<String>, PassrsError>)
    requires
        walk_readable(entries@, target@, store_len as int),
    ensures
        exact_before(entries@, target@, entries@.len() as int) matches Some(i) ==> (r matches Ok(v)
            && v@.len() == 1 && v@[0]@ == entries@[i].path@),
        exact_before(entries@, target@, entries@.len() as int) is None && partial_matches(
            entries@,
            target@,
            store_len as int,
        ).len() == 0 ==> (r matches Err(PassrsError::NoMatchesFound(t)) && t@ == target@),
        exact_before(entries@, target@, entries@.len() as int) is None && partial_matches(
            entries@,
            target@,
            store_len as int,
        ).len() > 0 ==> (r matches Ok(v) && v@.map_values(|s: String| s@) == by_name(
            partial_matches(entries@, target@, store_len as int),
        )),
        exact_before(entries@, target@, entries@.len() as int) is None ==> (r matches Ok(v) ==> forall|k: int|
            0 <= k < v@.len() ==> partial_matches(entries@, target@, store_len as int).contains(
                #[trigger] v@[k]@,
            )),
{
    let ghost tv = target@;
    let ghost pred = |e: WalkEntry| partial_hit(e, tv, store_len as int);
    let tc = chars_of(target);
    let mut matches: Vec<String> = Vec::new();
    let mut i: usize = 0;
    while i < entries.len()
        invariant
            i <= entries@.len(),
            tc@ == target@,
            tv == target@,
            pred == (|e: WalkEntry| partial_hit(e, tv, store_len as int)),
            walk_readable(entries@, target@, store_len as int),
            exact_before(entries@, target@, i as int) is None,
            matches@.map_values(|s: String| s@) == entries@.take(i as int).filter(pred).map_values(
                |e: WalkEntry| e.path@,
            ),
        decreases entries.len() - i,
    {
        let e = &entries[i];
        assert(entry_readable(entries@[i as int], target@, store_len as int));
        let ghost before = matches@.map_values(|s: String| s@);
        proof {
            assert(entries@.take(i + 1) =~= entries@.take(i as int).push(entries@[i as int]));
            entries@.take(i as int).lemma_filter_push(entries@[i as int], pred);
        }
        let gpg = ends_with_gpg(e.path.as_str());
        let mut hit = false;
        if gpg {
            let fc = chars_of(e.file_name.as_str());
            if chars_eq(fc.as_slice(), tc.as_slice()) {
                hit = true;
            } else {
                let fb = e.file_name.as_str().as_bytes();
                proof {
                    encode_utf8_valid_utf8(e.file_name@);
                    is_char_boundary_start_end_of_seq(encode_utf8(e.file_name@));
                }
                let stem = byte_slice(e.file_name.as_str(), 0, fb.len() - 4);
                let sc = chars_of(stem);
                if chars_eq(sc.as_slice(), tc.as_slice()) {
                    hit = true;
                }
            }
        }
        assert(hit == exact_hit(entries@[i as int], target@));
        if hit {
            let mut v: Vec<String> = Vec::new();
            v.push(e.path.clone());
            assert(exact_before(entries@, target@, i + 1) == Some(i as int));
            proof {
                lemma_exact_before_stays(entries@, target@, i + 1, entries@.len() as int);
            }
            return Ok(v);
        }
        if gpg && e.is_file {
            let pb = e.path.as_str().as_bytes();
            proof {
                encode_utf8_valid_utf8(e.path@);
                is_char_boundary_start_end_of_seq(encode_utf8(e.path@));
            }
            let rel = byte_slice(e.path.as_str(), store_len, pb.len());
            let rc = chars_of(rel);
            let lower = to_ascii_lowercase(rc.as_slice());
            if contains_chars(rc.as_slice(), tc.as_slice()) || contains_chars(lower.as_slice(), tc.as_slice()) {
                matches.push(e.path.clone());
                assert(pred(entries@[i as int]));
                assert(matches@.map_values(|s: String| s@) =~= before.push(entries@[i as int].path@));
            } else {
                assert(!pred(entries@[i as int]));
            }
        } else {
            assert(!pred(entries@[i as int]));
        }
        assert(matches@.map_values(|s: String| s@) =~= entries@.take(i + 1).filter(pred).map_values(
            |e: WalkEntry| e.path@,
        ));
        i += 1;
    }
    assert(entries@.take(entries@.len() as int) =~= entries@);
    let ghost m = matches@.map_values(|s: String| s@);
    assert(m == partial_matches(entries@, target@, store_len as int));
    if matches.len() == 0 {
        return Err(PassrsError::NoMatchesFound(target.to_owned()));
    }
    let mut keys: Vec<Vec<char>> = Vec::new();
    let mut k: usize = 0;
    while k < matches.len()
        invariant
            k <= matches@.len(),
            keys@.len() == k,
            forall|a: int| 0 <= a < k ==> (#[trigger] keys@[a])@ == ascii_lower(matches@[a]@),
        decreases matches.len() - k,
    {
        let cs = chars_of(matches[k].as_str());
        keys.push(to_ascii_lowercase(cs.as_slice()));
        k += 1;
    }
    let order = stable_order(&keys);
    assert(keys@.map_values(|k: Vec<char>| k@) =~= m.map_values(|p: Seq<char>| ascii_lower(p)));
    let sorted = lines_to_strings(&matches, &order);
    assert(sorted@.map_values(|s: String| s@) =~= by_name(m));
    assert forall|k: int| 0 <= k < sorted@.len() implies m.contains(#[trigger] sorted@[k]@) by {
        assert(m[order@[k] as int] == sorted@[k]@);
    }
    Ok(sorted)
}

/// `p` is the path of an entry that matches `target` in part.
pub open spec fn is_path_of_partial_hit(entries: Seq<WalkEntry>, target: Seq<char>, store_len: int, p: Seq<char>) -> bool {
    exists|i: int| 0 <= i < entries.len() && #[trigger] entries[i].path@ == p && partial_hit(entries[i], target, store_len)
}

/// A path found in part is the path of an entry that matches in part.
proof fn lemma_partial_match_origin(entries: Seq<WalkEntry>, target: Seq<char>, store_len: int, k: int)
    requires
        0 <= k < partial_matches(entries, target, store_len).len(),
    ensures
        is_path_of_partial_hit(entries, target, store_len, partial_matches(entries, target, store_len)[k]),
{
    let pred = |e: WalkEntry| partial_hit(e, target, store_len);
    let f = entries.filter(pred);
    #[allow(deprecated)]
    entries.filter_lemma(pred);
    assert(pred(f[k]));
    assert(f.contains(f[k]));
    entries.lemma_filter_contains_rev(pred, f[k]);
    let i = choose|i: int| 0 <= i < entries.len() && entries[i] == f[k];
    assert(partial_matches(entries, target, store_len)[k] == f[k].path@);
    assert(entries[i].path@ == partial_matches(entries, target, store_len)[k]);
    assert(partial_hit(entries[i], target, store_len));
}

/// Matching in part reads only an entry's path within the store: an entry
/// matches `target` in part exactly when it is an encrypted file and the text
/// of its path from byte `store_len` on (the part after the store's own path)
/// holds `target`, as it is or ASCII lower-cased. Every path found in part is
/// such an entry's path, and every such entry's path is found.
pub proof fn lemma_partial_match_reads_within_store(entries: Seq<WalkEntry>, target: Seq<char>, store_len: int)
    ensures
        forall|e: WalkEntry|
            #[trigger] partial_hit(e, target, store_len) <==> (ends_gpg(bytes_of(e.path)) && e.is_file && (
            seq_contains(
                decode_utf8(bytes_of(e.path).subrange(store_len, bytes_of(e.path).len() as int)),
                target,
            ) || seq_contains(
                ascii_lower(decode_utf8(bytes_of(e.path).subrange(store_len, bytes_of(e.path).len() as int))),
                target,
            ))),
        forall|k: int|
            0 <= k < partial_matches(entries, target, store_len).len() ==> is_path_of_partial_hit(
                entries,
                target,
                store_len,
                #[trigger] partial_matches(entries, target, store_len)[k],
            ),
        forall|i: int|
            0 <= i < entries.len() && #[trigger] partial_hit(entries[i], target, store_len) ==> partial_matches(
                entries,
                target,
                store_len,
            ).contains(entries[i].path@),
{
    let pred = |e: WalkEntry| partial_hit(e, target, store_len);
    let f = entries.filter(pred);
    let path_of = |e: WalkEntry| e.path@;
    #[allow(deprecated)]
    entries.filter_lemma(pred);
    assert forall|k: int|
        0 <= k < partial_matches(entries, target, store_len).len() implies is_path_of_partial_hit(
            entries,
            target,
            store_len,
            #[trigger] partial_matches(entries, target, store_len)[k],
        ) by {
        lemma_partial_match_origin(entries, target, store_len, k);
    }
    assert forall|i: int| 0 <= i < entries.len() && #[trigger] partial_hit(entries[i], target, store_len)
        implies partial_matches(entries, target, store_len).contains(entries[i].path@) by {
        assert(pred(entries[i]));
        assert(f.contains(entries[i]));
        let k = choose|k: int| 0 <= k < f.len() && f[k] == entries[i];
        assert(partial_matches(entries, target, store_len)[k] == entries[i].path@);
    }
}

/// An exact hit among the first `i` entries is the first one among more.
proof fn lemma_exact_before_stays(entries: Seq<WalkEntry>, target: Seq<char>, i: int, n: int)
    requires
        exact_before(entries, target, i) is Some,
        i <= n,
    ensures
        exact_before(entries, target, n) == exact_before(entries, target, i),
    decreases n - i,
{
    if i < n {
        lemma_exact_before_stays(entries, target, i, n - 1);
    }
}

/// The path from byte `store_len` on: the part of a store path within the
/// store (`path[store_len..]`), where that cut falls on a character; `None`
/// where slicing there would panic.
pub fn relative_to_store(path: &str, store_len: usize) -> (r: Option<String>)
    ensures
        (store_len <= path.spec_bytes().len() && is_char_boundary(path.spec_bytes(), store_len as int))
            <==> r is Some,
        r matches Some(s) ==> s@ == decode_utf8(
            path.spec_bytes().subrange(store_len as int, path.spec_bytes().len() as int),
        ),
{
    let n = path.as_bytes().len();
    if store_len > n || !path.is_char_boundary(store_len) {
        return None;
    }
    proof {
        encode_utf8_valid_utf8(path@);
        is_char_boundary_start_end_of_seq(path.spec_bytes());
    }
    Some(byte_slice(path, store_len, n).to_owned())
}

/// Whether the path `path` starts with the components of `base`, as
/// `std::path::Path::starts_with` tells.
pub uninterp spec fn path_has_prefix(path: Seq<char>, base: Seq<char>) -> bool;

/// Calls `std::path::Path::starts_with`. Trusted: the answer is
/// `path_has_prefix(path, base)`.
#[verifier::external_body]
fn path_starts_with(path: &str, base: &str) -> (r: bool)
    ensures
        r == path_has_prefix(path@, base@),
{
    std::path::Path::new(path).starts_with(base)
}

/// How a path of the store is named to git: within the store where it lies in
/// the store's folder (`store` being that folder and `store_len` the bytes it
/// takes at the start of its entries), as it is otherwise; `None` where the
/// cut would not fall on a character (slicing there panics).
pub fn pathspec(path: &str, store: &str, store_len: usize) -> (r: Option<String>)
    ensures
        !path_has_prefix(path@, store@) ==> (r matches Some(s) && s@ == path@),
        path_has_prefix(path@, store@) ==> ((store_len <= path.spec_bytes().len() && is_char_boundary(
            path.spec_bytes(),
            store_len as int,
        )) <==> r is Some),
        path_has_prefix(path@, store@) && r is Some ==> (r matches Some(s) && s@ == decode_utf8(
            path.spec_bytes().subrange(store_len as int, path.spec_bytes().len() as int),
        )),
{
    if path_starts_with(path, store) {
        relative_to_store(path, store_len)
    } else {
        Some(path.to_owned())
    }
}

/// `rel` joined to `base` as `Path::join` joins a relative path: with a `'/'`
/// between them unless `base` is empty or already ends with one.
pub open spec fn joined_path(base: Seq<char>, rel: Seq<char>) -> Seq<char> {
    if base.len() == 0 || base.last() == '/' {
        base + rel
    } else {
        base + "/"@ + rel
    }
}

/// `rel` (a relative path) joined to `base`.
pub fn join_path(base: &str, rel: &str) -> (r: String)
    ensures
        r@ == joined_path(base@, rel@),
{
    let bc = chars_of(base);
    let mut out = base.to_owned();
    if bc.len() > 0 && bc[bc.len() - 1] != '/' {
        push_str(&mut out, "/");
    }
    push_str(&mut out, rel);
    out
}

/// The parent of the path `p`, as `std::path::Path::parent` gives it (`None`
/// for a root or an empty path).
pub uninterp spec fn parent_of(p: Seq<char>) -> Option<Seq<char>>;

/// Calls `std::path::Path::parent`. Trusted: the answer is `parent_of(p)`.
#[verifier::external_body]
fn path_parent(p: &str) -> (r: Option<String>)
    ensures
        match r {
            Some(q) => parent_of(p@) == Some(q@),
            None => parent_of(p@) is None,
        },
{
    std::path::Path::new(p).parent().map(|q| q.display().to_string())
}

/// Whether two paths name the same path component by component, as `==` on
/// `std::path::Path` tells.
pub uninterp spec fn same_path_spec(a: Seq<char>, b: Seq<char>) -> bool;

/// Compares two paths with `==` on `std::path::Path`. Trusted: the answer is
/// `same_path_spec(a, b)`.
#[verifier::external_body]
fn same_path(a: &str, b: &str) -> (r: bool)
    ensures
        r == same_path_spec(a@, b@),
{
    std::path::Path::new(a) == std::path::Path::new(b)
}

/// Where the search for the `.gpg-id` that governs a path stands.
#[derive(Debug, PartialEq, Eq)]
pub enum GpgIdSearch {
    /// The search is over: the `.gpg-id` found, or why there is none.
    Done(Result<String, PassrsError>),
    /// Look for a `.gpg-id` in this folder next.
    LookIn(String),
}

/// The step of the search for a folder: the store's own folder is governed by
/// the store's `.gpg-id`; any other folder is looked into.
pub open spec fn search_folder(folder: Seq<char>, store: Seq<char>, r: GpgIdSearch) -> bool {
    if same_path_spec(folder, store) {
        r matches GpgIdSearch::Done(Ok(f)) && f@ == joined_path(store, ".gpg-id"@)
    } else {
        r matches GpgIdSearch::LookIn(f) && f@ == folder
    }
}

fn step_into(folder: &str, store: &str) -> (r: GpgIdSearch)
    ensures
        search_folder(folder@, store@, r),
{
    if same_path(folder, store) {
        GpgIdSearch::Done(Ok(join_path(store, ".gpg-id")))
    } else {
        GpgIdSearch::LookIn(folder.to_owned())
    }
}

/// Starts the search for the `.gpg-id` closest to `path` (`is_file` tells
/// whether it is a file): a file is governed by its folder's.
pub fn get_closest_gpg_id(path: &str, is_file: bool, store: &str) -> (r: GpgIdSearch)
    ensures
        !is_file ==> search_folder(path@, store@, r),
        is_file && parent_of(path@) is None ==> (r matches GpgIdSearch::Done(Err(PassrsError::Plain(m)))
            && m@ == "file's parent doesn't exist"@),
        is_file ==> (parent_of(path@) matches Some(q) ==> search_folder(q, store@, r)),
{
    if is_file {
        match path_parent(path) {
            Some(q) => step_into(q.as_str(), store),
            None => GpgIdSearch::Done(Err(PassrsError::Plain("file's parent doesn't exist".to_owned()))),
        }
    } else {
        step_into(path, store)
    }
}

/// Goes on with the search after looking into `folder`: a `.gpg-id` found
/// there ends it; otherwise the search moves to the parent folder.
pub fn gpg_id_search_next(folder: &str, found: Option<String>, store: &str) -> (r: GpgIdSearch)
    ensures
        found matches Some(f) ==> (r matches GpgIdSearch::Done(Ok(g)) && g@ == f@),
        found is None && parent_of(folder@) is None ==> (r matches GpgIdSearch::Done(
            Err(PassrsError::Plain(m)),
        ) && m@ == "path's parent doesn't exist"@),
        found is None ==> (parent_of(folder@) matches Some(q) ==> search_folder(q, store@, r)),
{
    match found {
        Some(f) => GpgIdSearch::Done(Ok(f)),
        None => match path_parent(folder) {
            Some(q) => step_into(q.as_str(), store),
            None => GpgIdSearch::Done(Err(PassrsError::Plain("path's parent doesn't exist".to_owned()))),
        },
    }
}

/// The file that `find_gpg_id` looks for in a folder: an entry named
/// `.gpg-id` (entries starting with `.git` are passed over, which never
/// excludes it).
pub fn is_gpg_id_name(name: &str) -> (r: bool)
    ensures
        r == (name@ == ".gpg-id"@),
{
    let nc = chars_of(name);
    let id = chars_of(".gpg-id");
    chars_eq(nc.as_slice(), id.as_slice())
}

/// The first of a folder's entry names that is `.gpg-id`, as `find_gpg_id`
/// finds it; `None` where there is none.
pub fn gpg_id_position(names: &Vec<String>) -> (r: Option<usize>)
    ensures
        match r {
            Some(i) => i < names@.len() && names@[i as int]@ == ".gpg-id"@ && forall|j: int|
                0 <= j < i ==> (#[trigger] names@[j])@ != ".gpg-id"@,
            None => forall|j: int| 0 <= j < names@.len() ==> (#[trigger] names@[j])@ != ".gpg-id"@,
        },
{
    let mut i: usize = 0;
    while i < names.len()
        invariant
            i <= names@.len(),
            forall|j: int| 0 <= j < i ==> (#[trigger] names@[j])@ != ".gpg-id"@,
        decreases names.len() - i,
    {
        if is_gpg_id_name(names[i].as_str()) {
            return Some(i);
        }
        i += 1;
    }
    None
}

/// What copying an entry does, by what it is.
#[derive(Debug, Clone, Copy, PartialEq, Eq, Structural)]
pub enum CopyAction {
    /// Copy the file, first creating the folders to it where the destination
    /// does not exist.
    File { create_dirs: bool },
    /// Create the destination folder and copy each entry into it.
    Folder,
    /// Neither a file nor a folder: nothing to copy.
    Nothing,
}

/// What copying a source does: a file is copied, a folder copied entry by
/// entry, unless it is the folder being copied into (`root` is the device and
/// inode of the first destination folder, `id` those of the source), which
/// would never end.
pub fn copy_step(is_file: bool, is_dir: bool, dest_exists: bool, root: Option<(u64, u64)>, id: (u64, u64)) -> (r: Result<CopyAction, PassrsError>)
    ensures
        is_file ==> r == Ok::<CopyAction, PassrsError>(CopyAction::File { create_dirs: !dest_exists }),
        !is_file && is_dir && root == Some(id) ==> r == Err::<CopyAction, PassrsError>(
            PassrsError::SourceIsDestination,
        ),
        !is_file && is_dir && root != Some(id) ==> r == Ok::<CopyAction, PassrsError>(CopyAction::Folder),
        !is_file && !is_dir ==> r == Ok::<CopyAction, PassrsError>(CopyAction::Nothing),
{
    if is_file {
        Ok(CopyAction::File { create_dirs: !dest_exists })
    } else if is_dir {
        match root {
            Some(r) => {
                if r.0 == id.0 && r.1 == id.1 {
                    Err(PassrsError::SourceIsDestination)
                } else {
                    Ok(CopyAction::Folder)
                }
            },
            None => Ok(CopyAction::Folder),
        }
    } else {
        Ok(CopyAction::Nothing)
    }
}

} // verus!
