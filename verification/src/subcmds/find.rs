//! How `find` and `grep` name the entries they report.
use crate::error::PassrsError;
use crate::paths::{
    byte_slice, gpg_at, last_gpg, lemma_after_ascii_is_boundary, lemma_ascii_byte_is_boundary,
    lemma_last_gpg_before, rfind_gpg,
};
use crate::style::{bold, fg_blue, no_bold, reset};
use crate::text::push_str;
use vstd::prelude::*;
use vstd::string::StringSliceAdditionalSpecFns;
use vstd::utf8::{decode_utf8, encode_utf8_valid_utf8, is_char_boundary};

verus! {

/// The last `'/'` before byte `i` of `b`.
pub open spec fn last_slash_before(b: Seq<u8>, i: int) -> Option<int>
    decreases i,
{
    if i <= 0 {
        None
    } else if b[i - 1] == 0x2fu8 {
        Some(i - 1)
    } else {
        last_slash_before(b, i - 1)
    }
}

proof fn lemma_last_slash_before(b: Seq<u8>, i: int)
    requires
        i <= b.len(),
    ensures
        last_slash_before(b, i) matches Some(j) ==> 0 <= j < i && b[j] == 0x2fu8,
    decreases i,
{
    if i > 0 {
        lemma_last_slash_before(b, i - 1);
    }
}

/// Where `str::rfind('/')` finds the last `'/'` of `b`.
pub open spec fn last_slash_byte(b: Seq<u8>) -> Option<int> {
    last_slash_before(b, b.len() as int)
}

fn rfind_slash(s: &str) -> (r: Option<usize>)
    ensures
        r matches Some(i) ==> last_slash_byte(s.spec_bytes()) == Some(i as int),
        r is None ==> last_slash_byte(s.spec_bytes()) is None,
{
    let b = s.as_bytes();
    let n = b.len();
    let mut i: usize = n;
    while i > 0
        invariant
            i <= n,
            n == b@.len(),
            b@ == s.spec_bytes(),
            last_slash_before(b@, n as int) == last_slash_before(b@, i as int),
        decreases i,
    {
        if b[i - 1] == 0x2f {
            return Some(i - 1);
        }
        i -= 1;
    }
    None
}

/// The two parts under which a match is reported: its folder within the store
/// (from byte `store_len` up to and with its last `'/'`), and its file name
/// up to the last `.gpg`.
pub open spec fn match_parts(b: Seq<u8>, store_len: int) -> (Seq<char>, Seq<char>) {
    let sep = last_slash_byte(b)->0 + 1;
    let end = last_gpg(b)->0;
    (decode_utf8(b.subrange(store_len, sep)), decode_utf8(b.subrange(sep, end)))
}

/// The match can be cut into its parts: after its store part comes a `'/'`,
/// and after the last `'/'` a `.gpg`.
pub open spec fn match_cuttable(b: Seq<u8>, store_len: int) -> bool {
    last_slash_byte(b) matches Some(k) ==> {
        &&& store_len <= k + 1
        &&& is_char_boundary(b, store_len)
        &&& last_gpg(b) matches Some(g) && k + 1 <= g
    }
}

/// Splits a matched path into the parts under which it is reported; a path
/// without a folder is an error.
pub fn match_display(matched: &str, store_len: usize) -> (r: Result<(String, String), PassrsError>)
    requires
        match_cuttable(matched.spec_bytes(), store_len as int),
    ensures
        last_slash_byte(matched.spec_bytes()) is None ==> (r matches Err(PassrsError::Plain(m)) && m@
            == "Path did not contain a folder"@),
        last_slash_byte(matched.spec_bytes()) is Some ==> (r matches Ok(p) && p.0@ == match_parts(
            matched.spec_bytes(),
            store_len as int,
        ).0 && p.1@ == match_parts(matched.spec_bytes(), store_len as int).1),
{
    let ghost b = matched.spec_bytes();
    proof {
        encode_utf8_valid_utf8(matched@);
        lemma_last_slash_before(b, b.len() as int);
        lemma_last_gpg_before(b, b.len() as int);
    }
    let n = matched.as_bytes().len();
    match rfind_slash(matched) {
        None => Err(PassrsError::Plain("Path did not contain a folder".to_owned())),
        Some(k) => {
            assert(k < n);
            let sep = k + 1;
            let end = match rfind_gpg(matched) {
                Some(g) => g,
                None => {
                    assert(false);
                    0
                },
            };
            proof {
                lemma_ascii_byte_is_boundary(b, k as int);
                lemma_after_ascii_is_boundary(b, k as int);
                lemma_ascii_byte_is_boundary(b, end as int);
            }
            let pre = byte_slice(matched, store_len, sep).to_owned();
            let file = byte_slice(matched, sep, end).to_owned();
            Ok((pre, file))
        },
    }
}

/// A line of `find`: the folder in bold blue, the file name in blue.
pub fn find_line(pre: &str, file: &str) -> (r: String)
    ensures
        r@ == "\u{1b}[38;5;4m"@ + "\u{1b}[1m"@ + pre@ + "\u{1b}[21m"@ + file@ + "\u{1b}[m"@,
{
    let mut m = fg_blue();
    let b = bold();
    push_str(&mut m, b.as_str());
    push_str(&mut m, pre);
    let nb = no_bold();
    push_str(&mut m, nb.as_str());
    push_str(&mut m, file);
    let z = reset();
    push_str(&mut m, z.as_str());
    m
}

/// The heading of an entry in the output of `grep`: the folder in bold.
pub fn grep_heading(pre: &str, file: &str) -> (r: String)
    ensures
        r@ == "\u{1b}[1m"@ + pre@ + "\u{1b}[21m"@ + file@,
{
    let mut m = bold();
    push_str(&mut m, pre);
    let nb = no_bold();
    push_str(&mut m, nb.as_str());
    push_str(&mut m, file);
    m
}

} // verus!
