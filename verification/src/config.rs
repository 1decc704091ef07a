//! The settings of the store, as they follow from the environment.
use crate::error::PassrsError;
use crate::text::{chars_of, parse_radix, parse_result, parse_result_radix, push_str, string_of, IntErrorKind};
use vstd::prelude::*;

verus! {

/// The store's folder: `PASSWORD_STORE_DIR` where it is set, else
/// `.password-store/` in the home folder.
pub fn store_dir(configured: Option<&str>, home: &str) -> (r: String)
    ensures
        configured matches Some(d) ==> r@ == d@,
        configured is None ==> r@ == home@ + "/.password-store/"@,
{
    match configured {
        Some(d) => d.to_owned(),
        None => {
            let mut s = home.to_owned();
            push_str(&mut s, "/.password-store/");
            s
        },
    }
}

/// The words of `s` between single spaces, without empty ones (as
/// `split(' ')` and a filter on empty words give them).
pub open spec fn words(s: Seq<char>) -> Seq<Seq<char>>
    decreases s.len(),
{
    words_from(s, 0, Seq::empty())
}

/// The words of `s` from position `i` on, `current` being the part of a word
/// read before `i`.
pub open spec fn words_from(s: Seq<char>, i: int, current: Seq<char>) -> Seq<Seq<char>>
    decreases s.len() - i,
{
    if i >= s.len() {
        if current.len() > 0 {
            seq![current]
        } else {
            Seq::empty()
        }
    } else if s[i] == ' ' {
        if current.len() > 0 {
            seq![current] + words_from(s, i + 1, Seq::empty())
        } else {
            words_from(s, i + 1, Seq::empty())
        }
    } else {
        words_from(s, i + 1, current.push(s[i]))
    }
}

/// The keys named by `PASSWORD_STORE_KEY` or `PASSWORD_STORE_SIGNING_KEY`:
/// its words (none where it is not set).
pub fn key_list(configured: Option<&str>) -> (r: Vec<String>)
    ensures
        configured matches Some(s) ==> r@.map_values(|k: String| k@) == words(s@),
        configured is None ==> r@.len() == 0,
{
    let mut keys: Vec<String> = Vec::new();
    match configured {
        None => keys,
        Some(s) => {
            let cs = chars_of(s);
            let mut current: Vec<char> = Vec::new();
            let mut i: usize = 0;
            assert(keys@.map_values(|k: String| k@) =~= Seq::<Seq<char>>::empty());
            assert(Seq::<Seq<char>>::empty() + words_from(cs@, 0, current@) =~= words(s@));
            while i < cs.len()
                invariant
                    i <= cs@.len(),
                    cs@ == s@,
                    keys@.map_values(|k: String| k@) + words_from(cs@, i as int, current@) == words(s@),
                decreases cs.len() - i,
            {
                let ghost before = keys@.map_values(|k: String| k@);
                let ghost cur = current@;
                if cs[i] == ' ' {
                    if current.len() > 0 {
                        let w = string_of(current.as_slice());
                        keys.push(w);
                        assert(keys@.map_values(|k: String| k@) =~= before.push(cur));
                        current = Vec::new();
                        assert(words_from(cs@, i as int, cur) == seq![cur] + words_from(cs@, i + 1, Seq::empty()));
                        assert(before.push(cur) + words_from(cs@, i + 1, Seq::empty()) =~= before + (seq![cur]
                            + words_from(cs@, i + 1, Seq::empty())));
                    } else {
                        assert(cur =~= Seq::<char>::empty());
                    }
                    assert(current@ =~= Seq::<char>::empty());
                } else {
                    current.push(cs[i]);
                }
                i += 1;
            }
            if current.len() > 0 {
                let ghost before = keys@.map_values(|k: String| k@);
                let w = string_of(current.as_slice());
                keys.push(w);
                assert(keys@.map_values(|k: String| k@) =~= before.push(current@));
                assert(before + seq![current@] =~= before.push(current@));
            } else {
                assert(keys@.map_values(|k: String| k@) + Seq::<Seq<char>>::empty() =~= keys@.map_values(
                    |k: String| k@,
                ));
            }
            keys
        },
    }
}

/// The umask of the store: `PASSWORD_STORE_UMASK` read in octal, `077` where
/// it is not set; the error of reading it otherwise.
pub fn umask(configured: Option<&str>) -> (r: Result<u32, IntErrorKind>)
    ensures
        ({
            let text = match configured {
                Some(s) => s@,
                None => "077"@,
            };
            match parse_result_radix(text, u32::MAX as nat, 8) {
                Ok(v) => r == Ok::<u32, IntErrorKind>(v as u32),
                Err(e) => r == Err::<u32, IntErrorKind>(e),
            }
        }),
{
    let text = match configured {
        Some(s) => chars_of(s),
        None => chars_of("077"),
    };
    match parse_radix(text.as_slice(), u32::MAX as u64, 8) {
        Ok(v) => Ok(v as u32),
        Err(e) => Err(e),
    }
}

/// The mode of a new file or folder whose mode would be `mode`, with the bits
/// of the umask taken away.
pub fn masked_mode(mode: u32, umask: u32) -> (r: u32)
    ensures
        r == mode & !umask,
{
    assert(mode & umask <= mode) by (bit_vector);
    assert(mode - (mode & umask) == mode & !umask) by (bit_vector);
    mode - (mode & umask)
}

/// The default length of generated secrets: `PASSWORD_STORE_GENERATED_LENGTH`
/// read as a number, 24 where it is not set; the error of reading it
/// otherwise.
pub fn generated_length(configured: Option<&str>) -> (r: Result<usize, IntErrorKind>)
    ensures
        ({
            let text = match configured {
                Some(s) => s@,
                None => "24"@,
            };
            match parse_result(text, usize::MAX as nat) {
                Ok(v) => r == Ok::<usize, IntErrorKind>(v as usize),
                Err(e) => r == Err::<usize, IntErrorKind>(e),
            }
        }),
{
    let text = match configured {
        Some(s) => chars_of(s),
        None => chars_of("24"),
    };
    match parse_radix(text.as_slice(), usize::MAX as u64, 10) {
        Ok(v) => Ok(v as usize),
        Err(e) => Err(e),
    }
}

/// A setting that has a default: the value where it is set, else the default.
pub fn setting_or(configured: Option<&str>, default: &str) -> (r: String)
    ensures
        configured matches Some(s) ==> r@ == s@,
        configured is None ==> r@ == default@,
{
    match configured {
        Some(s) => s.to_owned(),
        None => default.to_owned(),
    }
}

/// The version text: the crate's version, with the commit it was built from in
/// parentheses where that is known.
pub fn version_string(version: &str, commit: &str) -> (r: String)
    ensures
        commit@.len() > 0 ==> r@ == version@ + " ("@ + commit@ + ")"@,
        commit@.len() == 0 ==> r@ == version@,
{
    let cc = chars_of(commit);
    if cc.len() > 0 {
        let mut s = version.to_owned();
        push_str(&mut s, " (");
        push_str(&mut s, commit);
        push_str(&mut s, ")");
        s
    } else {
        version.to_owned()
    }
}

} // verus!
