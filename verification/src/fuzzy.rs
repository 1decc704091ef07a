//! Closest-match search over a dictionary of words, by the share of common
//! substrings ("bags of words" of several sizes).
use vstd::prelude::*;
use vstd::string::StringSliceAdditionalSpecFns;
use vstd::utf8::{
    decode_utf8, encode_utf8, encode_utf8_decode_utf8, encode_utf8_valid_utf8, is_char_boundary,
    is_char_boundary_iff_not_is_continuation_byte, is_char_boundary_start_end_of_seq, valid_utf8,
    valid_utf8_split,
};

use crate::text::{ascii_lower, is_ascii_text, lemma_ascii_lower_idempotent};

verus! {

/// What `str::to_lowercase` returns for the characters `s` (Unicode lower case).
pub uninterp spec fn str_lowercase(s: Seq<char>) -> Seq<char>;

/// Calls `str::to_lowercase`. Trusted: the result is `str_lowercase` of the
/// input; on ASCII text, Unicode lower-casing maps `A`..`Z` to `a`..`z` and
/// leaves every other character as it is, which is ASCII lower-casing.
#[verifier::external_body]
fn to_lowercase(s: &str) -> (r: String)
    ensures
        r@ == str_lowercase(s@),
        is_ascii_text(s@) ==> r@ == ascii_lower(s@),
{
    s.to_lowercase()
}

/// The views of a sequence of strings.
pub open spec fn views(v: Seq<String>) -> Seq<Seq<char>> {
    v.map_values(|s: String| s@)
}

/// The byte window `x..x + size` of `b` starts and ends on character boundaries.
pub open spec fn window_ok(b: Seq<u8>, x: int, size: int) -> bool {
    is_char_boundary(b, x) && is_char_boundary(b, x + size)
}

/// Every window that splitting `b` by `sizes` takes is cut at character
/// boundaries (slicing a `str` elsewhere panics).
pub open spec fn windows_ok(b: Seq<u8>, sizes: Seq<usize>) -> bool {
    forall|si: int, x: int|
        0 <= si < sizes.len() && sizes[si] <= b.len() && 0 <= x <= b.len() - sizes[si]
            ==> #[trigger] window_ok(b, x, sizes[si] as int)
}

/// The lower-cased text of the byte window `x..x + size` of `b`.
pub open spec fn window(b: Seq<u8>, x: int, size: int) -> Seq<char> {
    str_lowercase(decode_utf8(b.subrange(x, x + size)))
}

/// The windows taken for the sizes before number `si`, and for size number `si`
/// the windows starting before `x`.
pub open spec fn windows_before(b: Seq<u8>, sizes: Seq<usize>, si: int, x: int) -> Set<Seq<char>> {
    Set::new(
        |t: Seq<char>|
            exists|sj: int, y: int|
                0 <= sj < sizes.len() && sizes[sj] <= b.len() && 0 <= y <= b.len() - sizes[sj] && (
                sj < si || (sj == si && y < x)) && t == #[trigger] window(b, y, sizes[sj] as int),
    )
}

/// The set of substrings of a word (as bytes `b`): for every size that is not
/// longer than the word, every window of that many bytes, lower-cased.
pub open spec fn substring_set(b: Seq<u8>, sizes: Seq<usize>) -> Set<Seq<char>> {
    windows_before(b, sizes, sizes.len() as int, 0)
}

/// A word and the set of its substrings.
pub struct SplitWord {
    pub word: String,
    pub substrings: Vec<String>,
}

fn contains_string(v: &Vec<String>, s: &String) -> (r: bool)
    ensures
        r == views(v@).contains(s@),
{
    let mut i: usize = 0;
    while i < v.len()
        invariant
            i <= v.len(),
            forall|j: int| 0 <= j < i ==> v@[j]@ != s@,
        decreases v.len() - i,
    {
        if v[i] == *s {
            assert(views(v@)[i as int] == s@);
            return true;
        }
        i += 1;
    }
    assert(!views(v@).contains(s@)) by {
        if views(v@).contains(s@) {
            let j = choose|j: int| 0 <= j < views(v@).len() && views(v@)[j] == s@;
            assert(v@[j]@ == s@);
        }
    }
    false
}

/// The text of the byte window `x..x + size` of `word`.
fn window_str(word: &str, x: usize, size: usize) -> (piece: &str)
    requires
        x + size <= encode_utf8(word@).len(),
        window_ok(encode_utf8(word@), x as int, size as int),
    ensures
        piece@ == decode_utf8(encode_utf8(word@).subrange(x as int, x + size)),
{
    let ghost b = encode_utf8(word@);
    proof {
        encode_utf8_valid_utf8(word@);
        valid_utf8_split(b, x as int);
        let rest = b.subrange(x as int, b.len() as int);
        if size as int == rest.len() {
            is_char_boundary_start_end_of_seq(rest);
        } else if size > 0 {
            is_char_boundary_iff_not_is_continuation_byte(rest, size as int);
            is_char_boundary_iff_not_is_continuation_byte(b, x + size);
            assert(rest[size as int] == b[x + size]);
        }
    }
    let (_, rest) = word.split_at(x);
    let (piece, _) = rest.split_at(size);
    proof {
        assert(piece.spec_bytes() =~= b.subrange(x as int, x + size));
        encode_utf8_decode_utf8(piece@);
    }
    piece
}

/// Splits `word` into the set of its lower-cased substrings of the given sizes.
pub fn split_word(word: &str, sizes: &[usize]) -> (sw: SplitWord)
    requires
        windows_ok(encode_utf8(word@), sizes@),
    ensures
        sw.word@ == word@,
        views(sw.substrings@).no_duplicates(),
        views(sw.substrings@).to_set() == substring_set(encode_utf8(word@), sizes@),
{
    let ghost b = encode_utf8(word@);
    let len = word.as_bytes().len();
    let mut substrings: Vec<String> = Vec::new();
    let mut si: usize = 0;
    while si < sizes.len()
        invariant
            si <= sizes@.len(),
            len == b.len(),
            b == encode_utf8(word@),
            windows_ok(b, sizes@),
            views(substrings@).no_duplicates(),
            views(substrings@).to_set() == windows_before(b, sizes@, si as int, 0),
        decreases sizes.len() - si,
    {
        let size = sizes[si];
        if size <= len {
            let mut x: usize = 0;
            loop
                invariant_except_break
                    x <= len - size,
                    views(substrings@).to_set() == windows_before(b, sizes@, si as int, x as int),
                invariant
                    si < sizes@.len(),
                    size == sizes@[si as int],
                    size <= len == b.len(),
                    b == encode_utf8(word@),
                    windows_ok(b, sizes@),
                    views(substrings@).no_duplicates(),
                ensures
                    views(substrings@).to_set() == windows_before(b, sizes@, si as int + 1, 0),
                decreases len - size - x,
            {
                assert(window_ok(b, x as int, sizes@[si as int] as int));
                let piece = window_str(word, x, size);
                let sub = to_lowercase(piece);
                let ghost before = views(substrings@);
                if !contains_string(&substrings, &sub) {
                    substrings.push(sub);
                    assert(views(substrings@) =~= before.push(sub@));
                    proof {
                        before.lemma_push_to_set_commute(sub@);
                    }
                }
                assert(views(substrings@).to_set() =~= windows_before(b, sizes@, si as int, x + 1)) by {
                    assert(sub@ == window(b, x as int, size as int));
                    assert forall|t: Seq<char>| windows_before(b, sizes@, si as int, x + 1).contains(t)
                        implies #[trigger] views(substrings@).to_set().contains(t) by {
                        let (sj, y) = choose|sj: int, y: int|
                            0 <= sj < sizes@.len() && sizes@[sj] <= b.len() && 0 <= y <= b.len()
                                - sizes@[sj] && (sj < si || (sj == si && y < x + 1)) && t
                                == #[trigger] window(b, y, sizes@[sj] as int);
                        if !(sj == si && y == x) {
                            assert(windows_before(b, sizes@, si as int, x as int).contains(t));
                        }
                    }
                    assert forall|t: Seq<char>| #[trigger] views(substrings@).to_set().contains(t)
                        implies windows_before(b, sizes@, si as int, x + 1).contains(t) by {
                        if t != sub@ {
                            assert(before.to_set().contains(t));
                            let (sj, y) = choose|sj: int, y: int|
                                0 <= sj < sizes@.len() && sizes@[sj] <= b.len() && 0 <= y <= b.len()
                                    - sizes@[sj] && (sj < si || (sj == si && y < x)) && t
                                    == #[trigger] window(b, y, sizes@[sj] as int);
                        } else {
                            assert(t == window(b, x as int, sizes@[si as int] as int));
                        }
                    }
                }
                if x == len - size {
                    assert(windows_before(b, sizes@, si as int + 1, 0) =~= windows_before(
                        b,
                        sizes@,
                        si as int,
                        x + 1,
                    ));
                    break;
                }
                x += 1;
            }
        } else {
            assert(windows_before(b, sizes@, si as int + 1, 0) =~= windows_before(
                b,
                sizes@,
                si as int,
                0,
            ));
        }
        si += 1;
    }
    SplitWord { word: word.to_owned(), substrings }
}

/// A score: the number of substrings that two words share, and the sum of the
/// sizes of their substring sets. It stands for the quotient of the two.
pub open spec fn score(w: Set<Seq<char>>, p: Set<Seq<char>>) -> (nat, nat) {
    (w.intersect(p).len(), w.len() + p.len())
}

/// `a <= b` between the quotients that two scores stand for; a score whose sum
/// is zero stands for NaN, which compares false with anything.
pub open spec fn score_le(a: (nat, nat), b: (nat, nat)) -> bool {
    a.1 > 0 && b.1 > 0 && a.0 * b.1 <= b.0 * a.1
}

/// The index that `Iterator::max_by` keeps when each element replaces the one
/// kept so far unless the kept one compares greater: among equally good
/// elements the last wins, and a NaN kept first is never replaced.
pub open spec fn max_by_index(s: Seq<(nat, nat)>) -> int
    decreases s.len(),
{
    if s.len() <= 1 {
        0
    } else {
        let prev = max_by_index(s.drop_last());
        if score_le(s[prev], s.last()) {
            s.len() - 1
        } else {
            prev
        }
    }
}

/// The distinct words of `s` in the order of their first occurrence.
pub open spec fn first_occurrences(s: Seq<Seq<char>>) -> Seq<Seq<char>>
    decreases s.len(),
{
    if s.len() == 0 {
        Seq::empty()
    } else {
        let p = first_occurrences(s.drop_last());
        if p.contains(s.last()) {
            p
        } else {
            p.push(s.last())
        }
    }
}

/// No word occurs twice among the first occurrences.
pub proof fn lemma_first_occurrences_distinct(s: Seq<Seq<char>>)
    ensures
        first_occurrences(s).no_duplicates(),
        forall|t: Seq<char>| first_occurrences(s).contains(t) <==> s.contains(t),
    decreases s.len(),
{
    if s.len() > 0 {
        lemma_first_occurrences_distinct(s.drop_last());
        let p = first_occurrences(s.drop_last());
        assert forall|t: Seq<char>| first_occurrences(s).contains(t) <==> s.contains(t) by {
            let d = s.drop_last();
            assert(s == d.push(s.last()));
            assert(s.contains(t) <==> (d.contains(t) || t == s.last())) by {
                if s.contains(t) && t != s.last() {
                    let k = choose|k: int| 0 <= k < s.len() && s[k] == t;
                    assert(d[k] == t);
                }
                if d.contains(t) {
                    let k = choose|k: int| 0 <= k < d.len() && d[k] == t;
                    assert(s[k] == t);
                }
                if t == s.last() {
                    assert(s[s.len() - 1] == t);
                }
            }
            if !p.contains(s.last()) {
                let q = p.push(s.last());
                assert(q.contains(t) <==> (p.contains(t) || t == s.last())) by {
                    if q.contains(t) && t != s.last() {
                        let k = choose|k: int| 0 <= k < q.len() && q[k] == t;
                        assert(p[k] == t);
                    }
                    if p.contains(t) {
                        let k = choose|k: int| 0 <= k < p.len() && p[k] == t;
                        assert(q[k] == t);
                    }
                    if t == s.last() {
                        assert(q[q.len() - 1] == t);
                    }
                }
            }
        }
        if !p.contains(s.last()) {
            let q = p.push(s.last());
            assert forall|i: int, j: int| 0 <= i < q.len() && 0 <= j < q.len() && i != j implies q[i] != q[j] by {
                if i == q.len() - 1 {
                    assert(p[j] == q[j]);
                } else if j == q.len() - 1 {
                    assert(p[i] == q[i]);
                }
            }
        }
    }
}

/// A dictionary of known words with the substring sets of each, and the sizes
/// of the substrings.
pub struct ClosestMatchView {
    pub entries: Seq<(Seq<char>, Set<Seq<char>>)>,
    pub sizes: Seq<usize>,
}

/// The dictionary of known words and the sizes of the bags of words.
#[derive(Debug)]
pub struct ClosestMatch {
    substrings: Vec<(String, Vec<String>)>,
    substring_sizes: Vec<usize>,
}

pub open spec fn entry_view(e: (String, Vec<String>)) -> (Seq<char>, Set<Seq<char>>) {
    (e.0@, views(e.1@).to_set())
}

impl View for ClosestMatch {
    type V = ClosestMatchView;

    closed spec fn view(&self) -> ClosestMatchView {
        ClosestMatchView {
            entries: self.substrings@.map_values(|e: (String, Vec<String>)| entry_view(e)),
            sizes: self.substring_sizes@,
        }
    }
}

/// The keys of a dictionary.
pub open spec fn keys(entries: Seq<(Seq<char>, Set<Seq<char>>)>) -> Seq<Seq<char>> {
    entries.map_values(|e: (Seq<char>, Set<Seq<char>>)| e.0)
}

/// The scores of every dictionary entry against a word with substring set `w`.
pub open spec fn scores(entries: Seq<(Seq<char>, Set<Seq<char>>)>, w: Set<Seq<char>>) -> Seq<(nat, nat)> {
    entries.map_values(|e: (Seq<char>, Set<Seq<char>>)| score(w, e.1))
}

/// The lower-cased dictionary words.
pub open spec fn lowered(dictionary: Seq<String>) -> Seq<Seq<char>> {
    dictionary.map_values(|s: String| str_lowercase(s@))
}

/// Every word of the dictionary is ASCII text.
pub open spec fn ascii_words(dictionary: Seq<String>) -> bool {
    forall|i: int| 0 <= i < dictionary.len() ==> is_ascii_text(#[trigger] dictionary[i]@)
}

/// The dictionary words, ASCII lower-cased.
pub open spec fn ascii_lowered(dictionary: Seq<String>) -> Seq<Seq<char>> {
    dictionary.map_values(|s: String| ascii_lower(s@))
}

/// Each dictionary word, lower-cased, splits without panicking.
pub open spec fn dictionary_ok(dictionary: Seq<String>, sizes: Seq<usize>) -> bool {
    forall|i: int| 0 <= i < dictionary.len() ==> windows_ok(encode_utf8(#[trigger] lowered(dictionary)[i]), sizes)
}

impl ClosestMatch {
    #[verifier::type_invariant]
    spec fn wf(&self) -> bool {
        &&& forall|i: int, j: int|
            0 <= i < j < self.substrings@.len() ==> (#[trigger] self.substrings@[i]).0@
                != (#[trigger] self.substrings@[j]).0@
        &&& forall|i: int|
            0 <= i < self.substrings@.len() ==> {
                &&& views((#[trigger] self.substrings@[i]).1@).no_duplicates()
                &&& views(self.substrings@[i].1@).to_set() == substring_set(
                    encode_utf8(self.substrings@[i].0@),
                    self.substring_sizes@,
                )
            }
    }

    /// Every entry's set is that of its key, and no key repeats.
    pub closed spec fn entries_wf(v: ClosestMatchView) -> bool {
        &&& keys(v.entries).no_duplicates()
        &&& forall|i: int|
            0 <= i < v.entries.len() ==> (#[trigger] v.entries[i]).1 == substring_set(
                encode_utf8(v.entries[i].0),
                v.sizes,
            )
    }

    /// Builds the dictionary from `dictionary` (each word lower-cased; a word
    /// that repeats is kept once) and the substring `sizes`.
    pub fn new(dictionary: Vec<String>, sizes: Vec<usize>) -> (cm: ClosestMatch)
        requires
            dictionary_ok(dictionary@, sizes@),
        ensures
            built_from(cm@, dictionary@, sizes@),
            ascii_words(dictionary@) ==> built_from_ascii(cm@, dictionary@, sizes@),
    {
        let mut substrings: Vec<(String, Vec<String>)> = Vec::new();
        let mut i: usize = 0;
        assert(lowered(dictionary@).take(0) =~= Seq::<Seq<char>>::empty());
        while i < dictionary.len()
            invariant
                i <= dictionary@.len(),
                dictionary_ok(dictionary@, sizes@),
                forall|k: int|
                    0 <= k < i && is_ascii_text(dictionary@[k]@) ==> #[trigger] lowered(dictionary@)[k]
                        == ascii_lower(dictionary@[k]@),
                substrings@.map_values(|e: (String, Vec<String>)| e.0@) == first_occurrences(
                    lowered(dictionary@).take(i as int),
                ),
                substrings@.map_values(|e: (String, Vec<String>)| e.0@).no_duplicates(),
                forall|k: int|
                    0 <= k < substrings@.len() ==> {
                        &&& views((#[trigger] substrings@[k]).1@).no_duplicates()
                        &&& views(substrings@[k].1@).to_set() == substring_set(
                            encode_utf8(substrings@[k].0@),
                            sizes@,
                        )
                    },
            decreases dictionary.len() - i,
        {
            let lower = to_lowercase(dictionary[i].as_str());
            let ghost prev = substrings@.map_values(|e: (String, Vec<String>)| e.0@);
            assert(lowered(dictionary@)[i as int] == lower@);
            assert(lowered(dictionary@).take(i + 1).drop_last() =~= lowered(dictionary@).take(i as int));
            let mut found = false;
            let mut k: usize = 0;
            while k < substrings.len()
                invariant
                    k <= substrings@.len(),
                    !found ==> forall|m: int| 0 <= m < k ==> substrings@[m].0@ != lower@,
                    found ==> prev.contains(lower@),
                    prev == substrings@.map_values(|e: (String, Vec<String>)| e.0@),
                decreases substrings.len() - k,
            {
                if substrings[k].0 == lower {
                    assert(prev[k as int] == lower@);
                    found = true;
                }
                k += 1;
            }
            if !found {
                assert(!prev.contains(lower@)) by {
                    if prev.contains(lower@) {
                        let m = choose|m: int| 0 <= m < prev.len() && prev[m] == lower@;
                        assert(substrings@[m].0@ == lower@);
                    }
                }
                assert(windows_ok(encode_utf8(lowered(dictionary@)[i as int]), sizes@));
                let sw = split_word(lower.as_str(), sizes.as_slice());
                substrings.push((sw.word, sw.substrings));
                assert(substrings@.map_values(|e: (String, Vec<String>)| e.0@) =~= prev.push(lower@));
            }
            proof {
                lemma_first_occurrences_distinct(lowered(dictionary@).take(i + 1));
            }
            i += 1;
        }
        assert(lowered(dictionary@).take(dictionary.len() as int) =~= lowered(dictionary@));
        assert forall|a: int, c: int| 0 <= a < c < substrings@.len() implies (#[trigger] substrings@[a]).0@
            != (#[trigger] substrings@[c]).0@ by {
            let m = substrings@.map_values(|e: (String, Vec<String>)| e.0@);
            assert(m[a] == substrings@[a].0@);
            assert(m[c] == substrings@[c].0@);
        }
        let cm = ClosestMatch { substrings, substring_sizes: sizes };
        assert(keys(cm@.entries) =~= substrings@.map_values(|e: (String, Vec<String>)| e.0@));
        proof {
            if ascii_words(dictionary@) {
                assert(lowered(dictionary@) =~= ascii_lowered(dictionary@)) by {
                    assert forall|k: int| 0 <= k < dictionary@.len() implies lowered(dictionary@)[k]
                        == ascii_lowered(dictionary@)[k] by {
                        assert(is_ascii_text(dictionary@[k]@));
                    }
                }
            }
        }
        cm
    }
}


/// Whether every window that splitting `word` by `sizes` takes is cut at
/// character boundaries, so that `split_word` can take it.
pub fn word_splits(word: &str, sizes: &[usize]) -> (r: bool)
    ensures
        r == windows_ok(encode_utf8(word@), sizes@),
{
    let ghost b = encode_utf8(word@);
    let len = word.as_bytes().len();
    let mut si: usize = 0;
    while si < sizes.len()
        invariant
            si <= sizes@.len(),
            len == b.len(),
            b == encode_utf8(word@),
            forall|sj: int, x: int|
                0 <= sj < si && sizes@[sj] <= b.len() && 0 <= x <= b.len() - sizes@[sj]
                    ==> #[trigger] window_ok(b, x, sizes@[sj] as int),
        decreases sizes.len() - si,
    {
        let size = sizes[si];
        if size <= len {
            let mut x: usize = 0;
            loop
                invariant
                    si < sizes@.len(),
                    size == sizes@[si as int],
                    size <= len == b.len(),
                    b == encode_utf8(word@),
                    x <= len - size,
                    forall|y: int| 0 <= y < x ==> #[trigger] window_ok(b, y, size as int),
                    forall|sj: int, y: int|
                        0 <= sj < si && sizes@[sj] <= b.len() && 0 <= y <= b.len() - sizes@[sj]
                            ==> #[trigger] window_ok(b, y, sizes@[sj] as int),
                ensures
                    forall|y: int| 0 <= y <= len - size ==> #[trigger] window_ok(b, y, size as int),
                decreases len - size - x,
            {
                if !(word.is_char_boundary(x) && word.is_char_boundary(x + size)) {
                    assert(!window_ok(b, x as int, sizes@[si as int] as int));
                    return false;
                }
                if x == len - size {
                    break;
                }
                x += 1;
            }
        }
        si += 1;
    }
    true
}

/// What `new` builds: the sizes as given, one entry for each distinct
/// lower-cased dictionary word in the order of first occurrence, and with each
/// entry the substring set of its word.
pub open spec fn built_from(v: ClosestMatchView, dictionary: Seq<String>, sizes: Seq<usize>) -> bool {
    &&& v.sizes == sizes
    &&& keys(v.entries) == first_occurrences(lowered(dictionary))
    &&& forall|i: int|
        0 <= i < v.entries.len() ==> (#[trigger] v.entries[i]).1 == substring_set(
            encode_utf8(v.entries[i].0),
            sizes,
        )
}

/// What `new` builds from a dictionary of ASCII words: `built_from`, where
/// lower-casing the words is ASCII lower-casing.
pub open spec fn built_from_ascii(v: ClosestMatchView, dictionary: Seq<String>, sizes: Seq<usize>) -> bool {
    &&& v.sizes == sizes
    &&& keys(v.entries) == first_occurrences(ascii_lowered(dictionary))
    &&& forall|i: int|
        0 <= i < v.entries.len() ==> (#[trigger] v.entries[i]).1 == substring_set(
            encode_utf8(v.entries[i].0),
            sizes,
        )
}

/// `x * y` as the pair `(hi, lo)` with `x * y == hi * 2^64 + lo` and `lo < 2^64`.
fn wide_mul(x: u128, y: u128) -> (r: (u128, u128))
    requires
        x < 0x1_0000_0000_0000_0000,
        y < 0x4_0000_0000_0000_0000,
    ensures
        r.1 < 0x1_0000_0000_0000_0000,
        r.0 * 0x1_0000_0000_0000_0000 + r.1 == x * y,
{
    let base: u128 = 0x1_0000_0000_0000_0000;
    let y_hi = y / base;
    let y_lo = y % base;
    assert(y_hi <= 3);
    assert(x * y_lo < base * base) by (nonlinear_arith)
        requires
            x < base,
            y_lo < base,
            base == 0x1_0000_0000_0000_0000u128,
    ;
    let p = x * y_lo;
    assert(x * y_hi <= 3 * x) by (nonlinear_arith)
        requires
            y_hi <= 3,
            x >= 0,
    ;
    let hi = x * y_hi + p / base;
    let lo = p % base;
    assert(hi * base + lo == x * y) by (nonlinear_arith)
        requires
            hi == x * y_hi + p / base,
            lo == p % base,
            p == x * y_lo,
            y == y_hi * base + y_lo,
            base > 0,
            p == (p / base) * base + p % base,
    ;
    (hi, lo)
}

/// `score_le` on two computed scores.
fn score_le_exec(a: (usize, u128), b: (usize, u128)) -> (r: bool)
    requires
        a.1 < 0x4_0000_0000_0000_0000,
        b.1 < 0x4_0000_0000_0000_0000,
    ensures
        r == score_le((a.0 as nat, a.1 as nat), (b.0 as nat, b.1 as nat)),
{
    if a.1 == 0 || b.1 == 0 {
        return false;
    }
    let l = wide_mul(a.0 as u128, b.1);
    let r = wide_mul(b.0 as u128, a.1);
    l.0 < r.0 || (l.0 == r.0 && l.1 <= r.1)
}

/// How many items `a` and `b` share, for sequences without duplicates.
proof fn lemma_shared_count(a: Seq<Seq<char>>, b: Set<Seq<char>>, k: int)
    requires
        a.no_duplicates(),
        0 <= k <= a.len(),
    ensures
        a.take(k).to_set().intersect(b).len() == a.take(k).filter(|t: Seq<char>| b.contains(t)).len(),
        a.take(k).to_set().intersect(b).finite(),
    decreases k,
{
    broadcast use vstd::seq_lib::seq_to_set_is_finite;
    let f = |t: Seq<char>| b.contains(t);
    if k == 0 {
        assert(a.take(0).to_set() =~= Set::empty());
        assert(a.take(0).to_set().intersect(b) =~= Set::empty());
        assert(a.take(0).filter(f) =~= Seq::empty());
    } else {
        lemma_shared_count(a, b, k - 1);
        let prev = a.take(k - 1);
        assert(a.take(k) =~= prev.push(a[k - 1]));
        prev.lemma_push_to_set_commute(a[k - 1]);
        prev.lemma_filter_push(a[k - 1], f);
        assert(!prev.to_set().contains(a[k - 1])) by {
            if prev.to_set().contains(a[k - 1]) {
                let j = choose|j: int| 0 <= j < prev.len() && prev[j] == a[k - 1];
                assert(a[j] == a[k - 1]);
            }
        }
        if b.contains(a[k - 1]) {
            assert(a.take(k).to_set().intersect(b) =~= prev.to_set().intersect(b).insert(a[k - 1]));
        } else {
            assert(a.take(k).to_set().intersect(b) =~= prev.to_set().intersect(b));
        }
    }
}

/// The score of a word with substrings `word_subs` against a dictionary entry
/// with substrings `possible_subs`: how many substrings they share, and the sum
/// of the sizes of both sets.
fn evaluate(word_subs: &Vec<String>, possible_subs: &Vec<String>) -> (r: (usize, u128))
    requires
        views(word_subs@).no_duplicates(),
        views(possible_subs@).no_duplicates(),
    ensures
        r.0 as nat == score(views(word_subs@).to_set(), views(possible_subs@).to_set()).0,
        r.1 as nat == score(views(word_subs@).to_set(), views(possible_subs@).to_set()).1,
        r.1 < 0x4_0000_0000_0000_0000,
{
    let ghost a = views(word_subs@);
    let ghost pset = views(possible_subs@).to_set();
    let ghost f = |t: Seq<char>| pset.contains(t);
    let mut count: usize = 0;
    let mut i: usize = 0;
    proof {
        assert(a.take(0).filter(f) =~= Seq::empty());
    }
    while i < word_subs.len()
        invariant
            i <= word_subs@.len(),
            a == views(word_subs@),
            a.no_duplicates(),
            f == (|t: Seq<char>| pset.contains(t)),
            pset == views(possible_subs@).to_set(),
            count as nat == a.take(i as int).filter(f).len(),
            count <= i,
        decreases word_subs.len() - i,
    {
        let found = contains_string(possible_subs, &word_subs[i]);
        proof {
            assert(a.take(i + 1) =~= a.take(i as int).push(a[i as int]));
            a.take(i as int).lemma_filter_push(a[i as int], f);
            assert(views(possible_subs@).contains(a[i as int]) == pset.contains(a[i as int]));
        }
        if found {
            count += 1;
        }
        i += 1;
    }
    proof {
        lemma_shared_count(a, pset, a.len() as int);
        assert(a.take(a.len() as int) =~= a);
        a.unique_seq_to_set();
        views(possible_subs@).unique_seq_to_set();
    }
    let len_sum = word_subs.len() as u128 + possible_subs.len() as u128;
    (count, len_sum)
}

/// The word of the dictionary closest to `word`: among the entries in order,
/// the one that `max_by` keeps over their scores, lower-cased; `None` for an
/// empty dictionary.
pub open spec fn closest(v: ClosestMatchView, word: Seq<char>) -> Option<Seq<char>> {
    match closest_key(v, word) {
        Some(k) => Some(lowercase_of(k)),
        None => None,
    }
}

/// What `str::to_lowercase` gives for `k`: ASCII lower-casing where `k` is
/// ASCII text, Unicode lower-casing (`str_lowercase`) in general.
pub open spec fn lowercase_of(k: Seq<char>) -> Seq<char> {
    if is_ascii_text(k) {
        ascii_lower(k)
    } else {
        str_lowercase(k)
    }
}

/// The entry of the dictionary closest to `word`, as it is kept: among the
/// entries in order, the one that `max_by` keeps over their scores; `None` for
/// an empty dictionary.
pub open spec fn closest_key(v: ClosestMatchView, word: Seq<char>) -> Option<Seq<char>> {
    if v.entries.len() == 0 {
        None
    } else {
        let w = substring_set(encode_utf8(word), v.sizes);
        Some(keys(v.entries)[max_by_index(scores(v.entries, w))])
    }
}

/// What `get_closest_n` answers: `n` times the closest word, or nothing for an
/// empty dictionary.
pub open spec fn closest_n(v: ClosestMatchView, word: Seq<char>, n: nat) -> Seq<Seq<char>> {
    match closest(v, word) {
        Some(c) => Seq::new(n, |_i: int| c),
        None => Seq::empty(),
    }
}

impl ClosestMatch {
    /// `new`, for any dictionary: `None` where some lower-cased word of the
    /// dictionary would be cut inside a character by one of the `sizes`.
    pub fn try_new(dictionary: Vec<String>, sizes: Vec<usize>) -> (r: Option<ClosestMatch>)
        ensures
            r is Some <==> dictionary_ok(dictionary@, sizes@),
            r matches Some(cm) ==> built_from(cm@, dictionary@, sizes@),
            r matches Some(cm) ==> (ascii_words(dictionary@) ==> built_from_ascii(cm@, dictionary@, sizes@)),
    {
        let mut i: usize = 0;
        while i < dictionary.len()
            invariant
                i <= dictionary@.len(),
                forall|j: int| 0 <= j < i ==> windows_ok(encode_utf8(#[trigger] lowered(dictionary@)[j]), sizes@),
            decreases dictionary.len() - i,
        {
            let lower = to_lowercase(dictionary[i].as_str());
            assert(lowered(dictionary@)[i as int] == lower@);
            if !word_splits(lower.as_str(), sizes.as_slice()) {
                return None;
            }
            i += 1;
        }
        Some(Self::new(dictionary, sizes))
    }

    /// The closest word of the dictionary to `word`, lower-cased; `None` when
    /// the dictionary is empty.
    pub fn get_closest(&self, word: &str) -> (r: Option<String>)
        requires
            windows_ok(encode_utf8(word@), self@.sizes),
        ensures
            r is Some <==> closest(self@, word@) is Some,
            r matches Some(c) ==> closest(self@, word@) == Some(c@),
    {
        proof {
            use_type_invariant(self);
        }
        let sw = split_word(word, self.substring_sizes.as_slice());
        let ghost w = substring_set(encode_utf8(word@), self@.sizes);
        let ghost sc = scores(self@.entries, w);
        let n = self.substrings.len();
        if n == 0 {
            return None;
        }
        let mut best: usize = 0;
        let mut best_score = evaluate(&sw.substrings, &self.substrings[0].1);
        proof {
            assert(sc.take(1).len() == 1);
        }
        let mut i: usize = 1;
        while i < n
            invariant
                1 <= i <= n,
                n == self.substrings@.len(),
                n == sc.len(),
                sc == scores(self@.entries, w),
                w == views(sw.substrings@).to_set(),
                views(sw.substrings@).no_duplicates(),
                best < i,
                best == max_by_index(sc.take(i as int)),
                best_score.0 as nat == sc[best as int].0,
                best_score.1 as nat == sc[best as int].1,
                best_score.1 < 0x4_0000_0000_0000_0000,
                forall|k: int| 0 <= k < n ==> views((#[trigger] self.substrings@[k]).1@).no_duplicates(),
            decreases n - i,
        {
            let s = evaluate(&sw.substrings, &self.substrings[i].1);
            proof {
                assert(sc.take(i + 1).drop_last() =~= sc.take(i as int));
                assert(self@.entries[i as int] == entry_view(self.substrings@[i as int]));
            }
            if score_le_exec(best_score, s) {
                best = i;
                best_score = s;
            }
            i += 1;
        }
        proof {
            assert(sc.take(n as int) =~= sc);
            assert(keys(self@.entries)[best as int] == self.substrings@[best as int].0@);
        }
        Some(to_lowercase(self.substrings[best].0.as_str()))
    }

    /// `n` times the closest word of the dictionary to `word` (none at all when
    /// the dictionary is empty).
    pub fn get_closest_n(&self, word: &str, n: usize) -> (r: Vec<String>)
        requires
            windows_ok(encode_utf8(word@), self@.sizes),
        ensures
            views(r@) == closest_n(self@, word@, n as nat),
    {
        let mut matches: Vec<String> = Vec::new();
        let best = self.get_closest(word);
        if let Some(b) = best {
            let mut k: usize = 0;
            while k < n
                invariant
                    k <= n,
                    matches@.len() == k,
                    forall|i: int| 0 <= i < k ==> (#[trigger] matches@[i])@ == b@,
                decreases n - k,
            {
                matches.push(b.clone());
                k += 1;
            }
        }
        assert(views(matches@) =~= closest_n(self@, word@, n as nat));
        matches
    }
}

/// Comparing scores without NaN is transitive.
proof fn lemma_score_le_transitive(a: (nat, nat), b: (nat, nat), c: (nat, nat))
    requires
        score_le(a, b),
        score_le(b, c),
    ensures
        score_le(a, c),
{
    assert(a.0 * c.1 <= c.0 * a.1) by (nonlinear_arith)
        requires
            a.1 > 0,
            b.1 > 0,
            c.1 > 0,
            a.0 * b.1 <= b.0 * a.1,
            b.0 * c.1 <= c.0 * b.1,
    {
        assert(a.0 * b.1 * c.1 <= b.0 * a.1 * c.1);
        assert(b.0 * c.1 * a.1 <= c.0 * b.1 * a.1);
        assert(a.0 * c.1 * b.1 <= c.0 * a.1 * b.1);
    }
}

/// The score that `max_by` keeps, among scores none of which is NaN (every
/// sum positive), is at least as good as every score, and every later score is
/// strictly worse than it.
pub proof fn lemma_max_by_index_is_best(s: Seq<(nat, nat)>)
    requires
        s.len() > 0,
        forall|i: int| 0 <= i < s.len() ==> (#[trigger] s[i]).1 > 0,
    ensures
        0 <= max_by_index(s) < s.len(),
        forall|i: int| 0 <= i < s.len() ==> score_le(#[trigger] s[i], s[max_by_index(s)]),
        forall|i: int| max_by_index(s) < i < s.len() ==> !score_le(s[max_by_index(s)], #[trigger] s[i]),
    decreases s.len(),
{
    if s.len() > 1 {
        let d = s.drop_last();
        lemma_max_by_index_is_best(d);
        let prev = max_by_index(d);
        assert(d[prev] == s[prev]);
        let last = s.last();
        if score_le(s[prev], last) {
            assert forall|i: int| 0 <= i < s.len() implies score_le(#[trigger] s[i], s[max_by_index(s)]) by {
                if i < s.len() - 1 {
                    assert(d[i] == s[i]);
                    lemma_score_le_transitive(s[i], s[prev], last);
                } else {
                    assert(s[i].0 * last.1 <= last.0 * s[i].1);
                }
            }
        } else {
            assert(last.0 * s[prev].1 <= s[prev].0 * last.1) by (nonlinear_arith)
                requires
                    !(s[prev].0 * last.1 <= last.0 * s[prev].1),
            ;
            assert forall|i: int| 0 <= i < s.len() implies score_le(#[trigger] s[i], s[max_by_index(s)]) by {
                if i < s.len() - 1 {
                    assert(d[i] == s[i]);
                }
            }
            assert forall|i: int| max_by_index(s) < i < s.len() implies !score_le(
                s[max_by_index(s)],
                #[trigger] s[i],
            ) by {
                if i < s.len() - 1 {
                    assert(d[i] == s[i]);
                }
            }
        }
    } else {
        assert(s[0].0 * s[0].1 <= s[0].0 * s[0].1);
    }
}

/// The word that `get_closest` answers scores at least as well against `word`
/// as every word of the dictionary, and every word after it in the dictionary
/// scores strictly worse, provided no score is NaN.
pub proof fn lemma_closest_is_best(v: ClosestMatchView, word: Seq<char>)
    requires
        v.entries.len() > 0,
        forall|i: int|
            0 <= i < v.entries.len() ==> (#[trigger] scores(
                v.entries,
                substring_set(encode_utf8(word), v.sizes),
            )[i]).1 > 0,
    ensures
        ({
            let sc = scores(v.entries, substring_set(encode_utf8(word), v.sizes));
            let k = max_by_index(sc);
            &&& 0 <= k < v.entries.len()
            &&& closest(v, word) == Some(lowercase_of(v.entries[k].0))
            &&& forall|i: int| 0 <= i < sc.len() ==> score_le(#[trigger] sc[i], sc[k])
            &&& forall|i: int| k < i < sc.len() ==> !score_le(sc[k], #[trigger] sc[i])
        }),
{
    let sc = scores(v.entries, substring_set(encode_utf8(word), v.sizes));
    lemma_max_by_index_is_best(sc);
}

/// The index that `max_by` keeps lies among the elements.
proof fn lemma_max_by_index_range(s: Seq<(nat, nat)>)
    requires
        s.len() > 0,
    ensures
        0 <= max_by_index(s) < s.len(),
    decreases s.len(),
{
    if s.len() > 1 {
        lemma_max_by_index_range(s.drop_last());
    }
}

/// The dictionary that `new` builds from ASCII words holds each word
/// lower-cased (`to_lowercase`, which on ASCII is ASCII lower-casing), once,
/// and nothing else (case variants and repeats of a word collapse). What
/// `get_closest` answers is one of these words, as it is kept, and it answers
/// `None` exactly when the dictionary is empty; what `get_closest_n` answers
/// is made of these words too, and is empty for an empty dictionary.
pub proof fn lemma_ascii_dictionary_answers(
    v: ClosestMatchView,
    dictionary: Seq<String>,
    sizes: Seq<usize>,
    word: Seq<char>,
)
    requires
        built_from_ascii(v, dictionary, sizes),
        ascii_words(dictionary),
    ensures
        keys(v.entries).no_duplicates(),
        keys(v.entries).to_set() == ascii_lowered(dictionary).to_set(),
        closest_key(v, word) is None <==> dictionary.len() == 0,
        closest_key(v, word) matches Some(k) ==> (ascii_lowered(dictionary).contains(k) && is_ascii_text(k)
            && ascii_lower(k) == k),
        closest(v, word) is None <==> dictionary.len() == 0,
        closest(v, word) matches Some(c) ==> ascii_lowered(dictionary).contains(c) && closest_key(v, word)
            == Some(c),
        forall|n: nat, i: int|
            0 <= i < closest_n(v, word, n).len() ==> ascii_lowered(dictionary).contains(
                #[trigger] closest_n(v, word, n)[i],
            ),
        forall|n: nat| n > 0 ==> (#[trigger] closest_n(v, word, n).len() == 0 <==> dictionary.len() == 0),
{
    let al = ascii_lowered(dictionary);
    let ks = keys(v.entries);
    lemma_first_occurrences_distinct(al);
    assert(ks.to_set() =~= al.to_set());
    if dictionary.len() > 0 {
        assert(al.contains(al[0]));
        assert(ks.contains(al[0]));
    } else {
        assert(al.len() == 0);
        assert(first_occurrences(al) =~= Seq::<Seq<char>>::empty());
    }
    if v.entries.len() > 0 {
        let w = substring_set(encode_utf8(word), v.sizes);
        let idx = max_by_index(scores(v.entries, w));
        lemma_max_by_index_range(scores(v.entries, w));
        let k = ks[idx];
        assert(ks.contains(k));
        assert(al.contains(k));
        let j = choose|j: int| 0 <= j < al.len() && al[j] == k;
        assert(is_ascii_text(dictionary[j]@));
        lemma_ascii_lower_idempotent(dictionary[j]@);
        assert(closest(v, word) == Some(k));
        assert forall|n: nat, i: int| 0 <= i < closest_n(v, word, n).len() implies al.contains(
            #[trigger] closest_n(v, word, n)[i],
        ) by {
            assert(closest_n(v, word, n)[i] == k);
        }
    }
}

/// Every word that `get_closest_n` answers scores highest against `word`: it
/// is the word of the entry that `max_by` keeps, whose score is at least that
/// of every entry, provided no score is NaN.
pub proof fn lemma_closest_n_scores_highest(v: ClosestMatchView, word: Seq<char>, n: nat)
    requires
        v.entries.len() > 0,
        forall|i: int|
            0 <= i < v.entries.len() ==> (#[trigger] scores(
                v.entries,
                substring_set(encode_utf8(word), v.sizes),
            )[i]).1 > 0,
    ensures
        ({
            let sc = scores(v.entries, substring_set(encode_utf8(word), v.sizes));
            let k = max_by_index(sc);
            &&& 0 <= k < v.entries.len()
            &&& closest_n(v, word, n).len() == n
            &&& forall|i: int| 0 <= i < n ==> #[trigger] closest_n(v, word, n)[i] == lowercase_of(v.entries[k].0)
            &&& forall|j: int| 0 <= j < sc.len() ==> score_le(#[trigger] sc[j], sc[k])
        }),
{
    lemma_closest_is_best(v, word);
}

/// `get_closest_n` answers `n` copies of what `get_closest` answers: nothing
/// for an empty dictionary, else exactly `n` words, each the closest word; so
/// one word asked for is the closest word alone, and none asked for is none.
pub proof fn lemma_closest_n_repeats_closest(v: ClosestMatchView, word: Seq<char>, n: nat)
    ensures
        closest(v, word) is None <==> v.entries.len() == 0,
        closest(v, word) is None ==> closest_n(v, word, n) == Seq::<Seq<char>>::empty(),
        closest(v, word) matches Some(c) ==> (closest_n(v, word, n).len() == n && forall|i: int|
            0 <= i < n ==> #[trigger] closest_n(v, word, n)[i] == c),
        closest_n(v, word, 0) == Seq::<Seq<char>>::empty(),
        closest_n(v, word, 1) == (match closest(v, word) {
            Some(c) => seq![c],
            None => Seq::<Seq<char>>::empty(),
        }),
{
    assert(closest_n(v, word, 0) =~= Seq::<Seq<char>>::empty());
    match closest(v, word) {
        Some(c) => {
            assert(closest_n(v, word, 1) =~= seq![c]);
        },
        None => {},
    }
}

} // verus!
