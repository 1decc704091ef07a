//! Key URIs
//!
//! Recognizes the Key Uri Format
//! (<https://github.com/google/google-authenticator/wiki/Key-Uri-Format>) as the
//! pattern
//!
//! ```text
//! otpauth://(totp|hotp)/LABEL[?&]issuer=..  [?&]algorithm=..  [?&]digits=..  [?&]period=..  [?&]secret=SECRET
//! ```
//!
//! searched anywhere in a line, where the label holds neither `?` nor `#`, the
//! optional `issuer`, `algorithm`, `digits` and `period` parameters appear in
//! that order (each value holding neither `&` nor `#`), and the secret parameter
//! comes last, its value running up to the next `&`. Among several ways to read
//! a line the leftmost is taken, then the one with the longest label, then the
//! one that has each optional parameter (with the longest value), in order: the
//! leftmost-first reading of the pattern.
use vstd::prelude::*;

use vstd::utf8::encode_utf8;

use crate::error::PassrsError;
use crate::otp::{secret_key_bytes, HashAlgorithm};
use crate::text::{
    ascii_lower, chars_eq, chars_of, parse_bounded, parse_result, string_of, sub_chars,
    to_ascii_lowercase, to_ascii_uppercase_bytes,
};

verus! {

/// The three kinds of runs of characters in the pattern.
#[derive(Clone, Copy, PartialEq, Eq, Structural)]
pub enum CharClass {
    /// The label: anything but `?` and `#`.
    Label,
    /// An optional parameter's value: anything but `&` and `#`.
    Value,
    /// The secret: anything but `&`.
    Secret,
}

pub open spec fn in_class(class: CharClass, c: char) -> bool {
    match class {
        CharClass::Label => c != '?' && c != '#',
        CharClass::Value => c != '&' && c != '#',
        CharClass::Secret => c != '&',
    }
}

/// A parameter separator.
pub open spec fn is_sep(c: char) -> bool {
    c == '?' || c == '&'
}

/// `s` holds `lit` at position `i`.
pub open spec fn lit_at(s: Seq<char>, i: int, lit: Seq<char>) -> bool {
    0 <= i && i + lit.len() <= s.len() && s.subrange(i, i + lit.len()) == lit
}

/// The end of the longest run of `class` characters that starts at `k`.
pub open spec fn run_end(s: Seq<char>, k: int, class: CharClass) -> int
    decreases s.len() - k,
{
    if 0 <= k < s.len() && in_class(class, s[k]) {
        run_end(s, k + 1, class)
    } else {
        k
    }
}

pub open spec fn scheme() -> Seq<char> {
    "otpauth://"@
}

pub open spec fn totp_type() -> Seq<char> {
    "totp/"@
}

pub open spec fn hotp_type() -> Seq<char> {
    "hotp/"@
}

/// The name, with its `=`, of the optional parameter number `g` (in the order
/// in which they may appear).
pub open spec fn param_name(g: int) -> Seq<char> {
    if g == 0 {
        "issuer="@
    } else if g == 1 {
        "algorithm="@
    } else if g == 2 {
        "digits="@
    } else {
        "period="@
    }
}

pub open spec fn secret_name() -> Seq<char> {
    "secret="@
}

/// Where the parts of a match lie: for each optional parameter (issuer,
/// algorithm, digits, period) the span of its value if it is there, and the
/// span of the secret.
pub struct UriSpans {
    pub groups: Seq<Option<(int, int)>>,
    pub secret: (int, int),
}

/// The leftmost-first match of the optional parameters from number `g` on and
/// then the secret, starting at `k`; the spans of parameters before `g` are
/// absent.
pub open spec fn match_tail(s: Seq<char>, k: int, g: int) -> Option<UriSpans>
    decreases 4 - g, 1int, 0int,
{
    if g >= 4 {
        if 0 <= k < s.len() && is_sep(s[k]) && lit_at(s, k + 1, secret_name()) {
            let v0 = k + 1 + secret_name().len();
            Some(
                UriSpans {
                    groups: seq![None, None, None, None],
                    secret: (v0, run_end(s, v0, CharClass::Secret)),
                },
            )
        } else {
            None
        }
    } else {
        let present = if 0 <= k < s.len() && is_sep(s[k]) && lit_at(s, k + 1, param_name(g)) {
            let v0 = k + 1 + param_name(g).len();
            try_value_ends(s, g, v0, run_end(s, v0, CharClass::Value))
        } else {
            None
        };
        if present is Some {
            present
        } else {
            match_tail(s, k, g + 1)
        }
    }
}

/// Tries the value of parameter `g` as `v0..e`, then ever shorter values, each
/// followed by the rest of the pattern.
pub open spec fn try_value_ends(s: Seq<char>, g: int, v0: int, e: int) -> Option<UriSpans>
    decreases 4 - g, 0int, e - v0 + 1,
{
    if g >= 4 || e < v0 {
        None
    } else {
        match match_tail(s, e, g + 1) {
            Some(t) => Some(UriSpans { groups: t.groups.update(g, Some((v0, e))), secret: t.secret }),
            None => try_value_ends(s, g, v0, e - 1),
        }
    }
}

/// Tries the label as `j..e`, then ever shorter labels.
pub open spec fn try_label_ends(s: Seq<char>, j: int, e: int) -> Option<UriSpans>
    decreases e - j + 1,
{
    if e < j {
        None
    } else {
        match match_tail(s, e, 0) {
            Some(t) => Some(t),
            None => try_label_ends(s, j, e - 1),
        }
    }
}

/// The leftmost-first match that starts at `i`.
pub open spec fn match_at(s: Seq<char>, i: int) -> Option<UriSpans> {
    if lit_at(s, i, scheme()) && (lit_at(s, i + 10, totp_type()) || lit_at(s, i + 10, hotp_type())) {
        try_label_ends(s, i + 15, run_end(s, i + 15, CharClass::Label))
    } else {
        None
    }
}

/// The match that starts leftmost at or after `i`.
pub open spec fn find_match_from(s: Seq<char>, i: int) -> Option<UriSpans>
    decreases s.len() + 1 - i,
{
    if i < 0 || i > s.len() {
        None
    } else {
        match match_at(s, i) {
            Some(m) => Some(m),
            None => find_match_from(s, i + 1),
        }
    }
}

/// The match of the key URI pattern in `s`, if any.
pub open spec fn uri_captures(s: Seq<char>) -> Option<UriSpans> {
    find_match_from(s, 0)
}

/// The spans of a match, as positions in the text.
struct ExecSpans {
    groups: Vec<Option<(usize, usize)>>,
    secret: (usize, usize),
}

spec fn span_view(o: Option<(usize, usize)>) -> Option<(int, int)> {
    match o {
        Some((a, b)) => Some((a as int, b as int)),
        None => None,
    }
}

spec fn spans_view(o: Option<ExecSpans>) -> Option<UriSpans> {
    match o {
        Some(m) => Some(
            UriSpans {
                groups: m.groups@.map_values(|g: Option<(usize, usize)>| span_view(g)),
                secret: (m.secret.0 as int, m.secret.1 as int),
            },
        ),
        None => None,
    }
}

fn lit_at_exec(s: &Vec<char>, i: usize, lit: &Vec<char>) -> (b: bool)
    ensures
        b == lit_at(s@, i as int, lit@),
{
    if i > s.len() || lit.len() > s.len() - i {
        return false;
    }
    let mut k: usize = 0;
    while k < lit.len()
        invariant
            k <= lit.len(),
            i + lit.len() <= s.len(),
            forall|m: int| 0 <= m < k ==> s@[i + m] == lit@[m],
        decreases lit.len() - k,
    {
        if s[i + k] != lit[k] {
            assert(s@.subrange(i as int, i + lit.len())[k as int] != lit@[k as int]);
            return false;
        }
        k += 1;
    }
    assert(s@.subrange(i as int, i + lit.len()) =~= lit@);
    true
}

fn in_class_exec(class: CharClass, c: char) -> (b: bool)
    ensures
        b == in_class(class, c),
{
    match class {
        CharClass::Label => c != '?' && c != '#',
        CharClass::Value => c != '&' && c != '#',
        CharClass::Secret => c != '&',
    }
}

fn run_end_exec(s: &Vec<char>, k: usize, class: CharClass) -> (e: usize)
    requires
        k <= s.len(),
    ensures
        e as int == run_end(s@, k as int, class),
        k <= e <= s.len(),
{
    let mut e = k;
    while e < s.len() && in_class_exec(class, s[e])
        invariant
            k <= e <= s.len(),
            run_end(s@, k as int, class) == run_end(s@, e as int, class),
        decreases s.len() - e,
    {
        e += 1;
    }
    e
}

/// The literals of the pattern, as characters.
struct Literals {
    scheme: Vec<char>,
    totp: Vec<char>,
    hotp: Vec<char>,
    names: Vec<Vec<char>>,
    secret: Vec<char>,
}

spec fn literals_ok(l: &Literals) -> bool {
    &&& l.scheme@ == scheme()
    &&& l.totp@ == totp_type()
    &&& l.hotp@ == hotp_type()
    &&& l.names@.len() == 4
    &&& forall|g: int| 0 <= g < 4 ==> (#[trigger] l.names@[g])@ == param_name(g)
    &&& l.secret@ == secret_name()
}

fn literals() -> (l: Literals)
    ensures
        literals_ok(&l),
{
    let mut names: Vec<Vec<char>> = Vec::new();
    names.push(chars_of("issuer="));
    names.push(chars_of("algorithm="));
    names.push(chars_of("digits="));
    names.push(chars_of("period="));
    Literals {
        scheme: chars_of("otpauth://"),
        totp: chars_of("totp/"),
        hotp: chars_of("hotp/"),
        names,
        secret: chars_of("secret="),
    }
}

proof fn lemma_literal_lengths()
    ensures
        scheme().len() == 10,
        totp_type().len() == 5,
        hotp_type().len() == 5,
        param_name(0).len() == 7,
        param_name(1).len() == 10,
        param_name(2).len() == 7,
        param_name(3).len() == 7,
        secret_name().len() == 7,
{
    reveal_strlit("otpauth://");
    reveal_strlit("totp/");
    reveal_strlit("hotp/");
    reveal_strlit("issuer=");
    reveal_strlit("algorithm=");
    reveal_strlit("digits=");
    reveal_strlit("period=");
    reveal_strlit("secret=");
}

fn match_tail_exec(s: &Vec<char>, lits: &Literals, k: usize, g: usize) -> (r: Option<ExecSpans>)
    requires
        k <= s.len(),
        g <= 4,
        literals_ok(lits),
    ensures
        spans_view(r) == match_tail(s@, k as int, g as int),
        r matches Some(m) ==> m.groups@.len() == 4,
    decreases 4 - g, 1int,
{
    proof {
        lemma_literal_lengths();
    }
    if g >= 4 {
        if k < s.len() && (s[k] == '?' || s[k] == '&') && lit_at_exec(s, k + 1, &lits.secret) {
            let v0 = k + 8;
            let e = run_end_exec(s, v0, CharClass::Secret);
            let mut groups: Vec<Option<(usize, usize)>> = Vec::new();
            groups.push(None);
            groups.push(None);
            groups.push(None);
            groups.push(None);
            let r = Some(ExecSpans { groups, secret: (v0, e) });
            assert(spans_view(r)->0.groups =~= seq![None, None, None, None]);
            return r;
        } else {
            return None;
        }
    }
    let name = &lits.names[g];
    if k < s.len() && (s[k] == '?' || s[k] == '&') && lit_at_exec(s, k + 1, name) {
        let v0 = k + 1 + name.len();
        let e0 = run_end_exec(s, v0, CharClass::Value);
        let present = try_value_ends_exec(s, lits, g, v0, e0);
        if present.is_some() {
            return present;
        }
    }
    match_tail_exec(s, lits, k, g + 1)
}

fn try_value_ends_exec(s: &Vec<char>, lits: &Literals, g: usize, v0: usize, e0: usize) -> (r: Option<
    ExecSpans,
>)
    requires
        g < 4,
        1 <= v0 <= e0 <= s.len(),
        literals_ok(lits),
    ensures
        spans_view(r) == try_value_ends(s@, g as int, v0 as int, e0 as int),
        r matches Some(m) ==> m.groups@.len() == 4,
    decreases 4 - g, 0int,
{
    let mut e = e0;
    loop
        invariant
            g < 4,
            1 <= v0 <= e0 <= s.len(),
            e <= e0,
            v0 <= e + 1,
            literals_ok(lits),
            try_value_ends(s@, g as int, v0 as int, e0 as int) == try_value_ends(
                s@,
                g as int,
                v0 as int,
                e as int,
            ),
        decreases e,
    {
        if e < v0 {
            return None;
        }
        match match_tail_exec(s, lits, e, g + 1) {
            Some(t) => {
                let mut t = t;
                let ghost before = t.groups@;
                t.groups.set(g, Some((v0, e)));
                proof {
                    assert(t.groups@.map_values(|o: Option<(usize, usize)>| span_view(o)) =~= before.map_values(
                        |o: Option<(usize, usize)>| span_view(o),
                    ).update(g as int, Some((v0 as int, e as int))));
                }
                return Some(t);
            },
            None => {},
        }
        e = e - 1;
    }
}

fn match_at_exec(s: &Vec<char>, lits: &Literals, i: usize) -> (r: Option<ExecSpans>)
    requires
        i <= s.len(),
        literals_ok(lits),
    ensures
        spans_view(r) == match_at(s@, i as int),
{
    proof {
        lemma_literal_lengths();
    }
    if !lit_at_exec(s, i, &lits.scheme) {
        return None;
    }
    if !(lit_at_exec(s, i + 10, &lits.totp) || lit_at_exec(s, i + 10, &lits.hotp)) {
        return None;
    }
    let j = i + 15;
    let e0 = run_end_exec(s, j, CharClass::Label);
    let ghost target = match_at(s@, i as int);
    assert(target == try_label_ends(s@, j as int, e0 as int));
    let mut e = e0;
    loop
        invariant
            target == match_at(s@, i as int),
            target == try_label_ends(s@, j as int, e as int),
            j <= e + 1,
            j >= 15,
            e <= e0 <= s.len(),
            literals_ok(lits),
        decreases e,
    {
        if e < j {
            return None;
        }
        let t = match_tail_exec(s, lits, e, 0);
        if t.is_some() {
            return t;
        }
        e = e - 1;
    }
}

/// The spans of the key URI match in `s`.
fn captures(s: &Vec<char>) -> (r: Option<ExecSpans>)
    ensures
        spans_view(r) == uri_captures(s@),
        r matches Some(m) ==> m.groups@.len() == 4 && m.secret.0 <= m.secret.1 <= s@.len(),
{
    let lits = literals();
    let mut i: usize = 0;
    loop
        invariant
            i <= s.len(),
            literals_ok(&lits),
            find_match_from(s@, 0) == find_match_from(s@, i as int),
        decreases s.len() - i,
    {
        let m = match_at_exec(s, &lits, i);
        if m.is_some() {
            proof {
                lemma_match_wf(s@, i as int);
            }
            return m;
        }
        if i == s.len() {
            assert(find_match_from(s@, i + 1) is None);
            return None;
        }
        i += 1;
    }
}

/// Every span of a match lies within the text, in order.
pub open spec fn spans_wf(s: Seq<char>, m: UriSpans) -> bool {
    &&& m.groups.len() == 4
    &&& 0 <= m.secret.0 <= m.secret.1 <= s.len()
    &&& forall|g: int|
        0 <= g < 4 ==> (#[trigger] m.groups[g] matches Some((a, b)) ==> 0 <= a <= b <= s.len())
}

proof fn lemma_run_end_bounds(s: Seq<char>, k: int, class: CharClass)
    requires
        0 <= k <= s.len(),
    ensures
        k <= run_end(s, k, class) <= s.len(),
    decreases s.len() - k,
{
    if 0 <= k < s.len() && in_class(class, s[k]) {
        lemma_run_end_bounds(s, k + 1, class);
    }
}

proof fn lemma_tail_wf(s: Seq<char>, k: int, g: int)
    requires
        0 <= k <= s.len(),
        0 <= g <= 4,
    ensures
        match_tail(s, k, g) matches Some(m) ==> spans_wf(s, m),
    decreases 4 - g, 1int, 0int,
{
    lemma_literal_lengths();
    if g >= 4 {
        if 0 <= k < s.len() && is_sep(s[k]) && lit_at(s, k + 1, secret_name()) {
            lemma_run_end_bounds(s, k + 8, CharClass::Secret);
        }
    } else {
        if 0 <= k < s.len() && is_sep(s[k]) && lit_at(s, k + 1, param_name(g)) {
            let v0 = k + 1 + param_name(g).len();
            lemma_run_end_bounds(s, v0, CharClass::Value);
            lemma_value_ends_wf(s, g, v0, run_end(s, v0, CharClass::Value));
        }
        lemma_tail_wf(s, k, g + 1);
    }
}

proof fn lemma_value_ends_wf(s: Seq<char>, g: int, v0: int, e: int)
    requires
        0 <= v0,
        e <= s.len(),
        0 <= g < 4,
    ensures
        try_value_ends(s, g, v0, e) matches Some(m) ==> spans_wf(s, m),
    decreases 4 - g, 0int, e - v0 + 1,
{
    if e >= v0 {
        lemma_tail_wf(s, e, g + 1);
        if let Some(t) = match_tail(s, e, g + 1) {
            let m = UriSpans { groups: t.groups.update(g, Some((v0, e))), secret: t.secret };
            assert forall|h: int| 0 <= h < 4 implies (#[trigger] m.groups[h] matches Some((a, b)) ==> 0
                <= a <= b <= s.len()) by {
                if h != g {
                    assert(m.groups[h] == t.groups[h]);
                }
            }
        }
        lemma_value_ends_wf(s, g, v0, e - 1);
    }
}

proof fn lemma_label_ends_wf(s: Seq<char>, j: int, e: int)
    requires
        0 <= j,
        e <= s.len(),
    ensures
        try_label_ends(s, j, e) matches Some(m) ==> spans_wf(s, m),
    decreases e - j + 1,
{
    if e >= j {
        lemma_tail_wf(s, e, 0);
        lemma_label_ends_wf(s, j, e - 1);
    }
}

proof fn lemma_match_wf(s: Seq<char>, i: int)
    requires
        0 <= i <= s.len(),
    ensures
        match_at(s, i) matches Some(m) ==> spans_wf(s, m),
{
    lemma_literal_lengths();
    if lit_at(s, i, scheme()) && (lit_at(s, i + 10, totp_type()) || lit_at(s, i + 10, hotp_type())) {
        lemma_run_end_bounds(s, i + 15, CharClass::Label);
        lemma_label_ends_wf(s, i + 15, run_end(s, i + 15, CharClass::Label));
    }
}

/// The secret that the key URI pattern captures in `s`.
pub open spec fn spec_base32_secret(s: Seq<char>) -> Option<Seq<char>> {
    match uri_captures(s) {
        Some(m) => Some(s.subrange(m.secret.0, m.secret.1)),
        None => None,
    }
}

/// Reads a number parameter: its default where it is absent, and an error where
/// it is not a decimal number no larger than `max`.
pub open spec fn spec_number_param(s: Seq<char>, g: int, default: nat, max: nat) -> Result<nat, PassrsError> {
    match uri_captures(s) {
        None => Err(PassrsError::UriMismatch),
        Some(m) => match m.groups[g] {
            None => Ok(default),
            Some((a, b)) => match parse_result(s.subrange(a, b), max) {
                Ok(v) => Ok(v),
                Err(e) => Err(PassrsError::InvalidNumber(e)),
            },
        },
    }
}

/// The period in seconds that a key URI states (30 where it states none).
pub open spec fn spec_period(s: Seq<char>) -> Result<nat, PassrsError> {
    spec_number_param(s, 3, 30, u64::MAX as nat)
}

/// The number of digits that a key URI states (6 where it states none).
pub open spec fn spec_digits(s: Seq<char>) -> Result<nat, PassrsError> {
    spec_number_param(s, 2, 6, usize::MAX as nat)
}

/// How a key URI names its hash function: `None` where the pattern does not
/// match, `Ok` with the function (SHA1 where none is named), or `Err` with the
/// unknown name, lower-cased.
pub open spec fn spec_algorithm(s: Seq<char>) -> Option<Result<HashAlgorithm, Seq<char>>> {
    match uri_captures(s) {
        None => None,
        Some(m) => match m.groups[1] {
            None => Some(Ok(HashAlgorithm::Sha1)),
            Some((a, b)) => {
                let name = ascii_lower(s.subrange(a, b));
                if name == "sha1"@ {
                    Some(Ok(HashAlgorithm::Sha1))
                } else if name == "sha256"@ {
                    Some(Ok(HashAlgorithm::Sha256))
                } else if name == "sha512"@ {
                    Some(Ok(HashAlgorithm::Sha512))
                } else {
                    Some(Err(name))
                }
            },
        },
    }
}

/// A key URI is valid where the pattern matches and its secret decodes as
/// base32.
pub open spec fn uri_is_valid(s: Seq<char>) -> bool {
    match spec_base32_secret(s) {
        Some(secret) => secret_key_bytes(encode_utf8(secret)) is Some,
        None => false,
    }
}

/// The text of `uri`'s match, with the spans checked.
fn matched(uri: &str) -> (r: Option<(Vec<char>, ExecSpans)>)
    ensures
        match r {
            Some((v, m)) => v@ == uri@ && spans_view(Some(m)) == uri_captures(uri@) && spans_wf(
                uri@,
                spans_view(Some(m))->0,
            ),
            None => uri_captures(uri@) is None,
        },
{
    let v = chars_of(uri);
    match captures(&v) {
        Some(m) => {
            proof {
                lemma_captures_wf(v@);
            }
            Some((v, m))
        },
        None => None,
    }
}

proof fn lemma_captures_wf(s: Seq<char>)
    ensures
        uri_captures(s) matches Some(m) ==> spans_wf(s, m),
{
    lemma_find_wf(s, 0);
}

proof fn lemma_find_wf(s: Seq<char>, i: int)
    requires
        0 <= i,
    ensures
        find_match_from(s, i) matches Some(m) ==> spans_wf(s, m),
    decreases s.len() + 1 - i,
{
    if i <= s.len() {
        lemma_match_wf(s, i);
        lemma_find_wf(s, i + 1);
    }
}

/// The secret of a key URI, as `captures["secret"]` of the pattern gives it.
pub fn get_base32_secret(uri: &str) -> (r: Result<String, PassrsError>)
    ensures
        match spec_base32_secret(uri@) {
            Some(secret) => r matches Ok(s) && s@ == secret,
            None => r == Err::<String, PassrsError>(PassrsError::UriMismatch),
        },
{
    match matched(uri) {
        Some((v, m)) => {
            let secret = sub_chars(v.as_slice(), m.secret.0, m.secret.1);
            Ok(string_of(secret.as_slice()))
        },
        None => Err(PassrsError::UriMismatch),
    }
}

fn number_param(uri: &str, g: usize, default: u64, max: u64) -> (r: Result<u64, PassrsError>)
    requires
        g < 4,
        default <= max,
    ensures
        match spec_number_param(uri@, g as int, default as nat, max as nat) {
            Ok(n) => r == Ok::<u64, PassrsError>(n as u64),
            Err(e) => r == Err::<u64, PassrsError>(e),
        },
{
    match matched(uri) {
        Some((v, m)) => {
            assert(spans_view(Some(m))->0.groups[g as int] == span_view(m.groups@[g as int]));
            match m.groups[g] {
                None => Ok(default),
                Some((a, b)) => {
                    let text = sub_chars(v.as_slice(), a, b);
                    match parse_bounded(text.as_slice(), max) {
                        Ok(n) => Ok(n),
                        Err(e) => Err(PassrsError::InvalidNumber(e)),
                    }
                },
            }
        },
        None => Err(PassrsError::UriMismatch),
    }
}

/// The period of a key URI, in seconds (30 where it states none).
pub fn get_period(uri: &str) -> (r: Result<u64, PassrsError>)
    ensures
        match spec_period(uri@) {
            Ok(n) => r == Ok::<u64, PassrsError>(n as u64),
            Err(e) => r == Err::<u64, PassrsError>(e),
        },
{
    number_param(uri, 3, 30, u64::MAX)
}

/// The number of digits of the codes of a key URI (6 where it states none).
pub fn get_digits(uri: &str) -> (r: Result<usize, PassrsError>)
    ensures
        match spec_digits(uri@) {
            Ok(n) => r == Ok::<usize, PassrsError>(n as usize),
            Err(e) => r == Err::<usize, PassrsError>(e),
        },
{
    match number_param(uri, 2, 6, usize::MAX as u64) {
        Ok(n) => Ok(n as usize),
        Err(e) => Err(e),
    }
}

/// The hash function of a key URI (SHA1 where it names none).
pub fn get_algorithm(uri: &str) -> (r: Result<HashAlgorithm, PassrsError>)
    ensures
        match spec_algorithm(uri@) {
            None => r == Err::<HashAlgorithm, PassrsError>(PassrsError::UriMismatch),
            Some(Ok(a)) => r == Ok::<HashAlgorithm, PassrsError>(a),
            Some(Err(name)) => r matches Err(PassrsError::InvalidHashAlgorithm(n)) && n@ == name,
        },
{
    match matched(uri) {
        Some((v, m)) => {
            assert(spans_view(Some(m))->0.groups[1] == span_view(m.groups@[1]));
            match m.groups[1] {
                None => Ok(HashAlgorithm::Sha1),
                Some((a, b)) => {
                    let text = sub_chars(v.as_slice(), a, b);
                    let name = to_ascii_lowercase(text.as_slice());
                    if chars_eq(name.as_slice(), chars_of("sha1").as_slice()) {
                        Ok(HashAlgorithm::Sha1)
                    } else if chars_eq(name.as_slice(), chars_of("sha256").as_slice()) {
                        Ok(HashAlgorithm::Sha256)
                    } else if chars_eq(name.as_slice(), chars_of("sha512").as_slice()) {
                        Ok(HashAlgorithm::Sha512)
                    } else {
                        Err(PassrsError::InvalidHashAlgorithm(string_of(name.as_slice())))
                    }
                },
            }
        },
        None => Err(PassrsError::UriMismatch),
    }
}

/// Checks a key URI: it must match the pattern and its secret must be base32.
pub fn validate(uri: &str) -> (r: Result<(), PassrsError>)
    ensures
        r is Ok <==> uri_is_valid(uri@),
        r is Err ==> r == Err::<(), PassrsError>(PassrsError::InvalidKeyUri),
{
    match get_base32_secret(uri) {
        Ok(secret) => {
            let upper = to_ascii_uppercase_bytes(secret.as_str().as_bytes());
            match crate::otp::base32_decode(upper.as_slice()) {
                Ok(_) => Ok(()),
                Err(_) => Err(PassrsError::InvalidKeyUri),
            }
        },
        Err(_) => Err(PassrsError::InvalidKeyUri),
    }
}

} // verus!
