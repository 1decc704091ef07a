//! String and character helpers used throughout the library.
use vstd::prelude::*;

verus! {

pub assume_specification[ String::push ](s: &mut String, ch: char)
    ensures
        final(s)@ == old(s)@.push(ch),
;

/// The characters of `s`, in order.
pub fn chars_of(s: &str) -> (v: Vec<char>)
    ensures
        v@ == s@,
{
    let mut v: Vec<char> = Vec::new();
    for c in it: s.chars()
        invariant
            v@ == it.seq().take(it.index() as int),
            it.seq() == s@,
    {
        v.push(c);
    }
    v
}

/// Appends the characters of `t` to `s`.
pub fn push_str(s: &mut String, t: &str)
    ensures
        final(s)@ == old(s)@ + t@,
{
    let ghost start = s@;
    for c in it: t.chars()
        invariant
            s@ == start + it.seq().take(it.index() as int),
            it.seq() == t@,
    {
        s.push(c);
        assert(start + it.seq().take(it.index() as int).push(c) =~= start + it.seq().take(it.index() + 1));
    }
    assert(t@.take(t@.len() as int) =~= t@);
}

/// A `String` holding exactly the characters of `v`.
pub fn string_of(v: &[char]) -> (s: String)
    ensures
        s@ == v@,
{
    let mut s = String::new();
    let mut i: usize = 0;
    while i < v.len()
        invariant
            i <= v.len(),
            s@ == v@.take(i as int),
        decreases v.len() - i,
    {
        s.push(v[i]);
        assert(v@.take(i as int).push(v@[i as int]) =~= v@.take(i + 1));
        i += 1;
    }
    assert(v@.take(v.len() as int) =~= v@);
    s
}

} // verus!

verus! {

/// The decimal digit character for `d < 10`.
pub open spec fn digit_char(d: nat) -> char {
    ((d + 48) as u32) as char
}

/// The shortest decimal spelling of `n` (`"0"` for zero).
pub open spec fn decimal(n: nat) -> Seq<char>
    decreases n,
{
    if n < 10 {
        seq![digit_char(n)]
    } else {
        decimal(n / 10).push(digit_char(n % 10))
    }
}

/// `10^n`.
pub open spec fn pow10(n: nat) -> nat
    decreases n,
{
    if n == 0 {
        1
    } else {
        10 * pow10((n - 1) as nat)
    }
}

pub proof fn lemma_pow10_positive(n: nat)
    ensures
        pow10(n) >= 1,
    decreases n,
{
    if n > 0 {
        lemma_pow10_positive((n - 1) as nat);
    }
}

/// `s` preceded by as many `'0'`s as it takes to reach `width` characters.
pub open spec fn pad_zeros(s: Seq<char>, width: nat) -> Seq<char> {
    if s.len() >= width {
        s
    } else {
        Seq::new((width - s.len()) as nat, |_i: int| '0') + s
    }
}

/// The decimal spelling of `n`, as `format!("{}", n)` writes it.
pub fn format_decimal(n: u64) -> (s: String)
    ensures
        s@ == decimal(n as nat),
{
    let mut rev: Vec<char> = Vec::new();
    let mut rest: u64 = n;
    let ghost mut suffix: Seq<char> = Seq::empty();
    while rest >= 10
        invariant
            decimal(n as nat) == decimal(rest as nat) + suffix,
            rev@.len() == suffix.len(),
            forall|k: int| 0 <= k < rev@.len() ==> rev@[k] == suffix[suffix.len() - 1 - k],
        decreases rest,
    {
        let d = rest % 10;
        let c = ((d as u8) + 48) as char;
        assert(c == digit_char((rest % 10) as nat));
        proof {
            assert(decimal(rest as nat) == decimal((rest / 10) as nat).push(c));
            assert(decimal(n as nat) =~= decimal((rest / 10) as nat) + (seq![c] + suffix));
        }
        rev.push(c);
        proof {
            suffix = seq![c] + suffix;
        }
        rest = rest / 10;
    }
    let c = ((rest as u8) + 48) as char;
    assert(c == digit_char(rest as nat));
    rev.push(c);
    proof {
        assert(decimal(n as nat) =~= seq![c] + suffix);
        suffix = seq![c] + suffix;
    }
    assert(suffix == decimal(n as nat));
    let mut out: Vec<char> = Vec::new();
    let mut i: usize = rev.len();
    while i > 0
        invariant
            i <= rev.len(),
            rev@.len() == suffix.len(),
            forall|k: int| 0 <= k < rev@.len() ==> rev@[k] == suffix[suffix.len() - 1 - k],
            out@ =~= suffix.take(rev.len() - i),
        decreases i,
    {
        i -= 1;
        out.push(rev[i]);
        assert(out@ =~= suffix.take(rev.len() - i));
    }
    assert(suffix.take(rev.len() as int) =~= suffix);
    string_of(&out)
}

/// `format!("{:0width$}", n)`: the decimal spelling of `n`, zero-padded on the left to `width`.
pub fn format_decimal_padded(n: u64, width: usize) -> (s: String)
    ensures
        s@ == pad_zeros(decimal(n as nat), width as nat),
{
    let digits = format_decimal(n);
    let dv = chars_of(digits.as_str());
    if dv.len() >= width {
        return digits;
    }
    let mut out: Vec<char> = Vec::new();
    let pad = width - dv.len();
    let mut i: usize = 0;
    while i < pad
        invariant
            i <= pad,
            out@ =~= Seq::new(i as nat, |_j: int| '0'),
        decreases pad - i,
    {
        out.push('0');
        i += 1;
    }
    let mut j: usize = 0;
    while j < dv.len()
        invariant
            j <= dv.len(),
            out@ =~= Seq::new(pad as nat, |_k: int| '0') + dv@.take(j as int),
        decreases dv.len() - j,
    {
        out.push(dv[j]);
        assert(dv@.take(j as int).push(dv@[j as int]) =~= dv@.take(j + 1));
        j += 1;
    }
    assert(dv@.take(dv.len() as int) =~= dv@);
    string_of(&out)
}

} // verus!

verus! {

/// `c` is a digit of base `radix` (at most ten): one of `'0'` to the digit
/// before `radix`.
pub open spec fn is_digit(c: char, radix: nat) -> bool {
    48 <= (c as u32) && (c as u32) < 48 + radix
}

/// The number that a string of digits spells in base `radix`.
pub open spec fn digits_value(d: Seq<char>, radix: nat) -> nat
    decreases d.len(),
{
    if d.len() == 0 {
        0
    } else {
        digits_value(d.drop_last(), radix) * radix + ((d.last() as u32) - 48) as nat
    }
}

/// The ways in which reading an integer from text fails, as `core::num::IntErrorKind`
/// names them for an unsigned type.
#[derive(Debug, Clone, Copy, PartialEq, Eq, Structural)]
pub enum IntErrorKind {
    /// The text is empty.
    Empty,
    /// The text holds a character that is not a digit (or only a sign).
    InvalidDigit,
    /// The number is too large for the type.
    PosOverflow,
}

/// The part of `s` after an optional leading `'+'`.
pub open spec fn unsigned_body(s: Seq<char>) -> Seq<char> {
    if s.len() > 0 && s[0] == '+' {
        s.drop_first()
    } else {
        s
    }
}

/// Reading the digits `d` from the left, the first thing that goes wrong: a
/// character that is no digit, or a prefix whose value exceeds `max`.
pub open spec fn scan_error(d: Seq<char>, max: nat, radix: nat) -> Option<IntErrorKind>
    decreases d.len(),
{
    if d.len() == 0 {
        None
    } else {
        match scan_error(d.drop_last(), max, radix) {
            Some(e) => Some(e),
            None => if !is_digit(d.last(), radix) {
                Some(IntErrorKind::InvalidDigit)
            } else if digits_value(d, radix) > max {
                Some(IntErrorKind::PosOverflow)
            } else {
                None
            },
        }
    }
}

/// What `from_str_radix` gives for an unsigned integer type whose largest
/// value is `max`: an optional `'+'`, then at least one digit and nothing
/// else, with a value that fits; otherwise the kind of error it reports.
pub open spec fn parse_result_radix(s: Seq<char>, max: nat, radix: nat) -> Result<nat, IntErrorKind> {
    if s.len() == 0 {
        Err(IntErrorKind::Empty)
    } else if s.len() == 1 && s[0] == '+' {
        Err(IntErrorKind::InvalidDigit)
    } else {
        match scan_error(unsigned_body(s), max, radix) {
            Some(e) => Err(e),
            None => Ok(digits_value(unsigned_body(s), radix)),
        }
    }
}

/// What `str::parse` gives for an unsigned integer type whose largest value is
/// `max` (base ten).
pub open spec fn parse_result(s: Seq<char>, max: nat) -> Result<nat, IntErrorKind> {
    parse_result_radix(s, max, 10)
}

/// Parses `s` in base `radix` (eight or ten) as `from_str_radix` does for an
/// unsigned type whose largest value is `max`.
pub fn parse_radix(s: &[char], max: u64, radix: u64) -> (r: Result<u64, IntErrorKind>)
    requires
        radix == 8 || radix == 10,
    ensures
        match parse_result_radix(s@, max as nat, radix as nat) {
            Ok(v) => r == Ok::<u64, IntErrorKind>(v as u64),
            Err(e) => r == Err::<u64, IntErrorKind>(e),
        },
{
    if s.len() == 0 {
        return Err(IntErrorKind::Empty);
    }
    if s.len() == 1 && s[0] == '+' {
        return Err(IntErrorKind::InvalidDigit);
    }
    let start: usize = if s[0] == '+' {
        1
    } else {
        0
    };
    let ghost d = unsigned_body(s@);
    assert(d =~= s@.subrange(start as int, s@.len() as int));
    let mut acc: u64 = 0;
    let mut i: usize = start;
    assert(d.take(0) =~= Seq::<char>::empty());
    while i < s.len()
        invariant
            start <= i <= s.len(),
            radix == 8 || radix == 10,
            d =~= s@.subrange(start as int, s@.len() as int),
            d == unsigned_body(s@),
            acc as nat == digits_value(d.take(i - start), radix as nat),
            acc <= max,
            scan_error(d.take(i - start), max as nat, radix as nat) is None,
        decreases s.len() - i,
    {
        let c = s[i];
        let ghost k = i - start;
        assert(d.take(k + 1).drop_last() =~= d.take(k));
        assert(d.take(k + 1).last() == c);
        let cu = c as u32;
        if !(48 <= cu && cu < 48 + radix as u32) {
            proof {
                lemma_scan_error_prefix(d, k + 1, max as nat, radix as nat);
            }
            return Err(IntErrorKind::InvalidDigit);
        }
        let digit: u64 = (cu - 48) as u64;
        assert(digits_value(d.take(k + 1), radix as nat) == acc * radix + digit);
        let next: Option<u64> = match acc.checked_mul(radix) {
            Some(m) => m.checked_add(digit),
            None => None,
        };
        let fits = match next {
            Some(v) => v <= max,
            None => false,
        };
        if !fits {
            proof {
                lemma_scan_error_prefix(d, k + 1, max as nat, radix as nat);
            }
            return Err(IntErrorKind::PosOverflow);
        }
        acc = next.unwrap();
        i += 1;
    }
    assert(d.take(d.len() as int) =~= d);
    Ok(acc)
}

/// Parses `s` as `str::parse::<u64>` would, failing also where the value
/// exceeds `max` (as it does for a narrower type).
pub fn parse_bounded(s: &[char], max: u64) -> (r: Result<u64, IntErrorKind>)
    ensures
        match parse_result(s@, max as nat) {
            Ok(v) => r == Ok::<u64, IntErrorKind>(v as u64),
            Err(e) => r == Err::<u64, IntErrorKind>(e),
        },
{
    parse_radix(s, max, 10)
}

/// Reading back the decimal spelling of a number gives the number, where it
/// fits.
pub proof fn lemma_parse_decimal(n: nat, max: nat)
    requires
        n <= max,
    ensures
        parse_result(decimal(n), max) == Ok::<nat, IntErrorKind>(n),
{
    lemma_decimal_scan(n, max);
    let d = decimal(n);
    assert(d[0] != '+') by {
        lemma_decimal_first(n);
    }
    assert(unsigned_body(d) == d);
}

proof fn lemma_decimal_first(n: nat)
    ensures
        decimal(n).len() >= 1,
        48 <= (decimal(n)[0] as u32) < 58,
    decreases n,
{
    if n >= 10 {
        lemma_decimal_first(n / 10);
        assert(decimal(n)[0] == decimal(n / 10)[0]);
    }
}

proof fn lemma_decimal_scan(n: nat, max: nat)
    requires
        n <= max,
    ensures
        scan_error(decimal(n), max, 10) is None,
        digits_value(decimal(n), 10) == n,
    decreases n,
{
    let d = decimal(n);
    if n < 10 {
        assert(d.drop_last() =~= Seq::<char>::empty());
        assert(digits_value(d.drop_last(), 10) == 0);
    } else {
        lemma_decimal_scan(n / 10, max);
        assert(d.drop_last() =~= decimal(n / 10));
        assert(d.last() == digit_char(n % 10));
        assert(digits_value(d, 10) == (n / 10) * 10 + n % 10);
    }
}

/// Once a prefix of `d` goes wrong, `d` goes wrong in the same way.
proof fn lemma_scan_error_prefix(d: Seq<char>, i: int, max: nat, radix: nat)
    requires
        0 <= i <= d.len(),
        scan_error(d.take(i), max, radix) is Some,
    ensures
        scan_error(d, max, radix) == scan_error(d.take(i), max, radix),
    decreases d.len(),
{
    if i < d.len() {
        assert(d.drop_last().take(i) =~= d.take(i));
        lemma_scan_error_prefix(d.drop_last(), i, max, radix);
    } else {
        assert(d.take(i) =~= d);
    }
}

/// ASCII lower-casing of one character, as `char::to_ascii_lowercase` does it.
pub open spec fn lower_char(c: char) -> char {
    if 'A' <= c && c <= 'Z' {
        ((c as u32) + 32) as char
    } else {
        c
    }
}

/// `str::to_ascii_lowercase` on the characters of a string.
pub open spec fn ascii_lower(s: Seq<char>) -> Seq<char> {
    s.map_values(|c: char| lower_char(c))
}

/// Every character of `s` is ASCII.
pub open spec fn is_ascii_text(s: Seq<char>) -> bool {
    forall|i: int| 0 <= i < s.len() ==> (#[trigger] s[i] as u32) < 128
}

/// ASCII lower-casing keeps text ASCII and lower-cases it once for all.
pub proof fn lemma_ascii_lower_idempotent(s: Seq<char>)
    requires
        is_ascii_text(s),
    ensures
        is_ascii_text(ascii_lower(s)),
        ascii_lower(ascii_lower(s)) == ascii_lower(s),
{
    let l = ascii_lower(s);
    assert forall|i: int| 0 <= i < l.len() implies (#[trigger] l[i] as u32) < 128 && lower_char(l[i])
        == l[i] by {
        let c = s[i];
        assert(l[i] == lower_char(c));
        if 'A' <= c && c <= 'Z' {
            assert(65 <= (c as u32) <= 90);
            assert((((c as u32) + 32) as char) as u32 == (c as u32) + 32);
        }
    }
    assert(ascii_lower(l) =~= l);
}

/// ASCII upper-casing of one byte, as `u8::to_ascii_uppercase` does it.
pub open spec fn upper_byte(b: u8) -> u8 {
    if 97 <= b && b <= 122 {
        (b - 32) as u8
    } else {
        b
    }
}

/// `[u8]::to_ascii_uppercase`.
pub open spec fn ascii_upper_bytes(s: Seq<u8>) -> Seq<u8> {
    s.map_values(|b: u8| upper_byte(b))
}

/// The ASCII lower-case form of `s`, as `str::to_ascii_lowercase` returns it.
pub fn to_ascii_lowercase(s: &[char]) -> (r: Vec<char>)
    ensures
        r@ == ascii_lower(s@),
{
    let mut r: Vec<char> = Vec::new();
    let mut i: usize = 0;
    while i < s.len()
        invariant
            i <= s.len(),
            r@ =~= ascii_lower(s@.take(i as int)),
        decreases s.len() - i,
    {
        let c = s[i];
        let l = if 'A' <= c && c <= 'Z' {
            ((c as u8) + 32) as char
        } else {
            c
        };
        r.push(l);
        assert(ascii_lower(s@.take(i + 1)) =~= ascii_lower(s@.take(i as int)).push(lower_char(c)));
        i += 1;
    }
    assert(s@.take(s.len() as int) =~= s@);
    r
}

/// The ASCII upper-case form of the bytes `s`, as `<[u8]>::to_ascii_uppercase` returns it.
pub fn to_ascii_uppercase_bytes(s: &[u8]) -> (r: Vec<u8>)
    ensures
        r@ == ascii_upper_bytes(s@),
{
    let mut r: Vec<u8> = Vec::new();
    let mut i: usize = 0;
    while i < s.len()
        invariant
            i <= s.len(),
            r@ =~= ascii_upper_bytes(s@.take(i as int)),
        decreases s.len() - i,
    {
        let b = s[i];
        let u = if 97 <= b && b <= 122 {
            b - 32
        } else {
            b
        };
        r.push(u);
        assert(ascii_upper_bytes(s@.take(i + 1)) =~= ascii_upper_bytes(s@.take(i as int)).push(upper_byte(b)));
        i += 1;
    }
    assert(s@.take(s.len() as int) =~= s@);
    r
}

} // verus!

verus! {

/// Whether `a` and `b` hold the same characters.
pub fn chars_eq(a: &[char], b: &[char]) -> (r: bool)
    ensures
        r == (a@ == b@),
{
    if a.len() != b.len() {
        return false;
    }
    let mut i: usize = 0;
    while i < a.len()
        invariant
            i <= a.len() == b.len(),
            forall|k: int| 0 <= k < i ==> a@[k] == b@[k],
        decreases a.len() - i,
    {
        if a[i] != b[i] {
            return false;
        }
        i += 1;
    }
    assert(a@ =~= b@);
    true
}

/// The characters of `s` from `start` up to `end`.
pub fn sub_chars(s: &[char], start: usize, end: usize) -> (r: Vec<char>)
    requires
        start <= end <= s@.len(),
    ensures
        r@ == s@.subrange(start as int, end as int),
{
    vstd::slice::slice_to_vec(vstd::slice::slice_subrange(s, start, end))
}

/// `t` occurs in `s` at position `i`.
pub open spec fn occurs_at(s: Seq<char>, t: Seq<char>, i: int) -> bool {
    0 <= i && i + t.len() <= s.len() && s.subrange(i, i + t.len()) == t
}

/// `t` occurs somewhere in `s` (`str::contains` with a string pattern).
pub open spec fn seq_contains(s: Seq<char>, t: Seq<char>) -> bool {
    exists|i: int| occurs_at(s, t, i)
}

/// Whether `t` occurs in `s`.
pub fn contains_chars(s: &[char], t: &[char]) -> (r: bool)
    ensures
        r == seq_contains(s@, t@),
{
    if t.len() > s.len() {
        assert(forall|i: int| !occurs_at(s@, t@, i));
        return false;
    }
    let mut i: usize = 0;
    while i <= s.len() - t.len()
        invariant
            t@.len() <= s@.len(),
            i <= s@.len() - t@.len() + 1,
            forall|j: int| 0 <= j < i ==> !occurs_at(s@, t@, j),
        decreases s.len() - t.len() + 1 - i,
    {
        let mut k: usize = 0;
        let mut same = true;
        while k < t.len()
            invariant
                k <= t@.len(),
                i + t@.len() <= s@.len(),
                i + t.len() <= s.len(),
                same == forall|m: int| 0 <= m < k ==> s@[i + m] == t@[m],
            decreases t.len() - k,
        {
            if s[i + k] != t[k] {
                same = false;
            }
            k += 1;
        }
        if same {
            assert(s@.subrange(i as int, i + t@.len()) =~= t@);
            assert(occurs_at(s@, t@, i as int));
            return true;
        }
        assert(!occurs_at(s@, t@, i as int)) by {
            if s@.subrange(i as int, i + t@.len()) == t@ {
                let m = choose|m: int| 0 <= m < t@.len() && s@[i + m] != t@[m];
                assert(s@.subrange(i as int, i + t@.len())[m] == s@[i + m]);
            }
        }
        i += 1;
    }
    assert(forall|j: int| occurs_at(s@, t@, j) ==> 0 <= j < i);
    false
}

/// `t` with every `'~'` replaced by `home` (`str::replace("~", home)`).
pub open spec fn replace_tilde(t: Seq<char>, home: Seq<char>) -> Seq<char>
    decreases t.len(),
{
    if t.len() == 0 {
        Seq::empty()
    } else {
        replace_tilde(t.drop_last(), home) + if t.last() == '~' {
            home
        } else {
            seq![t.last()]
        }
    }
}

/// `t` with every `'~'` replaced by `home`.
pub fn replace_tilde_exec(t: &str, home: &str) -> (r: String)
    ensures
        r@ == replace_tilde(t@, home@),
{
    let cs = chars_of(t);
    let mut out = String::new();
    let mut i: usize = 0;
    while i < cs.len()
        invariant
            i <= cs@.len(),
            cs@ == t@,
            out@ == replace_tilde(cs@.take(i as int), home@),
        decreases cs.len() - i,
    {
        assert(cs@.take(i + 1).drop_last() =~= cs@.take(i as int));
        if cs[i] == '~' {
            push_str(&mut out, home);
        } else {
            out.push(cs[i]);
        }
        i += 1;
    }
    assert(cs@.take(cs.len() as int) =~= cs@);
    out
}

} // verus!
