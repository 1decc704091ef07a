//! The logic of the `otp` subcommands: codes from stored key URIs, and key
//! URIs built from bare secrets.
use vstd::prelude::*;
use vstd::utf8::encode_utf8;

use crate::error::PassrsError;
use crate::otp::{
    secret_key_bytes, totp_code, unix_now, HashAlgorithm, TOTPBuilder, TotpParams,
};
use crate::text::{ascii_lower, chars_eq, chars_of, decimal, format_decimal, to_ascii_lowercase, string_of};
use crate::otp_uri::{
    get_algorithm, get_base32_secret, get_digits, get_period, in_class, is_sep, lit_at, match_at,
    match_tail, param_name, run_end, scheme, secret_name, spec_algorithm, spec_base32_secret,
    spec_digits, spec_period, totp_type, try_label_ends, try_value_ends, find_match_from,
    uri_captures, uri_is_valid, validate,
    CharClass, UriSpans,
};

verus! {

/// The secret, period, algorithm and digits of a key URI, where all four read
/// without error.
pub open spec fn totp_uri_fields(s: Seq<char>) -> Option<(Seq<char>, nat, HashAlgorithm, nat)> {
    match (spec_base32_secret(s), spec_period(s), spec_algorithm(s), spec_digits(s)) {
        (Some(secret), Ok(p), Some(Ok(a)), Ok(d)) => Some((secret, p, a, d)),
        _ => None,
    }
}

/// A key URI from which a TOTP code can be made once its fields are read: the
/// secret is base32, the period is not zero and there are at most nine digits.
pub open spec fn totp_uri_usable(s: Seq<char>) -> bool {
    totp_uri_fields(s) matches Some((secret, p, a, d)) ==> {
        &&& secret_key_bytes(encode_utf8(secret)) is Some
        &&& p > 0
        &&& d <= 9
    }
}

/// The TOTP generator that a key URI describes.
pub open spec fn totp_params_for(secret: Seq<char>, p: nat, a: HashAlgorithm, d: nat) -> TotpParams {
    TotpParams {
        key: secret_key_bytes(encode_utf8(secret))->0,
        counter: 0,
        timestamp_offset: 0,
        output_len: d as usize,
        algorithm: a,
        period: p as u64,
    }
}

/// What `generate_totp_at` returns, where it fails: the first field of the URI
/// (secret, period, algorithm, digits) that does not read.
pub open spec fn totp_uri_failure(s: Seq<char>, r: Result<String, PassrsError>) -> bool {
    if spec_base32_secret(s) is None {
        r == Err::<String, PassrsError>(PassrsError::UriMismatch)
    } else if spec_period(s) is Err {
        r == Err::<String, PassrsError>(spec_period(s)->Err_0)
    } else if spec_algorithm(s) matches Some(Err(_)) {
        r matches Err(PassrsError::InvalidHashAlgorithm(n)) && n@ == spec_algorithm(s)->0->Err_0
    } else {
        r == Err::<String, PassrsError>(spec_digits(s)->Err_0)
    }
}

/// The TOTP code that the key URI `otp` gives at clock reading `now`.
pub fn generate_totp_at(otp: &str, now: u64) -> (r: Result<String, PassrsError>)
    requires
        totp_uri_usable(otp@),
    ensures
        match totp_uri_fields(otp@) {
            Some((secret, p, a, d)) => r matches Ok(code) && code@ == totp_code(
                totp_params_for(secret, p, a, d),
                now,
            ),
            None => totp_uri_failure(otp@, r),
        },
{
    let secret = match get_base32_secret(otp) {
        Ok(s) => s,
        Err(e) => {
            return Err(e);
        },
    };
    let period = match get_period(otp) {
        Ok(p) => p,
        Err(e) => {
            return Err(e);
        },
    };
    let algorithm = match get_algorithm(otp) {
        Ok(a) => a,
        Err(e) => {
            return Err(e);
        },
    };
    let digits = match get_digits(otp) {
        Ok(d) => d,
        Err(e) => {
            return Err(e);
        },
    };
    let mut builder = TOTPBuilder::default();
    builder.base32_secret(secret.as_str().as_bytes());
    builder.period(period);
    builder.algorithm(algorithm);
    builder.output_len(digits);
    let auth = builder.build();
    Ok(auth.generate_at(now))
}

/// The TOTP code that the key URI `otp` gives now.
pub fn generate_totp(otp: &str) -> (r: Result<String, PassrsError>)
    requires
        totp_uri_usable(otp@),
    ensures
        match totp_uri_fields(otp@) {
            Some((secret, p, a, d)) => r matches Ok(code) && exists|now: u64|
                code@ == #[trigger] totp_code(totp_params_for(secret, p, a, d), now),
            None => totp_uri_failure(otp@, r),
        },
{
    let now = unix_now();
    generate_totp_at(otp, now)
}

/// Generates the code as `generate_totp` does where the URI is usable, and
/// gives `None` where it is not.
pub fn try_generate_totp(otp: &str) -> (r: Option<Result<String, PassrsError>>)
    ensures
        r is None <==> !totp_uri_usable(otp@),
        r matches Some(r) ==> match totp_uri_fields(otp@) {
            Some((secret, p, a, d)) => r matches Ok(code) && exists|now: u64|
                code@ == #[trigger] totp_code(totp_params_for(secret, p, a, d), now),
            None => totp_uri_failure(otp@, r),
        },
{
    let secret = get_base32_secret(otp);
    let period = get_period(otp);
    let algorithm = get_algorithm(otp);
    let digits = get_digits(otp);
    match (secret, period, algorithm, digits) {
        (Ok(secret), Ok(p), Ok(_), Ok(d)) => {
            let mut probe = TOTPBuilder::default();
            if !probe.try_base32_secret(secret.as_str().as_bytes()) || p == 0 || d > 9 {
                return None;
            }
        },
        _ => {},
    }
    Some(generate_totp(otp))
}

/// The index of the first valid key URI among `lines`, as the `otp code` and
/// `otp uri` subcommands pick it from a decrypted entry.
pub fn first_valid_uri(lines: &[String]) -> (r: Option<usize>)
    ensures
        match r {
            Some(i) => i < lines@.len() && uri_is_valid(lines@[i as int]@) && forall|j: int|
                0 <= j < i ==> !uri_is_valid(#[trigger] lines@[j]@),
            None => forall|j: int| 0 <= j < lines@.len() ==> !uri_is_valid(#[trigger] lines@[j]@),
        },
{
    let mut i: usize = 0;
    while i < lines.len()
        invariant
            i <= lines@.len(),
            forall|j: int| 0 <= j < i ==> !uri_is_valid(#[trigger] lines@[j]@),
        decreases lines.len() - i,
    {
        if validate(lines[i].as_str()).is_ok() {
            return Some(i);
        }
        i += 1;
    }
    None
}

/// The view of an optional string.
pub open spec fn opt_chars(o: Option<&str>) -> Option<Seq<char>> {
    match o {
        Some(s) => Some(s@),
        None => None,
    }
}

/// The name of a hash function as a key URI writes it.
pub open spec fn algorithm_name(a: HashAlgorithm) -> Seq<char> {
    match a {
        HashAlgorithm::Sha1 => "SHA1"@,
        HashAlgorithm::Sha256 => "SHA256"@,
        HashAlgorithm::Sha512 => "SHA512"@,
    }
}

/// The hash function named (in any case) `sha1`, `sha256` or `sha512`; `None`
/// for any other name.
pub open spec fn named_algorithm(name: Seq<char>) -> Option<HashAlgorithm> {
    let l = ascii_lower(name);
    if l == "sha512"@ {
        Some(HashAlgorithm::Sha512)
    } else if l == "sha256"@ {
        Some(HashAlgorithm::Sha256)
    } else if l == "sha1"@ {
        Some(HashAlgorithm::Sha1)
    } else {
        None
    }
}

/// The hash function that `otp append` writes for an optional name: any
/// unknown name stands for SHA1.
pub open spec fn lenient_algorithm(algo: Option<Seq<char>>) -> Option<HashAlgorithm> {
    match algo {
        None => None,
        Some(n) => match named_algorithm(n) {
            Some(a) => Some(a),
            None => Some(HashAlgorithm::Sha1),
        },
    }
}

/// The values of the optional parameters of a built key URI, in the order in
/// which the key URI pattern reads them: issuer (never written), algorithm,
/// digits and period.
pub open spec fn uri_values(algo: Option<HashAlgorithm>, digits: Option<usize>, period: Option<u32>) -> Seq<
    Option<Seq<char>>,
> {
    seq![
        None,
        match algo {
            Some(a) => Some(algorithm_name(a)),
            None => None,
        },
        match digits {
            Some(d) => Some(decimal(d as nat)),
            None => None,
        },
        match period {
            Some(p) => Some(decimal(p as nat)),
            None => None,
        },
    ]
}

/// Parameter number `g` as written, `NAME=VALUE&`, or nothing where it has no
/// value.
pub open spec fn param_part(vals: Seq<Option<Seq<char>>>, g: int) -> Seq<char> {
    match vals[g] {
        Some(v) => param_name(g) + v + "&"@,
        None => Seq::empty(),
    }
}

/// The optional parameters from number `g` on, as written.
pub open spec fn params_from(vals: Seq<Option<Seq<char>>>, g: int) -> Seq<char>
    decreases 4 - g,
{
    if g >= 4 {
        Seq::empty()
    } else {
        param_part(vals, g) + params_from(vals, g + 1)
    }
}

/// The key URI built from a bare secret: `otpauth://totp/NAME?`, then the
/// optional parameters that are given (each followed by `&`), then
/// `secret=SECRET`. The parameters stand before the secret, in the order in
/// which the key URI pattern reads them, so that they are read back.
pub open spec fn built_uri(
    name: Seq<char>,
    secret: Seq<char>,
    algo: Option<HashAlgorithm>,
    digits: Option<usize>,
    period: Option<u32>,
) -> Seq<char> {
    "otpauth://totp/"@ + name + "?"@ + params_from(uri_values(algo, digits, period), 0) + "secret="@
        + secret
}

/// Appends `n` in decimal.
fn push_decimal(s: &mut String, n: u64)
    ensures
        final(s)@ == old(s)@ + decimal(n as nat),
{
    let d = format_decimal(n);
    s.append(d.as_str());
}

/// The hash function that `name` names, if any.
fn algorithm_of_name(name: &str) -> (r: Option<HashAlgorithm>)
    ensures
        r == named_algorithm(name@),
{
    let l = to_ascii_lowercase(chars_of(name).as_slice());
    if chars_eq(l.as_slice(), chars_of("sha512").as_slice()) {
        Some(HashAlgorithm::Sha512)
    } else if chars_eq(l.as_slice(), chars_of("sha256").as_slice()) {
        Some(HashAlgorithm::Sha256)
    } else if chars_eq(l.as_slice(), chars_of("sha1").as_slice()) {
        Some(HashAlgorithm::Sha1)
    } else {
        None
    }
}

/// Appends the `algorithm=` parameter, where a hash function is given.
fn push_algorithm_part(s: &mut String, algo: Option<HashAlgorithm>, digits: Option<usize>, period: Option<u32>)
    ensures
        final(s)@ == old(s)@ + param_part(uri_values(algo, digits, period), 1),
{
    match algo {
        Some(a) => {
            s.append("algorithm=");
            match a {
                HashAlgorithm::Sha1 => s.append("SHA1"),
                HashAlgorithm::Sha256 => s.append("SHA256"),
                HashAlgorithm::Sha512 => s.append("SHA512"),
            }
            s.append("&");
        },
        None => {},
    }
    assert(s@ =~= old(s)@ + param_part(uri_values(algo, digits, period), 1));
}

/// Appends `NAME` (a parameter's name with its `=`), `n` in decimal, and `&`.
fn push_number_part(s: &mut String, name: &str, n: u64)
    ensures
        final(s)@ == old(s)@ + (name@ + decimal(n as nat) + "&"@),
{
    s.append(name);
    push_decimal(s, n);
    s.append("&");
    assert(s@ =~= old(s)@ + (name@ + decimal(n as nat) + "&"@));
}

/// The optional parameters, written one after the other.
proof fn lemma_params_from(vals: Seq<Option<Seq<char>>>)
    ensures
        params_from(vals, 0) == param_part(vals, 0) + param_part(vals, 1) + param_part(vals, 2)
            + param_part(vals, 3),
{
    reveal_with_fuel(params_from, 5);
    assert(params_from(vals, 0) =~= param_part(vals, 0) + param_part(vals, 1) + param_part(vals, 2)
        + param_part(vals, 3));
}

/// Appends the optional parameters that are given, each followed by `&`.
fn push_params(s: &mut String, algo: Option<HashAlgorithm>, digits: Option<usize>, period: Option<u32>)
    ensures
        final(s)@ == old(s)@ + params_from(uri_values(algo, digits, period), 0),
{
    let ghost vals = uri_values(algo, digits, period);
    push_algorithm_part(s, algo, digits, period);
    match digits {
        Some(d) => push_number_part(s, "digits=", d as u64),
        None => {},
    }
    match period {
        Some(p) => push_number_part(s, "period=", p as u64),
        None => {},
    }
    proof {
        lemma_params_from(vals);
        assert(param_part(vals, 0) =~= Seq::<char>::empty());
        assert(s@ =~= old(s)@ + params_from(vals, 0));
    }
}

/// Builds the key URI of a bare secret.
fn build_uri(
    secret_name: &str,
    secret: &str,
    algo: Option<HashAlgorithm>,
    digits: Option<usize>,
    period: Option<u32>,
) -> (uri: String)
    ensures
        uri@ == built_uri(secret_name@, secret@, algo, digits, period),
{
    let mut uri = String::from_str("otpauth://totp/");
    uri.append(secret_name);
    uri.append("?");
    push_params(&mut uri, algo, digits, period);
    uri.append("secret=");
    uri.append(secret);
    uri
}

/// The key URI that `otp append --from-secret` makes of a bare secret. An
/// unknown hash function name stands for SHA1.
pub fn append_uri(
    secret_name: &str,
    secret: &str,
    algo: Option<&str>,
    digits: Option<usize>,
    period: Option<u32>,
) -> (uri: String)
    ensures
        uri@ == built_uri(secret_name@, secret@, lenient_algorithm(opt_chars(algo)), digits, period),
{
    let a = match algo {
        Some(n) => match algorithm_of_name(n) {
            Some(h) => Some(h),
            None => Some(HashAlgorithm::Sha1),
        },
        None => None,
    };
    build_uri(secret_name, secret, a, digits, period)
}

/// The key URI that `otp insert --from-secret` makes of a bare secret; an
/// unknown hash function name is an error that carries the name, lower-cased.
pub fn insert_uri(
    secret_name: &str,
    secret: &str,
    algo: Option<&str>,
    digits: Option<usize>,
    period: Option<u32>,
) -> (r: Result<String, PassrsError>)
    ensures
        match algo {
            Some(a) => match named_algorithm(a@) {
                Some(h) => r matches Ok(uri) && uri@ == built_uri(secret_name@, secret@, Some(h), digits, period),
                None => r matches Err(PassrsError::InvalidHashAlgorithm(n)) && n@ == ascii_lower(a@),
            },
            None => r matches Ok(uri) && uri@ == built_uri(secret_name@, secret@, None, digits, period),
        },
{
    match algo {
        Some(a) => match algorithm_of_name(a) {
            Some(h) => Ok(build_uri(secret_name, secret, Some(h), digits, period)),
            None => {
                let l = to_ascii_lowercase(chars_of(a).as_slice());
                Err(PassrsError::InvalidHashAlgorithm(string_of(l.as_slice())))
            },
        },
        None => Ok(build_uri(secret_name, secret, None, digits, period)),
    }
}

/// A run of one class of characters ends where the first character outside
/// the class stands.
proof fn lemma_run_end(s: Seq<char>, k: int, e: int, class: CharClass)
    requires
        0 <= k <= e <= s.len(),
        forall|j: int| k <= j < e ==> in_class(class, #[trigger] s[j]),
        e == s.len() || !in_class(class, s[e]),
    ensures
        run_end(s, k, class) == e,
    decreases e - k,
{
    if k < e {
        assert(in_class(class, s[k]));
        lemma_run_end(s, k + 1, e, class);
    }
}

/// `s` holds `body` from position `k + 1` to its end.
spec fn tail_is(s: Seq<char>, k: int, body: Seq<char>) -> bool {
    &&& s.len() == k + 1 + body.len()
    &&& forall|i: int| 0 <= i < body.len() ==> s[k + 1 + i] == #[trigger] body[i]
}

/// Four optional parameter values, none of which holds `&` or `#`.
spec fn values_fit(vals: Seq<Option<Seq<char>>>) -> bool {
    &&& vals.len() == 4
    &&& forall|g: int, i: int|
        0 <= g < 4 && vals[g] is Some && 0 <= i < vals[g]->0.len() ==> in_class(
            CharClass::Value,
            #[trigger] vals[g]->0[i],
        )
}

/// The first character of the parameters from number `g` on, followed by the
/// secret parameter.
spec fn lead(vals: Seq<Option<Seq<char>>>, g: int) -> char
    decreases 4 - g,
{
    if g >= 4 {
        's'
    } else if vals[g] is Some {
        param_name(g)[0]
    } else {
        lead(vals, g + 1)
    }
}

proof fn lemma_first_letters()
    ensures
        param_name(0).len() == 7 && param_name(0)[0] == 'i',
        param_name(1).len() == 10 && param_name(1)[0] == 'a',
        param_name(2).len() == 7 && param_name(2)[0] == 'd',
        param_name(3).len() == 7 && param_name(3)[0] == 'p',
        secret_name().len() == 7 && secret_name()[0] == 's',
{
    reveal_strlit("issuer=");
    reveal_strlit("algorithm=");
    reveal_strlit("digits=");
    reveal_strlit("period=");
    reveal_strlit("secret=");
}

/// What comes after parameter number `g - 1` starts with the name of a later
/// parameter or of the secret.
proof fn lemma_lead(vals: Seq<Option<Seq<char>>>, g: int, secret: Seq<char>)
    requires
        0 <= g <= 4,
        vals.len() == 4,
    ensures
        (params_from(vals, g) + secret_name() + secret)[0] == lead(vals, g),
        lead(vals, g) == 's' || (g <= 0 && lead(vals, g) == 'i') || (g <= 1 && lead(vals, g) == 'a')
            || (g <= 2 && lead(vals, g) == 'd') || (g <= 3 && lead(vals, g) == 'p'),
    decreases 4 - g,
{
    lemma_first_letters();
    let body = params_from(vals, g) + secret_name() + secret;
    if g >= 4 {
        assert(params_from(vals, g) =~= Seq::<char>::empty());
        assert(body[0] == secret_name()[0]);
    } else {
        lemma_lead(vals, g + 1, secret);
        let rest = params_from(vals, g + 1) + secret_name() + secret;
        assert(body =~= param_part(vals, g) + rest);
        match vals[g] {
            Some(v) => {
                assert(body[0] == param_name(g)[0]);
            },
            None => {
                assert(param_part(vals, g) =~= Seq::<char>::empty());
                assert(body =~= rest);
            },
        }
    }
}

/// After a separator at `k`, the optional parameters from number `g` on and
/// then the secret parameter are read as written: each parameter that is
/// there by its value, each that is not as absent, and the secret up to the
/// end.
proof fn lemma_params_read(s: Seq<char>, k: int, g: int, vals: Seq<Option<Seq<char>>>, secret: Seq<char>)
    requires
        0 <= g <= 4,
        values_fit(vals),
        forall|i: int| 0 <= i < secret.len() ==> #[trigger] secret[i] != '&',
        0 <= k < s.len(),
        is_sep(s[k]),
        tail_is(s, k, params_from(vals, g) + secret_name() + secret),
    ensures
        match_tail(s, k, g) matches Some(m) && m.secret == (s.len() - secret.len(), s.len() as int)
            && m.groups.len() == 4 && forall|h: int|
            0 <= h < 4 ==> ((h < g || vals[h] is None) ==> #[trigger] m.groups[h] is None) && ((g <= h
                && vals[h] is Some) ==> (m.groups[h] matches Some(sp) && 0 <= sp.0 <= sp.1 <= s.len()
                && s.subrange(sp.0, sp.1) == vals[h]->0)),
    decreases 4 - g,
{
    lemma_first_letters();
    let body = params_from(vals, g) + secret_name() + secret;
    if g >= 4 {
        assert(params_from(vals, g) =~= Seq::<char>::empty());
        assert(body =~= secret_name() + secret);
        assert(s.subrange(k + 1, k + 8) =~= secret_name()) by {
            assert forall|i: int| 0 <= i < 7 implies s.subrange(k + 1, k + 8)[i] == secret_name()[i] by {
                assert(body[i] == secret_name()[i]);
            }
        }
        let v0 = k + 8;
        assert forall|j: int| v0 <= j < s.len() implies in_class(CharClass::Secret, #[trigger] s[j]) by {
            assert(body[7 + (j - v0)] == secret[j - v0]);
        }
        lemma_run_end(s, v0, s.len() as int, CharClass::Secret);
    } else {
        let rest = params_from(vals, g + 1) + secret_name() + secret;
        assert(body =~= param_part(vals, g) + rest);
        match vals[g] {
            None => {
                assert(param_part(vals, g) =~= Seq::<char>::empty());
                assert(body =~= rest);
                lemma_params_read(s, k, g + 1, vals, secret);
                lemma_lead(vals, g + 1, secret);
                assert(s[k + 1] == rest[0]);
                if lit_at(s, k + 1, param_name(g)) {
                    assert(s.subrange(k + 1, k + 1 + param_name(g).len())[0] == s[k + 1]);
                }
            },
            Some(v) => {
                let n = param_name(g).len() as int;
                let part = param_part(vals, g);
                assert(part =~= param_name(g) + v + "&"@);
                reveal_strlit("&");
                let v0 = k + 1 + n;
                let ve = v0 + v.len();
                assert(part.len() == n + v.len() + 1);
                assert(ve == k + part.len());
                assert(s.subrange(k + 1, v0) =~= param_name(g)) by {
                    assert forall|i: int| 0 <= i < n implies s.subrange(k + 1, v0)[i] == param_name(g)[i] by {
                        assert(body[i] == part[i]);
                    }
                }
                assert forall|j: int| v0 <= j < ve implies in_class(CharClass::Value, #[trigger] s[j]) by {
                    assert(body[n + (j - v0)] == part[n + (j - v0)]);
                    assert(part[n + (j - v0)] == v[j - v0]);
                    assert(in_class(CharClass::Value, vals[g]->0[j - v0]));
                }
                assert(s[ve] == '&') by {
                    assert(body[part.len() - 1] == part[part.len() - 1]);
                }
                assert(tail_is(s, ve, rest)) by {
                    assert forall|i: int| 0 <= i < rest.len() implies s[ve + 1 + i] == #[trigger] rest[i] by {
                        assert(body[part.len() + i] == rest[i]);
                    }
                }
                lemma_params_read(s, ve, g + 1, vals, secret);
                lemma_run_end(s, v0, ve, CharClass::Value);
                assert(s.subrange(v0, ve) =~= v) by {
                    assert forall|i: int| 0 <= i < v.len() implies s.subrange(v0, ve)[i] == v[i] by {
                        assert(body[n + i] == part[n + i]);
                    }
                }
                let t = match_tail(s, ve, g + 1)->0;
                assert(try_value_ends(s, g, v0, ve) == Some(
                    UriSpans { groups: t.groups.update(g, Some((v0, ve))), secret: t.secret },
                ));
            },
        }
    }
}

/// A key URI built from a bare secret reads back what it was built with: its
/// secret, and the period, number of digits and hash function that were given
/// (30 seconds, 6 digits and SHA1 where none was), as long as the name holds no
/// `?` or `#` and the secret no `&`.
pub proof fn lemma_built_uri_reads_back(
    name: Seq<char>,
    secret: Seq<char>,
    algo: Option<HashAlgorithm>,
    digits: Option<usize>,
    period: Option<u32>,
)
    requires
        forall|i: int| 0 <= i < name.len() ==> #[trigger] name[i] != '?' && name[i] != '#',
        forall|i: int| 0 <= i < secret.len() ==> #[trigger] secret[i] != '&',
    ensures
        ({
            let uri = built_uri(name, secret, algo, digits, period);
            &&& spec_base32_secret(uri) == Some(secret)
            &&& spec_period(uri) == Ok::<nat, PassrsError>(
                match period {
                    Some(p) => p as nat,
                    None => 30,
                },
            )
            &&& spec_digits(uri) == Ok::<nat, PassrsError>(
                match digits {
                    Some(d) => d as nat,
                    None => 6,
                },
            )
            &&& spec_algorithm(uri) == Some(
                Ok::<HashAlgorithm, Seq<char>>(
                    match algo {
                        Some(a) => a,
                        None => HashAlgorithm::Sha1,
                    },
                ),
            )
        }),
{
    reveal_strlit("otpauth://totp/");
    reveal_strlit("?");
    reveal_strlit("otpauth://");
    reveal_strlit("totp/");
    reveal_strlit("secret=");
    reveal_strlit("SHA1");
    reveal_strlit("SHA256");
    reveal_strlit("SHA512");
    reveal_strlit("sha1");
    reveal_strlit("sha256");
    reveal_strlit("sha512");
    let vals = uri_values(algo, digits, period);
    let s = built_uri(name, secret, algo, digits, period);
    let e: int = 15 + name.len() as int;
    let body = params_from(vals, 0) + secret_name() + secret;
    assert(s =~= "otpauth://totp/"@ + name + "?"@ + body);
    assert(forall|i: int| 0 <= i < 15 ==> s[i] == #[trigger] "otpauth://totp/"@[i]);
    assert(forall|i: int| 0 <= i < name.len() ==> s[15 + i] == #[trigger] name[i]);
    assert(s[e] == '?');
    assert(tail_is(s, e, body)) by {
        assert forall|i: int| 0 <= i < body.len() implies s[e + 1 + i] == #[trigger] body[i] by {}
    }
    assert(lit_at(s, 0, scheme())) by {
        assert(s.subrange(0, 10) =~= scheme());
    }
    assert(lit_at(s, 10, totp_type())) by {
        assert(s.subrange(10, 15) =~= totp_type());
    }
    assert forall|j: int| 15 <= j < e implies in_class(CharClass::Label, #[trigger] s[j]) by {
        assert(s[15 + (j - 15)] == name[j - 15]);
    }
    lemma_run_end(s, 15, e, CharClass::Label);
    proof_values_fit(algo, digits, period);
    lemma_params_read(s, e, 0, vals, secret);
    let m = match_tail(s, e, 0)->0;
    assert(try_label_ends(s, 15, e) == Some(m));
    assert(match_at(s, 0) == Some(m));
    assert(find_match_from(s, 0) == Some(m));
    assert(uri_captures(s) == Some(m));
    assert(s.subrange(m.secret.0, m.secret.1) =~= secret) by {
        assert forall|i: int| 0 <= i < secret.len() implies s.subrange(m.secret.0, m.secret.1)[i]
            == secret[i] by {
            assert(body[params_from(vals, 0).len() + 7 + i] == secret[i]);
        }
    }
    match period {
        Some(p) => {
            assert(m.groups[3] is Some);
            crate::text::lemma_parse_decimal(p as nat, u64::MAX as nat);
        },
        None => {
            assert(m.groups[3] is None);
        },
    }
    match digits {
        Some(d) => {
            assert(m.groups[2] is Some);
            crate::text::lemma_parse_decimal(d as nat, usize::MAX as nat);
        },
        None => {
            assert(m.groups[2] is None);
        },
    }
    match algo {
        Some(a) => {
            assert(m.groups[1] is Some);
            let sp = m.groups[1]->0;
            assert(s.subrange(sp.0, sp.1) == algorithm_name(a));
            match a {
                HashAlgorithm::Sha1 => {
                    assert(ascii_lower(algorithm_name(a)) =~= "sha1"@);
                },
                HashAlgorithm::Sha256 => {
                    assert(ascii_lower(algorithm_name(a)) =~= "sha256"@);
                    assert(ascii_lower(algorithm_name(a)) != "sha1"@);
                },
                HashAlgorithm::Sha512 => {
                    assert(ascii_lower(algorithm_name(a)) =~= "sha512"@);
                    assert(ascii_lower(algorithm_name(a)) != "sha1"@);
                    assert(("sha512"@)[3] != ("sha256"@)[3]);
                    assert(ascii_lower(algorithm_name(a)) != "sha256"@);
                },
            }
        },
        None => {
            assert(m.groups[1] is None);
        },
    }
}

/// The values of a built key URI hold neither `&` nor `#`.
proof fn proof_values_fit(algo: Option<HashAlgorithm>, digits: Option<usize>, period: Option<u32>)
    ensures
        values_fit(uri_values(algo, digits, period)),
{
    reveal_strlit("SHA1");
    reveal_strlit("SHA256");
    reveal_strlit("SHA512");
    let vals = uri_values(algo, digits, period);
    match digits {
        Some(d) => crate::otp::lemma_decimal_digits(d as nat),
        None => {},
    }
    match period {
        Some(p) => crate::otp::lemma_decimal_digits(p as nat),
        None => {},
    }
    assert forall|g: int, i: int|
        0 <= g < 4 && vals[g] is Some && 0 <= i < vals[g]->0.len() implies in_class(
            CharClass::Value,
            #[trigger] vals[g]->0[i],
        ) by {
        if g == 1 {
            let a = algo->0;
            match a {
                HashAlgorithm::Sha1 => assert(vals[g]->0 == "SHA1"@),
                HashAlgorithm::Sha256 => assert(vals[g]->0 == "SHA256"@),
                HashAlgorithm::Sha512 => assert(vals[g]->0 == "SHA512"@),
            }
        }
    }
}

} // verus!
