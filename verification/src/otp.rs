//! One-Time Password generation
//!
//! HOTP (RFC 4226) and TOTP (RFC 6238) codes. The HMAC itself is computed by
//! `ring`; the message encoding, the dynamic truncation, the reduction modulo a
//! power of ten, the zero-padded formatting and the time-step arithmetic are
//! verified here.
use vstd::prelude::*;

use crate::text::{
    ascii_upper_bytes, decimal, digit_char, format_decimal_padded, lemma_pow10_positive, pad_zeros, pow10,
    to_ascii_uppercase_bytes,
};

verus! {

/// The hash function underlying the HMAC.
#[derive(Debug, Clone, Copy, PartialEq, Eq, Structural)]
pub enum HashAlgorithm {
    Sha1,
    Sha256,
    Sha512,
}

impl Default for HashAlgorithm {
    fn default() -> (r: HashAlgorithm)
        ensures
            r == HashAlgorithm::Sha1,
    {
        HashAlgorithm::Sha1
    }
}

/// The tag that `ring::hmac::sign` computes over `message` with a key made from
/// `key` for the HMAC variant of `algorithm`.
pub uninterp spec fn hmac_tag(algorithm: HashAlgorithm, key: Seq<u8>, message: Seq<u8>) -> Seq<u8>;

/// The length in bytes of an HMAC tag: the output length of the digest.
pub open spec fn tag_len(algorithm: HashAlgorithm) -> nat {
    match algorithm {
        HashAlgorithm::Sha1 => 20,
        HashAlgorithm::Sha256 => 32,
        HashAlgorithm::Sha512 => 64,
    }
}

/// Calls `ring::hmac::Key::new` and `ring::hmac::sign`. Trusted: the tag is
/// `hmac_tag` of the arguments, and it is as long as the digest's output
/// (`Tag::as_ref` returns the digest's `output_len` bytes).
#[verifier::external_body]
fn hmac_sign(algorithm: HashAlgorithm, key: &[u8], message: &[u8]) -> (tag: Vec<u8>)
    ensures
        tag@ == hmac_tag(algorithm, key@, message@),
        tag@.len() == tag_len(algorithm),
{
    let alg = match algorithm {
        HashAlgorithm::Sha1 => ring::hmac::HMAC_SHA1_FOR_LEGACY_USE_ONLY,
        HashAlgorithm::Sha256 => ring::hmac::HMAC_SHA256,
        HashAlgorithm::Sha512 => ring::hmac::HMAC_SHA512,
    };
    ring::hmac::sign(&ring::hmac::Key::new(alg, key), message).as_ref().to_vec()
}

/// What `data_encoding::BASE32_NOPAD.decode` returns for `input`: the decoded
/// bytes, or `None` where it reports an error.
pub uninterp spec fn base32_nopad_decode(input: Seq<u8>) -> Option<Seq<u8>>;

#[verifier::external_type_specification]
#[verifier::external_body]
pub struct ExDecodeError(data_encoding::DecodeError);

/// Calls `data_encoding::BASE32_NOPAD.decode`. Trusted: it succeeds exactly where
/// `base32_nopad_decode` gives bytes, and then returns those bytes.
#[verifier::external_body]
pub(crate) fn base32_decode(input: &[u8]) -> (r: Result<Vec<u8>, data_encoding::DecodeError>)
    ensures
        match r {
            Ok(v) => base32_nopad_decode(input@) == Some(v@),
            Err(_) => base32_nopad_decode(input@) is None,
        },
{
    data_encoding::BASE32_NOPAD.decode(input)
}

/// The bytes that a base32 secret stands for: the secret is upper-cased (ASCII)
/// and then decoded without padding.
pub open spec fn secret_key_bytes(secret: Seq<u8>) -> Option<Seq<u8>> {
    base32_nopad_decode(ascii_upper_bytes(secret))
}

#[verifier::external_type_specification]
#[verifier::external_body]
pub struct ExSystemTime(std::time::SystemTime);

/// Calls `std::time::SystemTime::now`. Nothing is stated of the time it reads.
#[verifier::external_body]
fn system_time_now() -> std::time::SystemTime {
    std::time::SystemTime::now()
}

/// Calls `SystemTime::duration_since(UNIX_EPOCH)`; `None` where `t` is earlier
/// than the epoch. Nothing is stated of the duration.
#[verifier::external_body]
fn since_unix_epoch(t: &std::time::SystemTime) -> Option<std::time::Duration> {
    t.duration_since(std::time::UNIX_EPOCH).ok()
}

/// Calls `Duration::as_secs`. Nothing is stated of the number.
#[verifier::external_body]
fn whole_seconds(d: &std::time::Duration) -> u64 {
    d.as_secs()
}

/// The whole seconds since the Unix epoch on the system clock. A clock set
/// before the epoch reads as the epoch itself.
pub(crate) fn unix_now() -> u64 {
    let t = system_time_now();
    match since_unix_epoch(&t) {
        Some(d) => whole_seconds(&d),
        None => 0,
    }
}

/// The `n` low-order bytes of `c`, most significant first (big-endian).
pub open spec fn be_bytes(c: nat, n: nat) -> Seq<u8>
    decreases n,
{
    if n == 0 {
        Seq::empty()
    } else {
        be_bytes(c / 256, (n - 1) as nat).push((c % 256) as u8)
    }
}

fn be_bytes_exec(c: u64, n: usize) -> (v: Vec<u8>)
    ensures
        v@ == be_bytes(c as nat, n as nat),
    decreases n,
{
    if n == 0 {
        Vec::new()
    } else {
        let mut v = be_bytes_exec(c / 256, n - 1);
        v.push((c % 256) as u8);
        v
    }
}

/// RFC 4226 dynamic truncation: the low four bits of the last byte select an
/// offset, and the 31-bit big-endian number at that offset is taken.
pub open spec fn dynamic_truncation(tag: Seq<u8>) -> nat {
    let offset = (tag.last() % 16) as int;
    ((tag[offset] % 128) as nat) * 0x1000000 + (tag[offset + 1] as nat) * 0x10000 + (tag[offset
        + 2] as nat) * 0x100 + (tag[offset + 3] as nat)
}

/// The HOTP value of `key` at `counter`: the truncated HMAC of the 8-byte
/// big-endian counter, reduced modulo `10^digits`.
pub open spec fn hotp_value(key: Seq<u8>, algorithm: HashAlgorithm, counter: u64, digits: nat) -> nat {
    dynamic_truncation(hmac_tag(algorithm, key, be_bytes(counter as nat, 8))) % pow10(digits)
}

/// The HOTP code: the value in decimal, zero-padded to `digits` characters.
pub open spec fn hotp_code(key: Seq<u8>, algorithm: HashAlgorithm, counter: u64, digits: nat) -> Seq<
    char,
> {
    pad_zeros(decimal(hotp_value(key, algorithm, counter, digits)), digits)
}

/// The parameters that an HOTP generator or its builder holds.
pub struct HotpParams {
    pub key: Seq<u8>,
    pub counter: u64,
    pub output_len: usize,
    pub algorithm: HashAlgorithm,
}

/// The parameters that a TOTP generator or its builder holds.
pub struct TotpParams {
    pub key: Seq<u8>,
    pub counter: u64,
    pub timestamp_offset: i64,
    pub output_len: usize,
    pub algorithm: HashAlgorithm,
    pub period: u64,
}

#[derive(Debug)]
pub struct HOTPBuilder {
    key: Vec<u8>,
    counter: u64,
    output_len: usize,
    algo: HashAlgorithm,
}

impl View for HOTPBuilder {
    type V = HotpParams;

    closed spec fn view(&self) -> HotpParams {
        HotpParams {
            key: self.key@,
            counter: self.counter,
            output_len: self.output_len,
            algorithm: self.algo,
        }
    }
}

impl Default for HOTPBuilder {
    fn default() -> (b: HOTPBuilder)
        ensures
            b@ == (HotpParams {
                key: Seq::empty(),
                counter: 0,
                output_len: 0,
                algorithm: HashAlgorithm::Sha1,
            }),
    {
        HOTPBuilder { key: Vec::new(), counter: 0, output_len: 0, algo: HashAlgorithm::Sha1 }
    }
}

impl HOTPBuilder {
    /// Sets the raw key.
    pub fn secret(&mut self, secret: &[u8]) -> (r: &mut HOTPBuilder)
        ensures
            r@ == (HotpParams { key: secret@, ..old(self)@ }),
            final(self)@ == final(r)@,
    {
        self.key = vstd::slice::slice_to_vec(secret);
        self
    }

    /// Sets the key to the bytes that the base32 `secret` stands for; the secret
    /// must decode.
    pub fn base32_secret(&mut self, secret: &[u8]) -> (r: &mut HOTPBuilder)
        requires
            secret_key_bytes(secret@) is Some,
        ensures
            r@ == (HotpParams { key: secret_key_bytes(secret@)->0, ..old(self)@ }),
            final(self)@ == final(r)@,
    {
        let upper = to_ascii_uppercase_bytes(secret);
        match base32_decode(upper.as_slice()) {
            Ok(key) => {
                self.key = key;
            },
            Err(_) => {},
        }
        self
    }

    /// Sets the key as `base32_secret` does where the secret decodes, and tells
    /// whether it did; otherwise leaves the builder as it was.
    pub fn try_base32_secret(&mut self, secret: &[u8]) -> (ok: bool)
        ensures
            ok == (secret_key_bytes(secret@) is Some),
            ok ==> final(self)@ == (HotpParams { key: secret_key_bytes(secret@)->0, ..old(self)@ }),
            !ok ==> final(self)@ == old(self)@,
    {
        let upper = to_ascii_uppercase_bytes(secret);
        match base32_decode(upper.as_slice()) {
            Ok(_) => {
                self.base32_secret(secret);
                true
            },
            Err(_) => false,
        }
    }

    /// Sets the number of digits of the code.
    pub fn output_len(&mut self, output_len: usize) -> (r: &mut HOTPBuilder)
        ensures
            r@ == (HotpParams { output_len, ..old(self)@ }),
            final(self)@ == final(r)@,
    {
        self.output_len = output_len;
        self
    }

    /// Sets the hash function.
    pub fn algorithm(&mut self, algo: HashAlgorithm) -> (r: &mut HOTPBuilder)
        ensures
            r@ == (HotpParams { algorithm: algo, ..old(self)@ }),
            final(self)@ == final(r)@,
    {
        self.algo = algo;
        self
    }

    /// Sets the counter.
    pub fn counter(&mut self, counter: u64) -> (r: &mut HOTPBuilder)
        ensures
            r@ == (HotpParams { counter, ..old(self)@ }),
            final(self)@ == final(r)@,
    {
        self.counter = counter;
        self
    }

    /// An HOTP generator with the parameters set so far.
    pub fn build(&self) -> (h: HOTP)
        ensures
            h@ == self@,
    {
        HOTP { key: self.key.clone(), counter: self.counter, output_len: self.output_len, algo: self.algo }
    }
}

/// An HOTP generator (RFC 4226).
#[derive(Debug)]
pub struct HOTP {
    key: Vec<u8>,
    counter: u64,
    output_len: usize,
    algo: HashAlgorithm,
}

impl View for HOTP {
    type V = HotpParams;

    closed spec fn view(&self) -> HotpParams {
        HotpParams {
            key: self.key@,
            counter: self.counter,
            output_len: self.output_len,
            algorithm: self.algo,
        }
    }
}

/// `10^digits`, for at most nine digits.
fn pow10_u32(digits: usize) -> (p: u32)
    requires
        digits <= 9,
    ensures
        p as nat == pow10(digits as nat),
{
    let mut p: u32 = 1;
    let mut i: usize = 0;
    assert(pow10(9) == 1_000_000_000nat) by {
        reveal_with_fuel(pow10, 10);
    }
    while i < digits
        invariant
            i <= digits <= 9,
            p as nat == pow10(i as nat),
            p as nat * pow10((9 - i) as nat) == 1_000_000_000nat,
        decreases digits - i,
    {
        proof {
            crate::text::lemma_pow10_positive((9 - i - 1) as nat);
            assert(p as nat * 10 * pow10((9 - i - 1) as nat) == 1_000_000_000nat) by (nonlinear_arith)
                requires
                    p as nat * pow10((9 - i) as nat) == 1_000_000_000nat,
                    pow10((9 - i) as nat) == 10 * pow10((9 - i - 1) as nat),
            ;
            assert(p as nat * 10 <= 1_000_000_000nat) by (nonlinear_arith)
                requires
                    p as nat * 10 * pow10((9 - i - 1) as nat) == 1_000_000_000nat,
                    pow10((9 - i - 1) as nat) >= 1,
            ;
        }
        p = p * 10;
        i += 1;
    }
    p
}

/// The 31-bit number at `offset` (RFC 4226 section 5.3).
fn truncate_at(h: &[u8]) -> (snum: u32)
    requires
        h@.len() >= 20,
    ensures
        snum as nat == dynamic_truncation(h@),
{
    let last = h[h.len() - 1];
    let offset = (last & 0xf) as usize;
    assert(last & 0xf == last % 16) by (bit_vector);
    let a = h[offset] as u32;
    let b = h[offset + 1] as u32;
    let c = h[offset + 2] as u32;
    let d = h[offset + 3] as u32;
    let snum: u32 = ((a & 0x7f) << 24) | ((b & 0xff) << 16) | ((c & 0xff) << 8) | (d & 0xff);
    assert(((a & 0x7f) << 24) | ((b & 0xff) << 16) | ((c & 0xff) << 8) | (d & 0xff) == (a % 128)
        * 0x1000000 + b * 0x10000 + c * 0x100 + d) by (bit_vector)
        requires
            a < 256,
            b < 256,
            c < 256,
            d < 256,
    ;
    snum
}

impl HOTP {
    /// The HOTP code for the counter, key, hash function and length held.
    pub fn generate(&self) -> (code: String)
        requires
            self@.output_len <= 9,
        ensures
            code@ == hotp_code(self@.key, self@.algorithm, self@.counter, self@.output_len as nat),
    {
        // "The Key (K), the Counter (C), and Data values are hashed high-order byte first."
        let moving_factor = be_bytes_exec(self.counter, 8);
        let hmac_result = hmac_sign(self.algo, self.key.as_slice(), moving_factor.as_slice());
        let snum = truncate_at(hmac_result.as_slice());
        let modulus = pow10_u32(self.output_len);
        proof {
            crate::text::lemma_pow10_positive(self.output_len as nat);
        }
        let code = snum % modulus;
        format_decimal_padded(code as u64, self.output_len)
    }
}

#[derive(Debug)]
pub struct TOTPBuilder {
    key: Vec<u8>,
    counter: u64,
    timestamp_offset: i64,
    output_len: usize,
    algo: HashAlgorithm,
    period: u64,
}

impl View for TOTPBuilder {
    type V = TotpParams;

    closed spec fn view(&self) -> TotpParams {
        TotpParams {
            key: self.key@,
            counter: self.counter,
            timestamp_offset: self.timestamp_offset,
            output_len: self.output_len,
            algorithm: self.algo,
            period: self.period,
        }
    }
}

impl Default for TOTPBuilder {
    fn default() -> (b: TOTPBuilder)
        ensures
            b@ == (TotpParams {
                key: Seq::empty(),
                counter: 0,
                timestamp_offset: 0,
                output_len: 0,
                algorithm: HashAlgorithm::Sha1,
                period: 0,
            }),
    {
        TOTPBuilder {
            key: Vec::new(),
            counter: 0,
            timestamp_offset: 0,
            output_len: 0,
            algo: HashAlgorithm::Sha1,
            period: 0,
        }
    }
}

/// The offset that makes the clock reading `now` count as `timestamp`.
pub open spec fn timestamp_offset_for(timestamp: i64, now: u64) -> i64 {
    timestamp.wrapping_sub(now as i64)
}

impl TOTPBuilder {
    /// Sets the raw key.
    pub fn secret(&mut self, secret: &[u8]) -> (r: &mut TOTPBuilder)
        ensures
            r@ == (TotpParams { key: secret@, ..old(self)@ }),
            final(self)@ == final(r)@,
    {
        self.key = vstd::slice::slice_to_vec(secret);
        self
    }

    /// Sets the key to the bytes that the base32 `secret` stands for; the secret
    /// must decode.
    pub fn base32_secret(&mut self, secret: &[u8]) -> (r: &mut TOTPBuilder)
        requires
            secret_key_bytes(secret@) is Some,
        ensures
            r@ == (TotpParams { key: secret_key_bytes(secret@)->0, ..old(self)@ }),
            final(self)@ == final(r)@,
    {
        let upper = to_ascii_uppercase_bytes(secret);
        match base32_decode(upper.as_slice()) {
            Ok(key) => {
                self.key = key;
            },
            Err(_) => {},
        }
        self
    }

    /// Sets the key as `base32_secret` does where the secret decodes, and tells
    /// whether it did; otherwise leaves the builder as it was.
    pub fn try_base32_secret(&mut self, secret: &[u8]) -> (ok: bool)
        ensures
            ok == (secret_key_bytes(secret@) is Some),
            ok ==> final(self)@ == (TotpParams { key: secret_key_bytes(secret@)->0, ..old(self)@ }),
            !ok ==> final(self)@ == old(self)@,
    {
        let upper = to_ascii_uppercase_bytes(secret);
        match base32_decode(upper.as_slice()) {
            Ok(_) => {
                self.base32_secret(secret);
                true
            },
            Err(_) => false,
        }
    }

    /// Sets the number of digits of the code.
    pub fn output_len(&mut self, output_len: usize) -> (r: &mut TOTPBuilder)
        ensures
            r@ == (TotpParams { output_len, ..old(self)@ }),
            final(self)@ == final(r)@,
    {
        self.output_len = output_len;
        self
    }

    /// Sets the hash function.
    pub fn algorithm(&mut self, algo: HashAlgorithm) -> (r: &mut TOTPBuilder)
        ensures
            r@ == (TotpParams { algorithm: algo, ..old(self)@ }),
            final(self)@ == final(r)@,
    {
        self.algo = algo;
        self
    }

    /// Makes the generator count time as if the system clock, read now, showed
    /// `timestamp`.
    pub fn timestamp(&mut self, timestamp: i64) -> (r: &mut TOTPBuilder)
        ensures
            exists|now: u64|
                r@ == (TotpParams {
                    timestamp_offset: #[trigger] timestamp_offset_for(timestamp, now),
                    ..old(self)@
                }),
            final(self)@ == final(r)@,
    {
        let now = unix_now();
        self.timestamp_at(timestamp, now)
    }

    /// Makes the generator count time as if a clock that reads `now` showed
    /// `timestamp`.
    pub fn timestamp_at(&mut self, timestamp: i64, now: u64) -> (r: &mut TOTPBuilder)
        ensures
            r@ == (TotpParams {
                timestamp_offset: timestamp_offset_for(timestamp, now),
                ..old(self)@
            }),
            final(self)@ == final(r)@,
    {
        self.timestamp_offset = timestamp.wrapping_sub(now as i64);
        self
    }

    /// Sets the counter.
    pub fn counter(&mut self, counter: u64) -> (r: &mut TOTPBuilder)
        ensures
            r@ == (TotpParams { counter, ..old(self)@ }),
            final(self)@ == final(r)@,
    {
        self.counter = counter;
        self
    }

    /// Sets the length of a time step, in seconds.
    pub fn period(&mut self, period: u64) -> (r: &mut TOTPBuilder)
        ensures
            r@ == (TotpParams { period, ..old(self)@ }),
            final(self)@ == final(r)@,
    {
        self.period = period;
        self
    }

    /// A TOTP generator with the parameters set so far.
    pub fn build(&self) -> (t: TOTP)
        ensures
            t@ == self@,
    {
        TOTP {
            key: self.key.clone(),
            timestamp_offset: self.timestamp_offset,
            counter: self.counter,
            output_len: self.output_len,
            algo: self.algo,
            period: self.period,
        }
    }
}

/// A TOTP generator (RFC 6238).
#[derive(Debug)]
pub struct TOTP {
    key: Vec<u8>,
    timestamp_offset: i64,
    counter: u64,
    output_len: usize,
    algo: HashAlgorithm,
    period: u64,
}

impl View for TOTP {
    type V = TotpParams;

    closed spec fn view(&self) -> TotpParams {
        TotpParams {
            key: self.key@,
            counter: self.counter,
            timestamp_offset: self.timestamp_offset,
            output_len: self.output_len,
            algorithm: self.algo,
            period: self.period,
        }
    }
}

/// The time step at clock reading `now`: the shifted time, taken as unsigned,
/// divided by the period.
pub open spec fn totp_counter(now: u64, offset: i64, period: u64) -> u64 {
    (((now as i64).wrapping_add(offset)) as u64) / period
}

/// The TOTP code of `p` at clock reading `now`.
pub open spec fn totp_code(p: TotpParams, now: u64) -> Seq<char> {
    hotp_code(p.key, p.algorithm, totp_counter(now, p.timestamp_offset, p.period), p.output_len as nat)
}

impl TOTP {
    /// The time step at clock reading `now`.
    pub fn counter_at(&self, now: u64) -> (c: u64)
        requires
            self@.period > 0,
        ensures
            c == totp_counter(now, self@.timestamp_offset, self@.period),
    {
        let timestamp = (now as i64).wrapping_add(self.timestamp_offset);
        (timestamp as u64) / self.period
    }

    /// The time step now.
    fn counter(&self) -> (c: u64)
        requires
            self@.period > 0,
        ensures
            exists|now: u64| c == #[trigger] totp_counter(now, self@.timestamp_offset, self@.period),
    {
        let now = unix_now();
        self.counter_at(now)
    }

    /// The TOTP code at clock reading `now`.
    pub fn generate_at(&self, now: u64) -> (code: String)
        requires
            self@.period > 0,
            self@.output_len <= 9,
        ensures
            code@ == totp_code(self@, now),
    {
        let counter = self.counter_at(now);
        self.code_for_counter(counter)
    }

    fn code_for_counter(&self, counter: u64) -> (code: String)
        requires
            self@.output_len <= 9,
        ensures
            code@ == hotp_code(self@.key, self@.algorithm, counter, self@.output_len as nat),
    {
        let mut builder = HOTPBuilder::default();
        builder.secret(self.key.as_slice());
        builder.counter(counter);
        builder.output_len(self.output_len);
        builder.algorithm(self.algo);
        let hotp = builder.build();
        hotp.generate()
    }

    /// The TOTP code now.
    pub fn generate(&self) -> (code: String)
        requires
            self@.period > 0,
            self@.output_len <= 9,
        ensures
            exists|now: u64| code@ == #[trigger] totp_code(self@, now),
    {
        let counter = self.counter();
        let ghost now = choose|now: u64| counter == #[trigger] totp_counter(now, self@.timestamp_offset, self@.period);
        let code = self.code_for_counter(counter);
        assert(code@ == totp_code(self@, now));
        code
    }
}

/// A number below `10^k` (`k` at least one) takes at most `k` decimal digits.
proof fn lemma_decimal_len(n: nat, k: nat)
    requires
        k >= 1,
        n < pow10(k),
    ensures
        decimal(n).len() <= k,
    decreases n,
{
    if n >= 10 {
        assert(k >= 2) by {
            if k == 1 {
                assert(pow10(1) == 10 * pow10(0));
            }
        }
        assert(pow10(k) == 10 * pow10((k - 1) as nat));
        assert(n / 10 < pow10((k - 1) as nat));
        lemma_decimal_len(n / 10, (k - 1) as nat);
    }
}

/// Every character of a decimal spelling is an ASCII digit.
pub(crate) proof fn lemma_decimal_digits(n: nat)
    ensures
        forall|i: int| 0 <= i < decimal(n).len() ==> '0' <= #[trigger] decimal(n)[i] <= '9',
    decreases n,
{
    if n >= 10 {
        lemma_decimal_digits(n / 10);
        assert(decimal(n) == decimal(n / 10).push(digit_char(n % 10)));
    }
}

/// An HOTP code of `digits` digits (RFC 4226: at least one) is exactly
/// `digits` ASCII digits long.
pub proof fn lemma_hotp_code_shape(key: Seq<u8>, algorithm: HashAlgorithm, counter: u64, digits: nat)
    requires
        digits >= 1,
    ensures
        hotp_code(key, algorithm, counter, digits).len() == digits,
        forall|i: int|
            0 <= i < digits ==> '0' <= #[trigger] hotp_code(key, algorithm, counter, digits)[i] <= '9',
{
    let v = hotp_value(key, algorithm, counter, digits);
    lemma_pow10_positive(digits);
    assert(v < pow10(digits));
    lemma_decimal_len(v, digits);
    lemma_decimal_digits(v);
    let d = decimal(v);
    let code = hotp_code(key, algorithm, counter, digits);
    assert forall|i: int| 0 <= i < digits implies '0' <= #[trigger] code[i] <= '9' by {
        if d.len() < digits {
            let pad = (digits - d.len()) as int;
            if i >= pad {
                assert(code[i] == d[i - pad]);
            }
        }
    }
}

/// Setting the timestamp at a clock reading makes the generator, at that same
/// reading, count the time steps of the timestamp: RFC 6238's `T` is the
/// timestamp divided by the period.
pub proof fn lemma_timestamp_sets_time_step(timestamp: i64, now: u64, period: u64)
    requires
        period > 0,
    ensures
        totp_counter(now, timestamp_offset_for(timestamp, now), period) == (timestamp as u64) / period,
{
    let n = now as i64;
    assert(n.wrapping_add(timestamp.wrapping_sub(n)) == timestamp);
}

/// The last `d` decimal digits of `x`, most significant first.
pub open spec fn last_digits(x: nat, d: nat) -> Seq<char>
    decreases d,
{
    if d == 0 {
        Seq::empty()
    } else {
        last_digits(x / 10, (d - 1) as nat).push(digit_char(x % 10))
    }
}

/// There are `d` last digits.
proof fn lemma_last_digits_len(x: nat, d: nat)
    ensures
        last_digits(x, d).len() == d,
    decreases d,
{
    if d > 0 {
        lemma_last_digits_len(x / 10, (d - 1) as nat);
    }
}

/// The last `d1` of the last `d2` digits are the last `d1` digits.
proof fn lemma_last_digits_suffix(x: nat, d1: nat, d2: nat)
    requires
        d1 <= d2,
    ensures
        last_digits(x, d2).subrange(d2 - d1, d2 as int) == last_digits(x, d1),
    decreases d2,
{
    lemma_last_digits_len(x, d2);
    if d1 == 0 {
        assert(last_digits(x, d2).subrange(d2 as int, d2 as int) =~= Seq::<char>::empty());
    } else {
        lemma_last_digits_suffix(x / 10, (d1 - 1) as nat, (d2 - 1) as nat);
        let a = last_digits(x / 10, (d2 - 1) as nat);
        lemma_last_digits_len(x / 10, (d2 - 1) as nat);
        assert(last_digits(x, d2).subrange(d2 - d1, d2 as int) =~= a.subrange(d2 - d1, d2 - 1).push(
            digit_char(x % 10),
        ));
    }
}

/// Reducing modulo `10^d` keeps the last `d` digits.
proof fn lemma_last_digits_mod(x: nat, d: nat)
    ensures
        last_digits(x % pow10(d), d) == last_digits(x, d),
    decreases d,
{
    if d > 0 {
        let p = pow10((d - 1) as nat);
        lemma_pow10_positive((d - 1) as nat);
        let m = x % pow10(d);
        vstd::arithmetic::div_mod::lemma_breakdown(x as int, 10, p as int);
        vstd::arithmetic::div_mod::lemma_mod_mod(x as int, 10, p as int);
        let q = (x / 10) % p;
        assert(m == 10 * q + x % 10);
        assert(m / 10 == q && m % 10 == x % 10) by (nonlinear_arith)
            requires
                m == 10 * q + x % 10,
                0 <= x % 10 < 10,
        ;
        lemma_last_digits_mod(x / 10, (d - 1) as nat);
    }
}

/// The last digits of zero are zeros.
proof fn lemma_last_digits_zero(k: nat)
    ensures
        last_digits(0, k) == Seq::new(k, |_i: int| '0'),
    decreases k,
{
    if k > 0 {
        lemma_last_digits_zero((k - 1) as nat);
        assert(last_digits(0, k) =~= Seq::new(k, |_i: int| '0'));
    }
}

/// A number below `10^d`, in decimal and zero-padded to `d` characters, is
/// its last `d` digits.
proof fn lemma_padded_is_last_digits(v: nat, d: nat)
    requires
        d >= 1,
        v < pow10(d),
    ensures
        pad_zeros(decimal(v), d) == last_digits(v, d),
    decreases d,
{
    if v < 10 {
        lemma_last_digits_zero((d - 1) as nat);
        assert(pad_zeros(decimal(v), d) =~= last_digits(v, d));
    } else {
        let p = pow10((d - 1) as nat);
        assert(d >= 2) by {
            if d == 1 {
                assert(pow10(0) == 1);
            }
        }
        assert(v / 10 < p) by (nonlinear_arith)
            requires
                v < 10 * p,
        ;
        lemma_padded_is_last_digits(v / 10, (d - 1) as nat);
        lemma_decimal_len(v / 10, (d - 1) as nat);
        assert(pad_zeros(decimal(v), d) =~= pad_zeros(decimal(v / 10), (d - 1) as nat).push(
            digit_char(v % 10),
        ));
    }
}

/// Codes of different lengths share their digits: for the same key, hash
/// function and counter, the code of `d1` digits is the last `d1` characters of
/// the code of `d2` digits, for `1 <= d1 <= d2`.
pub proof fn lemma_hotp_codes_share_last_digits(
    key: Seq<u8>,
    algorithm: HashAlgorithm,
    counter: u64,
    d1: nat,
    d2: nat,
)
    requires
        1 <= d1 <= d2,
    ensures
        hotp_code(key, algorithm, counter, d1) == hotp_code(key, algorithm, counter, d2).subrange(
            d2 - d1,
            d2 as int,
        ),
{
    let t = dynamic_truncation(hmac_tag(algorithm, key, be_bytes(counter as nat, 8)));
    lemma_pow10_positive(d1);
    lemma_pow10_positive(d2);
    lemma_padded_is_last_digits(t % pow10(d1), d1);
    lemma_padded_is_last_digits(t % pow10(d2), d2);
    lemma_last_digits_mod(t, d1);
    lemma_last_digits_mod(t, d2);
    lemma_last_digits_suffix(t, d1, d2);
}

} // verus!
