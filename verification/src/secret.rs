//! Generated secrets: the character sets they are drawn from, and drawing them
//! from the system's random number generator.
use crate::error::PassrsError;
use vstd::prelude::*;
use vstd::string::StringSliceAdditionalSpecFns;

verus! {

/// The bytes `lo..=hi`, in order.
pub open spec fn byte_range(lo: u8, hi: u8) -> Seq<u8> {
    Seq::new((hi - lo + 1) as nat, |i: int| (lo + i) as u8)
}

/// `[:digit:]`, the bytes of `0123456789`.
pub open spec fn digits() -> Seq<u8> {
    byte_range(0x30, 0x39)
}

/// `[:upper:]`, the bytes of `A..=Z`.
pub open spec fn alpha_upper() -> Seq<u8> {
    byte_range(0x41, 0x5a)
}

/// `[:lower:]`, the bytes of `a..=z`.
pub open spec fn alpha_lower() -> Seq<u8> {
    byte_range(0x61, 0x7a)
}

/// `[:punct:]`, the bytes of ``!"#$%&'()*+,-./:;<=>?@[\]^_`{|}~``.
pub open spec fn special() -> Seq<u8> {
    byte_range(0x21, 0x2f) + byte_range(0x3a, 0x40) + byte_range(0x5b, 0x60) + byte_range(0x7b, 0x7e)
}

/// The set that secrets are drawn from by default: digits, lower-case and
/// upper-case letters and, unless `no_symbols`, punctuation.
pub open spec fn default_charset(no_symbols: bool) -> Seq<u8> {
    if no_symbols {
        digits() + alpha_lower() + alpha_upper()
    } else {
        digits() + alpha_lower() + alpha_upper() + special()
    }
}

fn push_range(v: &mut Vec<u8>, lo: u8, hi: u8)
    requires
        lo <= hi,
    ensures
        final(v)@ == old(v)@ + byte_range(lo, hi),
{
    let ghost start = v@;
    let mut b: u8 = lo;
    loop
        invariant_except_break
            v@ == start + byte_range(lo, hi).take(b - lo),
        invariant
            lo <= b <= hi,
        ensures
            v@ == start + byte_range(lo, hi),
        decreases hi - b,
    {
        v.push(b);
        assert(start + byte_range(lo, hi).take(b - lo + 1) =~= start + byte_range(lo, hi).take(b - lo).push(b));
        if b == hi {
            assert(byte_range(lo, hi).take(b - lo + 1) =~= byte_range(lo, hi));
            break;
        }
        b += 1;
    }
}

/// The set that secrets are drawn from: the bytes of `configured` where it is
/// given (`PASSWORD_STORE_CHARACTER_SET`, or `..._NO_SYMBOLS` for
/// `no_symbols`), else the default set.
pub fn charset(configured: Option<&str>, no_symbols: bool) -> (r: Vec<u8>)
    ensures
        configured matches Some(s) ==> r@ == s.spec_bytes(),
        configured is None ==> r@ == default_charset(no_symbols),
{
    match configured {
        Some(s) => vstd::slice::slice_to_vec(s.as_bytes()),
        None => {
            let mut v: Vec<u8> = Vec::new();
            push_range(&mut v, 0x30, 0x39);
            push_range(&mut v, 0x61, 0x7a);
            push_range(&mut v, 0x41, 0x5a);
            if !no_symbols {
                push_range(&mut v, 0x21, 0x2f);
                push_range(&mut v, 0x3a, 0x40);
                push_range(&mut v, 0x5b, 0x60);
                push_range(&mut v, 0x7b, 0x7e);
                assert(v@ =~= default_charset(no_symbols));
            }
            v
        },
    }
}

/// The secret that random bytes `random` pick from `set`: byte number `k` of
/// it is the byte of `set` at `random[k]` modulo the size of the set.
pub open spec fn picked(set: Seq<u8>, random: Seq<u8>, len: nat) -> Seq<u8> {
    Seq::new(len, |k: int| set[(random[k] as int) % (set.len() as int)])
}

/// Picks `len` bytes from `set`, byte number `k` by `random[k]`.
pub fn chars_from_random(set: &[u8], random: &[u8], len: usize) -> (r: Vec<u8>)
    requires
        set@.len() > 0,
        random@.len() >= len,
    ensures
        r@ == picked(set@, random@, len as nat),
{
    let mut out: Vec<u8> = Vec::new();
    let mut k: usize = 0;
    while k < len
        invariant
            k <= len <= random@.len(),
            set@.len() > 0,
            out@ =~= picked(set@, random@, k as nat),
        decreases len - k,
    {
        out.push(set[(random[k] as usize) % set.len()]);
        k += 1;
    }
    out
}

/// Draws 64 bytes from the system's random number generator, with
/// `ring::rand::generate` on a `ring::rand::SystemRandom`. Trusted: on success
/// the block has 64 bytes; what they are is up to chance, and nothing is said
/// of them. `None` where the generator fails.
#[verifier::external_body]
fn random_block() -> (r: Option<Vec<u8>>)
    ensures
        r matches Some(v) ==> v@.len() == 64,
{
    let rng = ring::rand::SystemRandom::new();
    match ring::rand::generate::<[u8; 64]>(&rng) {
        Ok(block) => Some(block.expose().to_vec()),
        Err(_) => None,
    }
}

/// A secret of `len` bytes drawn at random from `set` (not empty where `len`
/// is not 0): 64 random bytes for each started 64 of the secret, each picking
/// one byte of the set. The bytes it is drawn with are up to chance; whatever
/// they are, the secret is the one they pick, so every byte of it is in `set`.
/// An error where the system's generator fails; the empty secret, for a length
/// of 0, needs no random bytes and is always given.
pub fn generate_chars_from_set(set: &[u8], len: usize) -> (r: Result<Vec<u8>, PassrsError>)
    requires
        len > 0 ==> set@.len() > 0,
    ensures
        len == 0 ==> (r matches Ok(v) && v@.len() == 0),
        r matches Ok(v) ==> v@.len() == len && exists|random: Seq<u8>|
            random.len() >= len && v@ == #[trigger] picked(set@, random, len as nat),
        r matches Ok(v) ==> forall|k: int| 0 <= k < len ==> set@.contains(#[trigger] v@[k]),
        r is Err ==> r == Err::<Vec<u8>, PassrsError>(PassrsError::RandomFailed),
{
    if len == 0 {
        let none: Vec<u8> = Vec::new();
        assert(none@ =~= picked(set@, Seq::<u8>::empty(), 0));
        return Ok(none);
    }
    let mut random: Vec<u8> = Vec::new();
    let blocks = len / 64;
    let mut b: usize = 0;
    while b <= blocks
        invariant
            len > 0,
            b <= blocks + 1,
            blocks == len / 64,
            random@.len() == 64 * b,
        decreases blocks + 1 - b,
    {
        match random_block() {
            Some(block) => {
                let mut i: usize = 0;
                while i < block.len()
                    invariant
                        i <= block@.len() == 64,
                        random@.len() == 64 * b + i,
                    decreases block.len() - i,
                {
                    random.push(block[i]);
                    i += 1;
                }
            },
            None => {
                return Err(PassrsError::RandomFailed);
            },
        }
        b += 1;
    }
    assert(random@.len() >= len) by (nonlinear_arith)
        requires
            random@.len() == 64 * (len / 64 + 1),
    ;
    let out = chars_from_random(set, random.as_slice(), len);
    assert forall|k: int| 0 <= k < len implies set@.contains(#[trigger] out@[k]) by {
        let j = (random@[k] as int) % (set@.len() as int);
        assert(out@[k] == set@[j]);
    }
    Ok(out)
}

} // verus!
