//! Cryptographically secure random numbers, from the system random source
//! (which TEEs such as Intel TDX back with the RDRAND/RDSEED instructions).
//!
//! Every service checks the size that it is asked for, fills a buffer from
//! the random source and builds its answer from the buffer. What the source
//! puts in the buffer is chance: the contracts state what holds whatever it
//! gave, and the functions that build an answer from given bytes state it
//! exactly.

use vstd::prelude::*;

use ring::error::Unspecified;
use ring::rand::{SecureRandom, SystemRandom};

use crate::error::{HalError, HalResult};
use crate::text::{push_hex_byte, string_from_chars};

pub mod hardware_rng;
pub mod wasi_random;

verus! {

#[verifier::external_type_specification]
#[verifier::external_body]
pub struct ExSystemRandom(SystemRandom);

#[verifier::external_type_specification]
#[verifier::external_body]
pub struct ExUnspecified(Unspecified);

/// `ring::rand::SystemRandom::new`: a handle on the operating system's random
/// source. The handle holds nothing that could be stated.
#[verifier::external_body]
fn system_random() -> SystemRandom {
    SystemRandom::new()
}

/// `SecureRandom::fill` of ring's `SystemRandom`: fills `dest` from the
/// random source (`getrandom::getrandom` on every platform that has it). The
/// bytes are chance, so only that the buffer keeps its length is stated, and
/// that an empty buffer is never an error (`getrandom` asks the system for
/// nothing then).
#[verifier::external_body]
fn fill_random(rng: &SystemRandom, dest: &mut [u8]) -> (r: Result<(), Unspecified>)
    ensures
        final(dest)@.len() == old(dest)@.len(),
        old(dest)@.len() == 0 ==> r is Ok,
{
    rng.fill(dest)
}

/// The most bytes that one request for random bytes may ask for (1 MiB).
pub const MAX_RANDOM_BYTES: usize = 1048576;

/// The value of four bytes read as a little-endian `u32`.
pub open spec fn le_u32(b: Seq<u8>) -> int {
    b[0] + b[1] * 256 + b[2] * 65536 + b[3] * 16777216
}

/// The value of eight bytes read as a little-endian `u64`.
pub open spec fn le_u64(b: Seq<u8>) -> int {
    le_u32(b) + le_u32(b.skip(4)) * 4294967296
}

/// Reads four bytes as a little-endian `u32` (as `u32::from_le_bytes`).
pub fn u32_from_le_bytes(b: &[u8]) -> (v: u32)
    requires
        b@.len() == 4,
    ensures
        v == le_u32(b@),
{
    b[0] as u32 + (b[1] as u32) * 256 + (b[2] as u32) * 65536 + (b[3] as u32) * 16777216
}

/// Reads eight bytes as a little-endian `u64` (as `u64::from_le_bytes`).
pub fn u64_from_le_bytes(b: &[u8]) -> (v: u64)
    requires
        b@.len() == 8,
    ensures
        v == le_u64(b@),
{
    let lo: u64 = b[0] as u64 + (b[1] as u64) * 256 + (b[2] as u64) * 65536 + (b[3] as u64)
        * 16777216;
    let hi: u64 = b[4] as u64 + (b[5] as u64) * 256 + (b[6] as u64) * 65536 + (b[7] as u64)
        * 16777216;
    assert(hi == le_u32(b@.skip(4)));
    lo + hi * 4294967296
}

/// What a fill of `value`'s buffer comes to: `value` when the random source
/// succeeded, else a `CryptographicError` with the message `failure`.
pub fn fill_outcome<T>(value: T, filled: Result<(), Unspecified>, failure: &str) -> (r: HalResult<T>)
    ensures
        filled is Ok ==> r == Ok::<T, HalError>(value),
        filled is Err ==> (r matches Err(HalError::CryptographicError(m)) && m@ == failure@),
{
    match filled {
        Ok(()) => Ok(value),
        Err(_) => Err(HalError::CryptographicError(failure.to_owned())),
    }
}

/// The value that `generate_random_range` draws from `random`: `min` plus
/// `random` modulo the width of the range. Plain modulo: unless the width
/// divides 2^64, lower values are slightly more likely.
pub fn value_in_range(min: u64, max: u64, random: u64) -> (v: u64)
    requires
        min < max,
    ensures
        v == min + random % ((max - min) as u64),
        min <= v < max,
{
    let range = max - min;
    min + random % range
}

/// The byte that a version-4 UUID has at position 6: the version nibble 4
/// above the low nibble of the random byte.
pub open spec fn uuid_version_byte(b: u8) -> u8 {
    (b % 16 + 64) as u8
}

/// The byte that a version-4 UUID has at position 8: the variant bits `10`
/// above the low six bits of the random byte.
pub open spec fn uuid_variant_byte(b: u8) -> u8 {
    (b % 64 + 128) as u8
}

/// The text of the version-4 UUID made from 16 random bytes: the version and
/// variant bits set as RFC 4122 says, then the bytes in lower-case hex in
/// groups of 4, 2, 2, 2 and 6 bytes joined by `-`.
pub open spec fn uuid_v4_text(b: Seq<u8>) -> Seq<char> {
    let u = b.update(6, uuid_version_byte(b[6])).update(8, uuid_variant_byte(b[8]));
    crate::text::hex_lower(u.subrange(0, 4)) + seq!['-'] + crate::text::hex_lower(u.subrange(4, 6))
        + seq!['-'] + crate::text::hex_lower(u.subrange(6, 8)) + seq!['-'] + crate::text::hex_lower(
        u.subrange(8, 10),
    ) + seq!['-'] + crate::text::hex_lower(u.subrange(10, 16))
}

proof fn lemma_hex_lower_push(d: Seq<u8>, b: u8)
    ensures
        crate::text::hex_lower(d.push(b)) == crate::text::hex_lower(d) + seq![
            crate::text::hex_digit_spec(b / 16),
            crate::text::hex_digit_spec(b % 16),
        ],
{
    assert(d.push(b).drop_last() =~= d);
}

proof fn lemma_hex_lower_len(d: Seq<u8>)
    ensures
        crate::text::hex_lower(d).len() == 2 * d.len(),
    decreases d.len(),
{
    if d.len() > 0 {
        lemma_hex_lower_len(d.drop_last());
    }
}

proof fn lemma_hex_lower_two(x: u8, y: u8)
    ensures
        crate::text::hex_lower(seq![x, y]) == seq![
            crate::text::hex_digit_spec(x / 16),
            crate::text::hex_digit_spec(x % 16),
            crate::text::hex_digit_spec(y / 16),
            crate::text::hex_digit_spec(y % 16),
        ],
{
    let d = seq![x, y];
    assert(d.drop_last() =~= seq![x]);
    assert(seq![x].drop_last() =~= Seq::<u8>::empty());
    assert(crate::text::hex_lower(Seq::<u8>::empty()) =~= Seq::<char>::empty());
    assert(seq![x].last() == x);
    assert(crate::text::hex_lower(seq![x]) =~= seq![
        crate::text::hex_digit_spec(x / 16),
        crate::text::hex_digit_spec(x % 16),
    ]);
}

/// The shape of a version-4 UUID text: 36 characters, `-` at positions 8,
/// 13, 18 and 23 (groups of 8, 4, 4, 4 and 12 hex digits), the version digit
/// `4` at position 14, and a variant digit `8`, `9`, `a` or `b` at position 19.
pub proof fn lemma_uuid_v4_shape(b: Seq<u8>)
    requires
        b.len() == 16,
    ensures
        ({
            let t = uuid_v4_text(b);
            &&& t.len() == 36
            &&& t[8] == '-' && t[13] == '-' && t[18] == '-' && t[23] == '-'
            &&& t[14] == '4'
            &&& t[19] == '8' || t[19] == '9' || t[19] == 'a' || t[19] == 'b'
        }),
{
    let u = b.update(6, uuid_version_byte(b[6])).update(8, uuid_variant_byte(b[8]));
    let g0 = u.subrange(0, 4);
    let g1 = u.subrange(4, 6);
    let g2 = u.subrange(6, 8);
    let g3 = u.subrange(8, 10);
    let g4 = u.subrange(10, 16);
    lemma_hex_lower_len(g0);
    lemma_hex_lower_len(g1);
    lemma_hex_lower_len(g2);
    lemma_hex_lower_len(g3);
    lemma_hex_lower_len(g4);
    assert(g2 =~= seq![u[6], u[7]]);
    assert(g3 =~= seq![u[8], u[9]]);
    lemma_hex_lower_two(u[6], u[7]);
    lemma_hex_lower_two(u[8], u[9]);
    let v6 = uuid_version_byte(b[6]);
    let v8 = uuid_variant_byte(b[8]);
    assert(u[6] == v6);
    assert(u[8] == v8);
    assert(v6 / 16 == 4);
    assert(8 <= v8 / 16 <= 11);
}

/// Appends the hex of `b[from..to]` to `out`.
fn push_hex_range(out: &mut Vec<char>, b: &Vec<u8>, from: usize, to: usize)
    requires
        from <= to <= b@.len(),
    ensures
        final(out)@ == old(out)@ + crate::text::hex_lower(b@.subrange(from as int, to as int)),
{
    let mut k: usize = from;
    assert(b@.subrange(from as int, from as int) =~= Seq::<u8>::empty());
    assert(old(out)@ + crate::text::hex_lower(Seq::<u8>::empty()) =~= old(out)@);
    while k < to
        invariant
            from <= k <= to <= b@.len(),
            out@ == old(out)@ + crate::text::hex_lower(b@.subrange(from as int, k as int)),
        decreases to - k,
    {
        proof {
            lemma_hex_lower_push(b@.subrange(from as int, k as int), b@[k as int]);
            assert(b@.subrange(from as int, k as int).push(b@[k as int]) =~= b@.subrange(
                from as int,
                k + 1,
            ));
        }
        push_hex_byte(out, b[k]);
        k = k + 1;
    }
}

/// The text of the version-4 UUID made from 16 random bytes (see
/// `uuid_v4_text`).
pub fn format_uuid_v4(bytes: &[u8]) -> (s: String)
    requires
        bytes@.len() == 16,
    ensures
        s@ == uuid_v4_text(bytes@),
{
    let mut b: Vec<u8> = Vec::new();
    let mut i: usize = 0;
    while i < 16
        invariant
            bytes@.len() == 16,
            i <= 16,
            b@ == bytes@.take(i as int),
        decreases 16 - i,
    {
        b.push(bytes[i]);
        i = i + 1;
        assert(b@ =~= bytes@.take(i as int));
    }
    assert(b@ =~= bytes@);
    let b6 = b[6];
    let b8 = b[8];
    let v6: u8 = (b6 & 0x0f) | 0x40;
    let v8: u8 = (b8 & 0x3f) | 0x80;
    assert(v6 == uuid_version_byte(b6)) by (bit_vector)
        requires
            v6 == (b6 & 0x0f) | 0x40,
    ;
    assert(v8 == uuid_variant_byte(b8)) by (bit_vector)
        requires
            v8 == (b8 & 0x3f) | 0x80,
    ;
    b.set(6, v6);
    b.set(8, v8);
    let mut out: Vec<char> = Vec::new();
    push_hex_range(&mut out, &b, 0, 4);
    out.push('-');
    push_hex_range(&mut out, &b, 4, 6);
    out.push('-');
    push_hex_range(&mut out, &b, 6, 8);
    out.push('-');
    push_hex_range(&mut out, &b, 8, 10);
    out.push('-');
    push_hex_range(&mut out, &b, 10, 16);
    let s = string_from_chars(out);
    assert(s@ =~= uuid_v4_text(bytes@));
    s
}

/// The number of times `b` occurs in `s`.
pub open spec fn occurrences(s: Seq<u8>, b: u8) -> nat
    decreases s.len(),
{
    if s.len() == 0 {
        0
    } else {
        occurrences(s.drop_last(), b) + if s.last() == b {
            1nat
        } else {
            0nat
        }
    }
}

proof fn lemma_occurrences_bound(s: Seq<u8>, b: u8)
    ensures
        occurrences(s, b) <= s.len(),
    decreases s.len(),
{
    if s.len() > 0 {
        lemma_occurrences_bound(s.drop_last(), b);
    }
}

/// How often each byte value occurs in `sample`: the count of value `v` at
/// index `v`.
pub fn byte_frequencies(sample: &[u8]) -> (f: Vec<u32>)
    requires
        sample@.len() <= u32::MAX,
    ensures
        f@.len() == 256,
        forall|v: int| 0 <= v < 256 ==> #[trigger] f@[v] == occurrences(sample@, v as u8),
{
    let mut f: Vec<u32> = Vec::new();
    let mut v: usize = 0;
    while v < 256
        invariant
            v <= 256,
            f@.len() == v,
            forall|w: int| 0 <= w < v ==> #[trigger] f@[w] == 0,
        decreases 256 - v,
    {
        f.push(0);
        v = v + 1;
    }
    let n = sample.len();
    let mut i: usize = 0;
    while i < n
        invariant
            n == sample@.len(),
            n <= u32::MAX,
            i <= n,
            f@.len() == 256,
            forall|w: int| 0 <= w < 256 ==> #[trigger] f@[w] == occurrences(
                sample@.take(i as int),
                w as u8,
            ),
        decreases n - i,
    {
        let x = sample[i];
        assert(sample@.take(i + 1).drop_last() =~= sample@.take(i as int));
        proof {
            lemma_occurrences_bound(sample@.take(i as int), x);
        }
        let c = f[x as usize];
        f.set(x as usize, c + 1);
        i = i + 1;
        assert forall|w: int| 0 <= w < 256 implies #[trigger] f@[w] == occurrences(
            sample@.take(i as int),
            w as u8,
        ) by {
            assert(sample@.take(i as int).last() == x);
            if w != x as int {
                assert((w as u8) != x);
            }
        }
    }
    assert(sample@.take(n as int) =~= sample@);
    f
}

/// The random-number interface.
#[derive(Debug)]
pub struct RandomInterface {
    rng: SystemRandom,
}

impl RandomInterface {
    /// An interface on the system random source.
    pub fn new() -> Self {
        RandomInterface { rng: system_random() }
    }

    /// `length` random bytes. More than `MAX_RANDOM_BYTES` is refused; a
    /// failing random source is a `CryptographicError`.
    pub fn generate_random_bytes(&self, length: usize) -> (r: HalResult<Vec<u8>>)
        ensures
            length > MAX_RANDOM_BYTES ==> (r matches Err(HalError::InvalidParameter(m)) && m@
                == "Requested random data too large (max 1MB)"@),
            length <= MAX_RANDOM_BYTES ==> (r matches Ok(v) ==> v@.len() == length),
            length <= MAX_RANDOM_BYTES ==> (r matches Err(e) ==> (e matches HalError::CryptographicError(m)
                && m@ == "Failed to generate random bytes"@)),
            length == 0 ==> r is Ok,
    {
        if length > MAX_RANDOM_BYTES {
            return Err(
                HalError::InvalidParameter(
                    String::from_str("Requested random data too large (max 1MB)"),
                ),
            );
        }
        let mut buffer: Vec<u8> = vec![0u8; length];
        let filled = fill_random(&self.rng, buffer.as_mut_slice());
        fill_outcome(buffer, filled, "Failed to generate random bytes")
    }

    /// A random `u32`; a failing random source is a `CryptographicError`.
    pub fn generate_random_u32(&self) -> (r: HalResult<u32>)
        ensures
            r matches Err(e) ==> (e matches HalError::CryptographicError(m) && m@
                == "Failed to generate random u32"@),
    {
        let mut buffer: Vec<u8> = vec![0u8; 4];
        let filled = fill_random(&self.rng, buffer.as_mut_slice());
        let buffer = fill_outcome(buffer, filled, "Failed to generate random u32")?;
        Ok(u32_from_le_bytes(buffer.as_slice()))
    }

    /// A random `u64`; a failing random source is a `CryptographicError`.
    pub fn generate_random_u64(&self) -> (r: HalResult<u64>)
        ensures
            r matches Err(e) ==> (e matches HalError::CryptographicError(m) && m@
                == "Failed to generate random u64"@),
    {
        let mut buffer: Vec<u8> = vec![0u8; 8];
        let filled = fill_random(&self.rng, buffer.as_mut_slice());
        let buffer = fill_outcome(buffer, filled, "Failed to generate random u64")?;
        Ok(u64_from_le_bytes(buffer.as_slice()))
    }

    /// A random value in `min..max` (see `value_in_range`, which draws by
    /// plain modulo, so slightly biased); an empty range is refused.
    pub fn generate_random_range(&self, min: u64, max: u64) -> (r: HalResult<u64>)
        ensures
            min >= max ==> (r matches Err(HalError::InvalidParameter(m)) && m@
                == "Min value must be less than max value"@),
            min < max ==> (r matches Ok(v) ==> min <= v < max),
            min < max ==> (r matches Err(e) ==> (e matches HalError::CryptographicError(m) && m@
                == "Failed to generate random u64"@)),
    {
        if min >= max {
            return Err(
                HalError::InvalidParameter(String::from_str("Min value must be less than max value")),
            );
        }
        let random = self.generate_random_u64()?;
        Ok(value_in_range(min, max, random))
    }

    /// A random version-4 UUID in its 36-character text form (see
    /// `uuid_v4_text`); a failing random source is a `CryptographicError`.
    pub fn generate_uuid_v4(&self) -> (r: HalResult<String>)
        ensures
            r matches Ok(s) ==> exists|b: Seq<u8>| b.len() == 16 && s@ == uuid_v4_text(b),
            r matches Ok(s) ==> s@.len() == 36 && s@[8] == '-' && s@[13] == '-' && s@[18] == '-'
                && s@[23] == '-' && s@[14] == '4',
            r matches Err(e) ==> (e matches HalError::CryptographicError(m) && m@
                == "Failed to generate UUID"@),
    {
        let mut buffer: Vec<u8> = vec![0u8; 16];
        let filled = fill_random(&self.rng, buffer.as_mut_slice());
        let buffer = fill_outcome(buffer, filled, "Failed to generate UUID")?;
        let s = format_uuid_v4(buffer.as_slice());
        proof {
            lemma_uuid_v4_shape(buffer@);
        }
        Ok(s)
    }

    /// A random nonce of 1 to 64 bytes; other lengths are refused.
    pub fn generate_nonce(&self, length: usize) -> (r: HalResult<Vec<u8>>)
        ensures
            length == 0 || length > 64 ==> (r matches Err(HalError::InvalidParameter(m)) && m@
                == "Nonce length must be between 1 and 64 bytes"@),
            1 <= length <= 64 ==> (r matches Ok(v) ==> v@.len() == length),
            1 <= length <= 64 ==> (r matches Err(e) ==> (e matches HalError::CryptographicError(m)
                && m@ == "Failed to generate random bytes"@)),
    {
        if length == 0 || length > 64 {
            return Err(
                HalError::InvalidParameter(
                    String::from_str("Nonce length must be between 1 and 64 bytes"),
                ),
            );
        }
        self.generate_random_bytes(length)
    }

    /// A random salt of 16 to 64 bytes; other lengths are refused.
    pub fn generate_salt(&self, length: usize) -> (r: HalResult<Vec<u8>>)
        ensures
            !(16 <= length <= 64) ==> (r matches Err(HalError::InvalidParameter(m)) && m@
                == "Salt length must be between 16 and 64 bytes"@),
            16 <= length <= 64 ==> (r matches Ok(v) ==> v@.len() == length),
            16 <= length <= 64 ==> (r matches Err(e) ==> (e matches HalError::CryptographicError(m)
                && m@ == "Failed to generate random bytes"@)),
    {
        if !(16 <= length && length <= 64) {
            return Err(
                HalError::InvalidParameter(
                    String::from_str("Salt length must be between 16 and 64 bytes"),
                ),
            );
        }
        self.generate_random_bytes(length)
    }

    /// Random key material of 16 to 256 bytes; other lengths are refused.
    pub fn generate_key_material(&self, length: usize) -> (r: HalResult<Vec<u8>>)
        ensures
            !(16 <= length <= 256) ==> (r matches Err(HalError::InvalidParameter(m)) && m@
                == "Key material length must be between 16 and 256 bytes"@),
            16 <= length <= 256 ==> (r matches Ok(v) ==> v@.len() == length),
            16 <= length <= 256 ==> (r matches Err(e) ==> (e matches HalError::CryptographicError(m)
                && m@ == "Failed to generate random bytes"@)),
    {
        if !(16 <= length && length <= 256) {
            return Err(
                HalError::InvalidParameter(
                    String::from_str("Key material length must be between 16 and 256 bytes"),
                ),
            );
        }
        self.generate_random_bytes(length)
    }

    /// The random sample on which the entropy of the source is measured:
    /// 1000 to 100000 bytes; other sizes are refused.
    pub fn generate_quality_sample(&self, sample_size: usize) -> (r: HalResult<Vec<u8>>)
        ensures
            !(1000 <= sample_size <= 100000) ==> (r matches Err(HalError::InvalidParameter(m))
                && m@ == "Sample size must be between 1000 and 100000 bytes"@),
            1000 <= sample_size <= 100000 ==> (r matches Ok(v) ==> v@.len() == sample_size),
            1000 <= sample_size <= 100000 ==> (r matches Err(e) ==> (
            e matches HalError::CryptographicError(m) && m@ == "Failed to generate random bytes"@)),
    {
        if !(1000 <= sample_size && sample_size <= 100000) {
            return Err(
                HalError::InvalidParameter(
                    String::from_str("Sample size must be between 1000 and 100000 bytes"),
                ),
            );
        }
        self.generate_random_bytes(sample_size)
    }
}

impl Default for RandomInterface {
    fn default() -> Self {
        Self::new()
    }
}

} // verus!
