//! Counter-based one-time passwords (RFC 4226).
use crate::algorithm::Algorithm;
use crate::bytes;
use crate::decimal;
use crate::mac;
use vstd::prelude::*;

verus! {

// ---------------------------------------------------------------------------
// Specification
// ---------------------------------------------------------------------------

/// Where the truncated value starts: the low four bits of the last byte.
pub open spec fn offset(digest: Seq<u8>) -> int {
    digest.last() as int % 16
}

/// The four bytes of `digest` at its offset as a big-endian number, without
/// the top bit.
pub open spec fn truncated(digest: Seq<u8>) -> nat {
    let i = offset(digest);
    ((digest[i] as nat % 128) * 16777216 + digest[i + 1] as nat * 65536 + digest[i + 2] as nat * 256
        + digest[i + 3] as nat)
}

/// Whether the four bytes that truncation reads lie in `digest`.
pub open spec fn truncates(digest: Seq<u8>) -> bool {
    digest.len() > 0 && offset(digest) + 4 <= digest.len()
}

/// The message that a counter stands for: eight bytes, most significant first.
pub open spec fn counter_bytes(counter: u64) -> Seq<u8> {
    bytes::big_endian(counter as nat, 8)
}

/// The HOTP value for a counter.
pub open spec fn hotp_value(
    key: Seq<u8>,
    counter: u64,
    digits: nat,
    algorithm: Algorithm,
) -> nat {
    truncated(mac::digest(algorithm, key, counter_bytes(counter))) % decimal::ten_to(digits)
}

// ---------------------------------------------------------------------------
// Operations
// ---------------------------------------------------------------------------

/// The bytes of `counter`, most significant first.
pub fn to_bytes(counter: u64) -> (r: Vec<u8>)
    ensures
        r@ == counter_bytes(counter),
        r@.len() == 8,
{
    let b0: u8 = (counter >> 56) as u8;
    let b1: u8 = (counter >> 48) as u8;
    let b2: u8 = (counter >> 40) as u8;
    let b3: u8 = (counter >> 32) as u8;
    let b4: u8 = (counter >> 24) as u8;
    let b5: u8 = (counter >> 16) as u8;
    let b6: u8 = (counter >> 8) as u8;
    let b7: u8 = counter as u8;
    let r: Vec<u8> = vec![b0, b1, b2, b3, b4, b5, b6, b7];
    proof {
        let c = counter;
        assert(c as u8 == c % 256) by (bit_vector);
        assert((c >> 8) as u8 == (c / 0x100) % 256) by (bit_vector);
        assert((c >> 16) as u8 == (c / 0x10000) % 256) by (bit_vector);
        assert((c >> 24) as u8 == (c / 0x1000000) % 256) by (bit_vector);
        assert((c >> 32) as u8 == (c / 0x100000000) % 256) by (bit_vector);
        assert((c >> 40) as u8 == (c / 0x10000000000) % 256) by (bit_vector);
        assert((c >> 48) as u8 == (c / 0x1000000000000) % 256) by (bit_vector);
        assert((c >> 56) as u8 == (c / 0x100000000000000) % 256) by (bit_vector);
        reveal_with_fuel(bytes::big_endian, 9);
        assert(r@ == counter_bytes(counter));
    }
    r
}

/// Dynamic truncation: a code of at most `digits` decimal digits from a digest.
pub fn truncate(digest: &[u8], digits: u32) -> (r: u32)
    requires
        truncates(digest@),
        digits <= 9,
    ensures
        r == truncated(digest@) % decimal::ten_to(digits as nat),
        r < decimal::ten_to(digits as nat),
{
    let last: u8 = digest[digest.len() - 1];
    assert(last & 0x0f == last % 16) by (bit_vector);
    let i: usize = (last & 0x0f) as usize;
    let (d0, d1, d2, d3): (u32, u32, u32, u32) = (
        digest[i] as u32,
        digest[i + 1] as u32,
        digest[i + 2] as u32,
        digest[i + 3] as u32,
    );
    let bin: u32 = ((d0 & 0x7f) << 24) | (d1 << 16) | (d2 << 8) | d3;
    assert(bin == (d0 % 128) * 16777216 + d1 * 65536 + d2 * 256 + d3) by (bit_vector)
        requires
            bin == ((d0 & 0x7f) << 24) | (d1 << 16) | (d2 << 8) | d3,
            d0 < 256,
            d1 < 256,
            d2 < 256,
            d3 < 256,
    ;
    bin % decimal::power_of_ten(digits)
}

/// Compute an HOTP value (RFC 4226) for a counter. `digits` is at most 9.
pub fn hotp(key: &[u8], counter: u64, digits: u32, algorithm: Algorithm) -> (r: u32)
    requires
        digits <= 9,
    ensures
        r == hotp_value(key@, counter, digits as nat, algorithm),
        r < decimal::ten_to(digits as nat),
        forall|message: Seq<u8>|
            message.len() == 8 && #[trigger] bytes::value(message) == counter ==> {
                let d = match algorithm {
                    Algorithm::Sha1 => mac::hmac_sha1(key@, message),
                    Algorithm::Sha256 => mac::hmac_sha256(key@, message),
                    Algorithm::Sha512 => mac::hmac_sha512(key@, message),
                };
                let i = d.last() as int % 16;
                r as int == (bytes::value(d.subrange(i, i + 4)) as int % 0x8000_0000)
                    % vstd::arithmetic::power::pow(10, digits as nat)
            },
{
    let message = to_bytes(counter);
    let digest = mac::hmac_digest(algorithm, key, message.as_slice());
    proof {
        assert forall|m: Seq<u8>| m.len() == 8 && #[trigger] bytes::value(m) == counter implies {
            let d = match algorithm {
                Algorithm::Sha1 => mac::hmac_sha1(key@, m),
                Algorithm::Sha256 => mac::hmac_sha256(key@, m),
                Algorithm::Sha512 => mac::hmac_sha512(key@, m),
            };
            let i = d.last() as int % 16;
            hotp_value(key@, counter, digits as nat, algorithm) as int == (bytes::value(
                d.subrange(i, i + 4),
            ) as int % 0x8000_0000) % vstd::arithmetic::power::pow(10, digits as nat)
        } by {
            law_counter_message(counter, m);
            law_code_of_counter(key@, counter, digits as nat, algorithm, m);
        }
    }
    truncate(digest.as_slice(), digits)
}

// ---------------------------------------------------------------------------
// Laws
// ---------------------------------------------------------------------------

/// Different counters are different messages, of eight bytes each.
pub proof fn law_counters_differ(a: u64, b: u64)
    ensures
        counter_bytes(a).len() == 8,
        a != b ==> counter_bytes(a) != counter_bytes(b),
{
    bytes::lemma_big_endian_len(a as nat, 8);
    assert(bytes::two_to(64) == 0x1_0000_0000_0000_0000) by {
        reveal_with_fuel(bytes::two_to, 65);
    }
    bytes::lemma_value_big_endian(a as nat, 8);
    bytes::lemma_value_big_endian(b as nat, 8);
}

/// A code fits in its digits, and a shorter code is the end of a longer one.
pub proof fn law_shorter_code(
    key: Seq<u8>,
    counter: u64,
    shorter: nat,
    longer: nat,
    algorithm: Algorithm,
)
    requires
        shorter <= longer,
    ensures
        hotp_value(key, counter, shorter, algorithm) < decimal::ten_to(shorter),
        hotp_value(key, counter, shorter, algorithm) == hotp_value(key, counter, longer, algorithm)
            % decimal::ten_to(shorter),
{
    let v = truncated(mac::digest(algorithm, key, counter_bytes(counter)));
    let more = (longer - shorter) as nat;
    let (a, b) = (decimal::ten_to(shorter) as int, decimal::ten_to(more) as int);
    decimal::lemma_ten_to_positive(shorter);
    decimal::lemma_ten_to_positive(more);
    decimal::lemma_ten_to_adds(shorter, more);
    vstd::arithmetic::div_mod::lemma_mod_mod(v as int, a, b);
}

/// Dynamic truncation reads four bytes in a row, at the place that the last four
/// bits of the digest give, as a big-endian number of 31 bits.
pub proof fn law_truncated(digest: Seq<u8>, i: int)
    requires
        digest.len() > 0,
        0 <= i < 16,
        i + 4 <= digest.len(),
        (digest.last() - i) % 16 == 0,
    ensures
        truncates(digest),
        truncated(digest) == bytes::value(digest.subrange(i, i + 4)) % 0x8000_0000,
{
    assert(offset(digest) == i);
    let s = digest.subrange(i, i + 4);
    let (s3, s2, s1, s0) = (s.drop_last(), s.drop_last().drop_last(), s.take(1), s.take(0));
    assert(s2.drop_last() == s1);
    assert(s1.drop_last() == s0);
    assert(bytes::value(s0) == 0);
    assert(bytes::value(s1) == s[0] as nat);
    assert(bytes::value(s2) == bytes::value(s1) * 256 + s[1] as nat);
    assert(bytes::value(s3) == bytes::value(s2) * 256 + s[2] as nat);
    assert(bytes::value(s) == bytes::value(s3) * 256 + s[3] as nat);
    assert(s[0] == digest[i] && s[1] == digest[i + 1] && s[2] == digest[i + 2] && s[3] == digest[i
        + 3]);
}

/// The message of a counter is the only one of eight bytes that writes it.
pub proof fn law_counter_message(counter: u64, message: Seq<u8>)
    ensures
        message == counter_bytes(counter) <==> message.len() == 8 && bytes::value(message)
            == counter,
{
    assert(bytes::two_to(64) == 0x1_0000_0000_0000_0000) by {
        reveal_with_fuel(bytes::two_to, 65);
    }
    bytes::law_two_to(64);
    bytes::law_big_endian(counter as nat, 8, message);
}

/// A code is the truncation of the HMAC of the counter's eight bytes, under the
/// whole key, reduced to its decimal digits.
pub proof fn law_code_of_counter(
    key: Seq<u8>,
    counter: u64,
    digits: nat,
    algorithm: Algorithm,
    message: Seq<u8>,
)
    requires
        message.len() == 8,
        bytes::value(message) == counter,
    ensures
        ({
            let d = match algorithm {
                Algorithm::Sha1 => mac::hmac_sha1(key, message),
                Algorithm::Sha256 => mac::hmac_sha256(key, message),
                Algorithm::Sha512 => mac::hmac_sha512(key, message),
            };
            let i = d.last() as int % 16;
            &&& hotp_value(key, counter, digits, algorithm) == truncated(d) as int
                % vstd::arithmetic::power::pow(10, digits)
            &&& d.len() >= 20 ==> hotp_value(key, counter, digits, algorithm) == (bytes::value(
                d.subrange(i, i + 4),
            ) as int % 0x8000_0000) % vstd::arithmetic::power::pow(10, digits)
        }),
{
    let d = mac::digest(algorithm, key, message);
    law_counter_message(counter, message);
    decimal::law_ten_to(digits);
    if d.len() >= 20 {
        law_truncated(d, d.last() as int % 16);
    }
}

} // verus!
