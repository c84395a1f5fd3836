//! Keyed message digests: HMAC (RFC 2104) over the supported hashes.
use crate::algorithm::Algorithm;
use hmac::{Hmac, KeyInit, Mac};
use sha1::Sha1;
use sha2::{Sha256, Sha512};
use vstd::prelude::*;

verus! {

/// HMAC-SHA-1 of a message under a key.
pub uninterp spec fn hmac_sha1(key: Seq<u8>, message: Seq<u8>) -> Seq<u8>;

/// HMAC-SHA-256 of a message under a key.
pub uninterp spec fn hmac_sha256(key: Seq<u8>, message: Seq<u8>) -> Seq<u8>;

/// HMAC-SHA-512 of a message under a key.
pub uninterp spec fn hmac_sha512(key: Seq<u8>, message: Seq<u8>) -> Seq<u8>;

/// `hmac::Hmac<sha1::Sha1>`, keyed by `new_from_slice`, fed by `update` and
/// read by `finalize`.  It accepts a key of any length; the digest is a
/// function of the key and the message, and has 20 bytes.
#[verifier::external_body]
fn digest_sha1(key: &[u8], message: &[u8]) -> (r: Vec<u8>)
    ensures
        r@ == hmac_sha1(key@, message@),
        r@.len() == 20,
{
    let mut mac = Hmac::<Sha1>::new_from_slice(key).expect("HMAC accepts any key length");
    mac.update(message);
    mac.finalize().into_bytes().to_vec()
}

/// `hmac::Hmac<sha2::Sha256>`, keyed by `new_from_slice`, fed by `update` and
/// read by `finalize`.  It accepts a key of any length; the digest is a
/// function of the key and the message, and has 32 bytes.
#[verifier::external_body]
fn digest_sha256(key: &[u8], message: &[u8]) -> (r: Vec<u8>)
    ensures
        r@ == hmac_sha256(key@, message@),
        r@.len() == 32,
{
    let mut mac = Hmac::<Sha256>::new_from_slice(key).expect("HMAC accepts any key length");
    mac.update(message);
    mac.finalize().into_bytes().to_vec()
}

/// `hmac::Hmac<sha2::Sha512>`, keyed by `new_from_slice`, fed by `update` and
/// read by `finalize`.  It accepts a key of any length; the digest is a
/// function of the key and the message, and has 64 bytes.
#[verifier::external_body]
fn digest_sha512(key: &[u8], message: &[u8]) -> (r: Vec<u8>)
    ensures
        r@ == hmac_sha512(key@, message@),
        r@.len() == 64,
{
    let mut mac = Hmac::<Sha512>::new_from_slice(key).expect("HMAC accepts any key length");
    mac.update(message);
    mac.finalize().into_bytes().to_vec()
}

/// The HMAC of `message` under `key`.
pub open spec fn digest(algorithm: Algorithm, key: Seq<u8>, message: Seq<u8>) -> Seq<u8> {
    match algorithm {
        Algorithm::Sha1 => hmac_sha1(key, message),
        Algorithm::Sha256 => hmac_sha256(key, message),
        Algorithm::Sha512 => hmac_sha512(key, message),
    }
}

/// The number of bytes in a digest.
pub open spec fn digest_len(algorithm: Algorithm) -> nat {
    match algorithm {
        Algorithm::Sha1 => 20,
        Algorithm::Sha256 => 32,
        Algorithm::Sha512 => 64,
    }
}

/// The HMAC of `message` under `key`, which may have any length.
pub fn hmac_digest(algorithm: Algorithm, key: &[u8], message: &[u8]) -> (r: Vec<u8>)
    ensures
        r@ == digest(algorithm, key@, message@),
        r@.len() == digest_len(algorithm),
        algorithm == Algorithm::Sha1 ==> r@ == hmac_sha1(key@, message@),
        algorithm == Algorithm::Sha256 ==> r@ == hmac_sha256(key@, message@),
        algorithm == Algorithm::Sha512 ==> r@ == hmac_sha512(key@, message@),
        r@.len() >= 20,
{
    match algorithm {
        Algorithm::Sha1 => digest_sha1(key, message),
        Algorithm::Sha256 => digest_sha256(key, message),
        Algorithm::Sha512 => digest_sha512(key, message),
    }
}

/// Each algorithm has its own HMAC, of the whole message under the whole key.
pub proof fn law_digest(key: Seq<u8>, message: Seq<u8>)
    ensures
        digest(Algorithm::Sha1, key, message) == hmac_sha1(key, message),
        digest(Algorithm::Sha256, key, message) == hmac_sha256(key, message),
        digest(Algorithm::Sha512, key, message) == hmac_sha512(key, message),
{
}

} // verus!
