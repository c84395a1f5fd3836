//! Codes and how long they last.
use otp::hotp::{to_bytes, truncate};
use otp::mac::hmac_digest;
use otp::{hotp, seconds_remaining, totp_at, Algorithm, Problem, TotpParams};

// RFC 4226 Appendix D: key = ASCII "12345678901234567890".
const RFC_KEY: &[u8] = b"12345678901234567890";

fn params(key: &[u8], digits: u32, period: u64, algorithm: Algorithm) -> TotpParams {
    TotpParams {
        key: key.to_vec(),
        digits,
        period,
        algorithm,
    }
}

#[test]
fn hotp_matches_rfc4226_vectors() {
    let expected = [
        755224, 287082, 359152, 969429, 338314, 254676, 287922, 162583, 399871, 520489,
    ];
    for (counter, &want) in expected.iter().enumerate() {
        assert_eq!(
            hotp(RFC_KEY, counter as u64, 6, Algorithm::Sha1),
            want,
            "counter {counter}"
        );
    }
}

#[test]
fn totp_matches_rfc6238_sha1_vectors() {
    let params = TotpParams {
        key: RFC_KEY.to_vec(),
        digits: 8,
        period: 30,
        algorithm: Algorithm::Sha1,
    };
    assert_eq!(totp_at(&params, 59), "94287082");
    assert_eq!(totp_at(&params, 1111111109), "07081804");
    assert_eq!(totp_at(&params, 1234567890), "89005924");
    assert_eq!(totp_at(&params, 2000000000), "69279037");
}

#[test]
fn seconds_remaining_counts_down_within_the_step() {
    let p = TotpParams {
        key: RFC_KEY.to_vec(),
        digits: 6,
        period: 30,
        algorithm: Algorithm::Sha1,
    };
    assert_eq!(seconds_remaining(&p, 0), 30);
    assert_eq!(seconds_remaining(&p, 1), 29);
    assert_eq!(seconds_remaining(&p, 29), 1);
    assert_eq!(seconds_remaining(&p, 30), 30);
}

#[test]
fn totp_matches_rfc6238_sha1_late_vectors() {
    let p = params(RFC_KEY, 8, 30, Algorithm::Sha1);
    assert_eq!(totp_at(&p, 1111111111), "14050471");
    assert_eq!(totp_at(&p, 20000000000), "65353130");
}

#[test]
fn totp_matches_rfc6238_sha256_vectors() {
    let p = params(
        b"12345678901234567890123456789012",
        8,
        30,
        Algorithm::Sha256,
    );
    assert_eq!(totp_at(&p, 59), "46119246");
    assert_eq!(totp_at(&p, 1111111109), "68084774");
    assert_eq!(totp_at(&p, 1111111111), "67062674");
    assert_eq!(totp_at(&p, 1234567890), "91819424");
    assert_eq!(totp_at(&p, 2000000000), "90698825");
    assert_eq!(totp_at(&p, 20000000000), "77737706");
}

#[test]
fn totp_matches_rfc6238_sha512_vectors() {
    let p = params(
        b"1234567890123456789012345678901234567890123456789012345678901234",
        8,
        30,
        Algorithm::Sha512,
    );
    assert_eq!(totp_at(&p, 59), "90693936");
    assert_eq!(totp_at(&p, 1111111109), "25091201");
    assert_eq!(totp_at(&p, 1111111111), "99943326");
    assert_eq!(totp_at(&p, 1234567890), "93441116");
    assert_eq!(totp_at(&p, 2000000000), "38618901");
    assert_eq!(totp_at(&p, 20000000000), "47863826");
}

#[test]
fn truncation_follows_the_rfc4226_example() {
    let digest: [u8; 20] = [
        0x1f, 0x86, 0x98, 0x69, 0x0e, 0x02, 0xca, 0x16, 0x61, 0x85, 0x50, 0xef, 0x7f, 0x19, 0xda,
        0x8e, 0x94, 0x5b, 0x55, 0x5a,
    ];
    assert_eq!(truncate(&digest, 6), 872921);
    assert_eq!(truncate(&digest, 9), 357872921);
    assert_eq!(truncate(&digest, 0), 0);
}

#[test]
fn truncation_drops_the_top_bit() {
    let mut digest = [0xffu8; 20];
    digest[19] = 0xf0;
    assert_eq!(truncate(&digest, 9), 0x7fff_ffff % 1_000_000_000);
}

#[test]
fn truncation_reads_at_the_last_offset() {
    let mut digest = [0u8; 20];
    digest[15] = 1;
    digest[16] = 2;
    digest[17] = 3;
    digest[18] = 4;
    digest[19] = 0x0f;
    assert_eq!(truncate(&digest, 9), 0x0102_0304);
}

#[test]
fn counter_bytes_are_big_endian_and_differ() {
    assert_eq!(to_bytes(0x0102_0304_0506_0708), vec![1, 2, 3, 4, 5, 6, 7, 8]);
    assert_eq!(to_bytes(0), vec![0; 8]);
    assert_eq!(to_bytes(u64::MAX), vec![255; 8]);
    assert_ne!(to_bytes(1), to_bytes(256));
}

#[test]
fn digests_have_their_lengths_and_known_values() {
    // RFC 2202 and RFC 4231, key "Jefe".
    let message = b"what do ya want for nothing?";
    let sha1 = hmac_digest(Algorithm::Sha1, b"Jefe", message);
    assert_eq!(sha1.len(), 20);
    assert_eq!(sha1[..4], [0xef, 0xfc, 0xdf, 0x6a]);
    let sha256 = hmac_digest(Algorithm::Sha256, b"Jefe", message);
    assert_eq!(sha256.len(), 32);
    assert_eq!(sha256[..4], [0x5b, 0xdc, 0xc1, 0x46]);
    let sha512 = hmac_digest(Algorithm::Sha512, b"Jefe", message);
    assert_eq!(sha512.len(), 64);
    assert_eq!(sha512[..4], [0x16, 0x4b, 0x7a, 0x7b]);
}

#[test]
fn an_empty_key_and_a_long_key_are_accepted() {
    assert_eq!(hmac_digest(Algorithm::Sha1, b"", b"").len(), 20);
    assert_eq!(
        hmac_digest(Algorithm::Sha1, b"", b"")[..4],
        [0xfb, 0xdb, 0x1d, 0x1b]
    );
    assert_eq!(hmac_digest(Algorithm::Sha512, &[0xaa; 500], b"x").len(), 64);
}

#[test]
fn a_shorter_code_is_the_end_of_a_longer_one() {
    for counter in 0..20u64 {
        let long = hotp(RFC_KEY, counter, 9, Algorithm::Sha1);
        assert_eq!(hotp(RFC_KEY, counter, 6, Algorithm::Sha1), long % 1_000_000);
        assert_eq!(hotp(RFC_KEY, counter, 1, Algorithm::Sha1), long % 10);
        assert_eq!(hotp(RFC_KEY, counter, 0, Algorithm::Sha1), 0);
        for shorter in 0..=9u32 {
            for longer in shorter..=9 {
                assert_eq!(
                    hotp(RFC_KEY, counter, shorter, Algorithm::Sha1),
                    hotp(RFC_KEY, counter, longer, Algorithm::Sha1) % 10u32.pow(shorter)
                );
            }
        }
    }
}

#[test]
fn codes_have_their_digits() {
    for digits in 1..=9u32 {
        for time in [0, 59, 1111111109, u64::MAX] {
            let code = totp_at(&params(RFC_KEY, digits, 30, Algorithm::Sha256), time);
            assert_eq!(code.len(), digits as usize);
            assert!(code.chars().all(|c| c.is_ascii_digit()));
        }
    }
    assert_eq!(totp_at(&params(RFC_KEY, 0, 30, Algorithm::Sha1), 59), "0");
}

#[test]
fn a_code_lasts_for_its_seconds() {
    let p = params(RFC_KEY, 6, 30, Algorithm::Sha1);
    let now = 1_000_000_007;
    let left = seconds_remaining(&p, now);
    assert_eq!(left, 13);
    let code = totp_at(&p, now);
    for elapsed in 0..left {
        assert_eq!(totp_at(&p, now + elapsed), code);
        assert_eq!(seconds_remaining(&p, now + elapsed), left - elapsed);
    }
    assert_eq!(seconds_remaining(&p, now + left), 30);
    assert_ne!(totp_at(&p, now + left), code);
}

#[test]
fn a_period_of_one_second_and_the_last_second_are_handled() {
    let p = params(RFC_KEY, 6, 1, Algorithm::Sha1);
    assert_eq!(seconds_remaining(&p, 5), 1);
    assert_eq!(totp_at(&p, 1), "287082");
    let long = params(RFC_KEY, 6, u64::MAX, Algorithm::Sha1);
    assert_eq!(totp_at(&long, u64::MAX), "287082");
    assert_eq!(seconds_remaining(&long, u64::MAX), u64::MAX);
    assert_eq!(seconds_remaining(&long, u64::MAX - 1), 1);
}

#[test]
fn ranges_are_looked_at_before_the_secret() {
    let make = TotpParams::from_base32;
    assert_eq!(
        make("!", 0, 0, Algorithm::Sha1).unwrap_err(),
        Problem::DigitsOutOfRange(0)
    );
    assert_eq!(
        make("!", 10, 30, Algorithm::Sha1).unwrap_err(),
        Problem::DigitsOutOfRange(10)
    );
    assert_eq!(
        make("!", 9, 0, Algorithm::Sha1).unwrap_err(),
        Problem::ZeroPeriod
    );
    assert_eq!(
        make(" = ", 6, 30, Algorithm::Sha1).unwrap_err(),
        Problem::EmptySecret
    );
    let p = make("JBSWY3DP", 9, 1, Algorithm::Sha512).unwrap();
    assert_eq!(p.key, b"Hello");
    assert_eq!(
        (p.digits, p.period, p.algorithm),
        (9, 1, Algorithm::Sha512)
    );
}

#[test]
fn algorithms_are_parsed_in_any_case() {
    assert_eq!(Algorithm::parse("SHA1"), Ok(Algorithm::Sha1));
    assert_eq!(Algorithm::parse(" sha256\t"), Ok(Algorithm::Sha256));
    assert_eq!(Algorithm::parse("Sha512"), Ok(Algorithm::Sha512));
    assert_eq!(
        Algorithm::parse(" md5 "),
        Err(Problem::UnsupportedAlgorithm("MD5".to_string()))
    );
    assert_eq!(
        Algorithm::parse(""),
        Err(Problem::UnsupportedAlgorithm(String::new()))
    );
    assert_eq!(
        Algorithm::parse("SHA-1"),
        Err(Problem::UnsupportedAlgorithm("SHA-1".to_string()))
    );
}
