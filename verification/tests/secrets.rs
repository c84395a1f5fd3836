//! Base32 secrets and the messages about them.
use otp::base32::{decode, Base32Error, Base32Fault};
use otp::{decode_base32, Problem};

fn fault(position: usize, kind: Base32Fault) -> Base32Error {
    Base32Error { position, kind }
}

#[test]
fn decode_base32_handles_case_spaces_and_padding() {
    assert_eq!(decode_base32("JBSWY3DP").unwrap(), b"Hello");
    assert_eq!(decode_base32("jbsw y3dp").unwrap(), b"Hello");
    assert_eq!(decode_base32("JBSWY3DP====").unwrap(), b"Hello");
    assert!(decode_base32("1188!!").is_err());
}

#[test]
fn rfc4648_texts_decode() {
    assert_eq!(decode(b"").unwrap(), b"");
    assert_eq!(decode(b"MY").unwrap(), b"f");
    assert_eq!(decode(b"MZXQ").unwrap(), b"fo");
    assert_eq!(decode(b"MZXW6").unwrap(), b"foo");
    assert_eq!(decode(b"MZXW6YQ").unwrap(), b"foob");
    assert_eq!(decode(b"MZXW6YTB").unwrap(), b"fooba");
    assert_eq!(decode(b"MZXW6YTBOI").unwrap(), b"foobar");
    assert_eq!(decode(b"77777777").unwrap(), [0xff; 5]);
}

#[test]
fn faults_are_placed() {
    assert_eq!(decode(b"M"), Err(fault(0, Base32Fault::Length)));
    assert_eq!(decode(b"MZX"), Err(fault(2, Base32Fault::Length)));
    assert_eq!(decode(b"1188!!"), Err(fault(5, Base32Fault::Length)));
    assert_eq!(decode(b"A1"), Err(fault(1, Base32Fault::Symbol)));
    assert_eq!(decode(b"A8B0"), Err(fault(1, Base32Fault::Symbol)));
    assert_eq!(decode(b"my"), Err(fault(0, Base32Fault::Symbol)));
    assert_eq!(decode(b"MZ"), Err(fault(1, Base32Fault::Trailing)));
    assert_eq!(decode(b"MZXW7YTBOJ"), Err(fault(9, Base32Fault::Trailing)));
    assert_eq!(decode(b"MY======"), Err(fault(2, Base32Fault::Symbol)));
}

#[test]
fn every_byte_has_its_place_in_the_alphabet() {
    for b in 0..=255u8 {
        let r = decode(&[b, b'A']);
        let known = b.is_ascii_uppercase() || (b'2'..=b'7').contains(&b);
        assert_eq!(r.is_ok(), known, "byte {b}");
        if known {
            let v = if b >= b'A' { b - b'A' } else { b - b'2' + 26 };
            assert_eq!(r.unwrap(), vec![v << 3]);
        }
    }
}

#[test]
fn long_texts_decode_across_blocks() {
    for blocks in [511usize, 512, 513, 1024, 1025] {
        let text = "JBSWY3DP".repeat(blocks);
        assert_eq!(decode(text.as_bytes()).unwrap(), b"Hello".repeat(blocks));
        let tail = format!("{text}MY");
        let mut bytes = b"Hello".repeat(blocks);
        bytes.push(b'f');
        assert_eq!(decode(tail.as_bytes()).unwrap(), bytes);
        let bad = format!("{text}M1");
        assert_eq!(
            decode(bad.as_bytes()),
            Err(fault(8 * blocks + 1, Base32Fault::Symbol))
        );
        let odd = format!("{text}MZ");
        assert_eq!(
            decode(odd.as_bytes()),
            Err(fault(8 * blocks + 1, Base32Fault::Trailing))
        );
        let early = format!("AA!A{}", "AAAAAAAA".repeat(blocks));
        assert_eq!(decode(early.as_bytes()), Err(fault(2, Base32Fault::Symbol)));
        let short = format!("!{text}");
        assert_eq!(
            decode(short.as_bytes()),
            Err(fault(8 * blocks, Base32Fault::Length))
        );
    }
}

#[test]
fn space_padding_and_case_do_not_matter() {
    for text in [
        "JBSWY3DP",
        "=J B\tS\nW\u{a0}Y\u{3000}3D P==",
        "jBsWy3dP",
        "\u{2028}jbswy3dp\r\n",
    ] {
        assert_eq!(decode_base32(text).unwrap(), b"Hello", "{text:?}");
    }
}

#[test]
fn empty_secrets_are_refused() {
    for text in ["", " ", "====", "\t=\n"] {
        assert_eq!(decode_base32(text), Err(Problem::EmptySecret));
    }
}

#[test]
fn every_key_has_a_secret() {
    // The encoder of `data_encoding`, on keys of several lengths.
    for len in 1..40usize {
        let key: Vec<u8> = (0..len).map(|i| (i * 37 + len) as u8).collect();
        let text = data_encoding::BASE32_NOPAD.encode(&key);
        assert_eq!(decode_base32(&text).unwrap(), key);
        let padded = data_encoding::BASE32.encode(&key);
        assert_eq!(decode_base32(&padded.to_lowercase()).unwrap(), key);
    }
}

#[test]
fn a_text_that_decodes_is_the_only_one_for_its_bytes() {
    for text in ["", "MY", "MZXQ", "MZXW6", "MZXW6YQ", "MZXW6YTB", "JBSWY3DPEHPK3PXP"] {
        let bytes = decode(text.as_bytes()).unwrap();
        assert_eq!(data_encoding::BASE32_NOPAD.encode(&bytes), text);
    }
}

#[test]
fn faults_of_secrets_count_cleaned_characters() {
    assert_eq!(
        decode_base32("m z"),
        Err(Problem::InvalidBase32(fault(1, Base32Fault::Trailing)))
    );
    assert_eq!(
        decode_base32(" m - "),
        Err(Problem::InvalidBase32(fault(1, Base32Fault::Symbol)))
    );
    assert_eq!(
        decode_base32("\u{e9}"),
        Err(Problem::InvalidBase32(fault(0, Base32Fault::Symbol)))
    );
    assert_eq!(
        decode_base32("a a a"),
        Err(Problem::InvalidBase32(fault(2, Base32Fault::Length)))
    );
}

#[test]
fn messages_say_what_is_wrong() {
    let message = |p: Problem<String>| p.message();
    assert_eq!(
        message(Problem::UnsupportedAlgorithm("MD5".to_string())),
        "unsupported algorithm \"MD5\" (use SHA1/SHA256/SHA512)"
    );
    assert_eq!(
        message(Problem::DigitsOutOfRange(10)),
        "digits must be between 1 and 9 (got 10)"
    );
    assert_eq!(
        message(Problem::DigitsOutOfRange(u32::MAX)),
        "digits must be between 1 and 9 (got 4294967295)"
    );
    assert_eq!(
        message(Problem::ZeroPeriod),
        "period must be greater than zero"
    );
    assert_eq!(message(Problem::EmptySecret), "empty secret");
    assert_eq!(
        message(Problem::NotTotpUri("a\"b".to_string())),
        "not a TOTP otpauth URI: \"a\\\"b\""
    );
    assert_eq!(
        message(Problem::InvalidDigits("x".to_string())),
        "invalid digits: \"x\""
    );
    assert_eq!(
        message(Problem::InvalidPeriod("\n".to_string())),
        "invalid period: \"\\n\""
    );
    assert_eq!(
        message(Problem::MissingSecret),
        "otpauth URI is missing the secret parameter"
    );
    assert_eq!(
        message(Problem::EmptyServiceName),
        "service name must not be empty"
    );
    assert_eq!(
        message(Problem::InvalidServiceName("a b".to_string())),
        "service name must not contain a colon or whitespace: \"a b\""
    );
}

#[test]
fn messages_about_base32_are_those_of_the_decoder() {
    for text in ["1188!!", "A1", "MZ", "M"] {
        let theirs = data_encoding::BASE32_NOPAD
            .decode(text.as_bytes())
            .unwrap_err();
        assert_eq!(
            decode_base32(text).unwrap_err().message(),
            format!("invalid base32 secret: {theirs}")
        );
    }
    assert_eq!(
        Problem::<String>::InvalidBase32(fault(7, Base32Fault::Padding)).message(),
        "invalid base32 secret: invalid padding length at 7"
    );
}
