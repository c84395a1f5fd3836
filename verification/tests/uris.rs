//! `otpauth://` URIs and stored values.
use otp::percent::{percent_decode, unescape};
use otp::{parse_otpauth, resolve_secret, Algorithm, Problem};

#[test]
fn parse_otpauth_reads_parameters_with_defaults() {
    let p = parse_otpauth(
        "otpauth://totp/ACME:alice?secret=JBSWY3DPEHPK3PXP&digits=8&period=60&algorithm=SHA256",
    )
    .unwrap();
    assert_eq!(p.digits, 8);
    assert_eq!(p.period, 60);
    assert_eq!(p.algorithm, Algorithm::Sha256);

    let d = parse_otpauth("otpauth://totp/x?secret=JBSWY3DP").unwrap();
    assert_eq!((d.digits, d.period, d.algorithm), (6, 30, Algorithm::Sha1));

    assert!(parse_otpauth("otpauth://totp/x?digits=6").is_err()); // no secret
    assert!(parse_otpauth("https://example.com").is_err());
}

#[test]
fn resolve_secret_accepts_bare_and_uri() {
    assert_eq!(resolve_secret("JBSWY3DP").unwrap().digits, 6);
    assert_eq!(
        resolve_secret("otpauth://totp/x?secret=JBSWY3DP&digits=7")
            .unwrap()
            .digits,
        7
    );
}

#[test]
fn uris_carry_their_own_parameters() {
    for (name, algorithm) in [
        ("SHA1", Algorithm::Sha1),
        ("sha256", Algorithm::Sha256),
        ("Sha512", Algorithm::Sha512),
    ] {
        let uri =
            format!("otpauth://totp/l?secret=JBSWY3DP&digits=9&period=90&algorithm={name}");
        let p = parse_otpauth(&uri).unwrap();
        assert_eq!(p.key, b"Hello");
        assert_eq!((p.digits, p.period, p.algorithm), (9, 90, algorithm));
    }
}

#[test]
fn labels_do_not_matter() {
    for label in ["", "x", "A:b@c", "a&b=c/d#e"] {
        let p = parse_otpauth(&format!("otpauth://totp/{label}?secret=MY")).unwrap();
        assert_eq!(p.key, b"f");
    }
}

#[test]
fn a_label_with_a_question_mark_begins_the_query() {
    assert_eq!(
        parse_otpauth("otpauth://totp/a?b?secret=MY").unwrap_err(),
        Problem::MissingSecret
    );
}

#[test]
fn keys_are_read_in_any_case_and_the_last_one_counts() {
    let p = parse_otpauth("otpauth://totp/x?SECRET=MY&Digits=7&secret=MZXW6&digits=8").unwrap();
    assert_eq!(p.key, b"foo");
    assert_eq!(p.digits, 8);
}

#[test]
fn empty_pieces_and_unknown_keys_are_ignored() {
    let p = parse_otpauth("otpauth://totp/x?&&issuer=A%20B&flag&secret=MY&=1&").unwrap();
    assert_eq!(p.key, b"f");
    assert_eq!((p.digits, p.period, p.algorithm), (6, 30, Algorithm::Sha1));
}

#[test]
fn values_end_at_the_ampersand_and_keep_equals_signs() {
    let p = parse_otpauth("otpauth://totp/x?secret=MY======&digits=6").unwrap();
    assert_eq!(p.key, b"f");
}

#[test]
fn bad_uris_are_refused() {
    let problem = |uri: &str| parse_otpauth(uri).unwrap_err();
    assert_eq!(
        problem("otpauth://hotp/x?secret=MY"),
        Problem::NotTotpUri("otpauth://hotp/x?secret=MY".to_string())
    );
    assert_eq!(
        problem(" otpauth://totp/x?secret=MY"),
        Problem::NotTotpUri(" otpauth://totp/x?secret=MY".to_string())
    );
    assert_eq!(problem("otpauth://totp/x"), Problem::MissingSecret);
    assert_eq!(problem("otpauth://totp/x?"), Problem::MissingSecret);
    assert_eq!(problem("otpauth://totp/x?secret"), Problem::EmptySecret);
    assert_eq!(problem("otpauth://totp/x?secret=="), Problem::EmptySecret);
    assert_eq!(
        problem("otpauth://totp/x?secret=MY&digits="),
        Problem::InvalidDigits(String::new())
    );
    assert_eq!(
        problem("otpauth://totp/x?digits=six"),
        Problem::InvalidDigits("six".to_string())
    );
    assert_eq!(
        problem("otpauth://totp/x?digits=4294967296"),
        Problem::InvalidDigits("4294967296".to_string())
    );
    assert_eq!(
        problem("otpauth://totp/x?secret=MY&digits=-6"),
        Problem::InvalidDigits("-6".to_string())
    );
    assert_eq!(
        problem("otpauth://totp/x?secret=MY&digits=4294967295"),
        Problem::DigitsOutOfRange(4294967295)
    );
    assert_eq!(
        problem("otpauth://totp/x?period=18446744073709551616"),
        Problem::InvalidPeriod("18446744073709551616".to_string())
    );
    assert_eq!(
        problem("otpauth://totp/x?period=3 0"),
        Problem::InvalidPeriod("3 0".to_string())
    );
    assert_eq!(
        problem("otpauth://totp/x?secret=MY&period=0"),
        Problem::ZeroPeriod
    );
    assert_eq!(
        problem("otpauth://totp/x?secret=MY&algorithm=md5"),
        Problem::UnsupportedAlgorithm("MD5".to_string())
    );
}

#[test]
fn the_first_problem_counts() {
    assert_eq!(
        parse_otpauth("otpauth://totp/x?period=x&digits=y").unwrap_err(),
        Problem::InvalidPeriod("x".to_string())
    );
    assert_eq!(
        parse_otpauth("otpauth://totp/x?secret=!&digits=0&period=0").unwrap_err(),
        Problem::DigitsOutOfRange(0)
    );
}

#[test]
fn numbers_are_read_with_zeros_and_a_plus_sign() {
    let p = parse_otpauth("otpauth://totp/x?secret=MY&digits=%2B008&period=0030").unwrap();
    assert_eq!((p.digits, p.period), (8, 30));
    let p = parse_otpauth("otpauth://totp/x?secret=MY&period=18446744073709551615").unwrap();
    assert_eq!(p.period, u64::MAX);
    // A plain plus sign stands for a space.
    assert_eq!(
        parse_otpauth("otpauth://totp/x?secret=MY&digits=+8").unwrap_err(),
        Problem::InvalidDigits(" 8".to_string())
    );
    assert!(parse_otpauth("otpauth://totp/x?secret=MY&digits=%2B").is_err());
}

#[test]
fn stored_values_are_trimmed() {
    assert_eq!(resolve_secret("  JBSW Y3DP \n").unwrap().key, b"Hello");
    assert_eq!(
        resolve_secret("\t otpauth://totp/x?secret=MY ").unwrap().key,
        b"f"
    );
    assert_eq!(
        resolve_secret(" otpauth://hotp/x ").unwrap_err(),
        Problem::NotTotpUri("otpauth://hotp/x".to_string())
    );
    assert_eq!(resolve_secret("").unwrap_err(), Problem::EmptySecret);
}

#[test]
fn the_prefix_is_case_sensitive() {
    assert!(matches!(
        resolve_secret("OTPAUTH://totp/x?secret=MY"),
        Err(Problem::InvalidBase32(_))
    ));
}

#[test]
fn escapes_stand_for_their_bytes() {
    assert_eq!(percent_decode("a%20b+c"), "a b c");
    assert_eq!(percent_decode("%41%4a%4A"), "AJJ");
    assert_eq!(percent_decode("%e2%82%ac"), "\u{20ac}");
    assert_eq!(percent_decode("plain-\u{e9}\u{20ac}"), "plain-\u{e9}\u{20ac}");
    assert_eq!(percent_decode(""), "");
}

#[test]
fn broken_escapes_stand_for_themselves() {
    assert_eq!(percent_decode("%"), "%");
    assert_eq!(percent_decode("100%"), "100%");
    assert_eq!(percent_decode("%4"), "%4");
    assert_eq!(percent_decode("%zz"), "%zz");
    assert_eq!(percent_decode("%%41"), "%A");
    assert_eq!(percent_decode("%4g%41"), "%4gA");
    assert_eq!(percent_decode("%\u{e9}"), "%\u{e9}");
}

#[test]
fn an_escape_holds_two_hexadecimal_digits() {
    assert_eq!(percent_decode("%+5"), "% 5");
    assert_eq!(unescape(b"%+5"), b"% 5".to_vec());
    assert_eq!(unescape(b"%5+"), b"%5 ".to_vec());
    assert_eq!(unescape(b"%++"), b"%  ".to_vec());
    assert_eq!(unescape(b"%-5"), b"%-5".to_vec());
}

#[test]
fn values_without_escapes_only_have_their_plus_signs_turned() {
    for text in ["", "+", "a+b++c", "\u{e9}+\u{20ac}", "plain", "&=?#"] {
        assert_eq!(percent_decode(text), text.replace('+', " "));
    }
}

#[test]
fn decoding_never_takes_more_bytes() {
    for text in [
        "%ff",
        "%ff%fe%fd",
        "%e2%82",
        "\u{e9}%ff\u{20ac}",
        "%c3\u{e9}%a9",
        "%e2\u{20ac}%82\u{1f511}%f0%9f%94",
        "%f0%9fx%f0%9f",
        "a+b%20c",
        "%",
        "%\u{1f511}%+5",
    ] {
        let decoded = percent_decode(text);
        assert!(decoded.len() <= text.len(), "{text:?} gave {decoded:?}");
    }
}

#[test]
fn bytes_that_are_not_utf8_are_replaced() {
    assert_eq!(percent_decode("a%ffb"), "a\u{fffd}b");
    assert_eq!(percent_decode("%c3"), "\u{fffd}");
}

#[test]
fn every_text_comes_back_from_its_escapes() {
    for text in ["", "a b", "+&=%?", "\u{e9}\u{20ac}\u{1f511}", "\n\u{0}"] {
        let escaped: String = text.bytes().map(|b| format!("%{b:02X}")).collect();
        assert_eq!(percent_decode(&escaped), text);
    }
}

#[test]
fn escaped_secrets_are_decoded() {
    let p = parse_otpauth("otpauth://totp/x?secret=%4aBSW%20Y3DP%3D").unwrap();
    assert_eq!(p.key, b"Hello");
}
