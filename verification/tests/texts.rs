//! Characters, lines and numbers.
use otp::decimal::{power_of_ten, read_number, write_number, write_padded};
use otp::text::{
    chars_of, find, lines, space, spells, split, split_once, starts_with, string_of, to_lower,
    to_lowercase, to_upper, to_uppercase, trim,
};

fn strings(parts: Vec<&[char]>) -> Vec<String> {
    parts.into_iter().map(string_of).collect()
}

#[test]
fn white_space_and_case_are_those_of_std() {
    for n in 0..=0x10ffffu32 {
        if let Some(c) = char::from_u32(n) {
            assert_eq!(space(c), c.is_whitespace(), "{n:x}");
            assert_eq!(to_upper(c), c.to_ascii_uppercase(), "{n:x}");
            assert_eq!(to_lower(c), c.to_ascii_lowercase(), "{n:x}");
        }
    }
}

#[test]
fn texts_are_handled_as_by_std() {
    for s in [
        "",
        " ",
        "\n",
        "a",
        " a b ",
        "\u{3000}x\u{a0}",
        "a\nb",
        "a\r\nb\r\n",
        "\r\n\n\r",
        "a\n\nb\n",
        "a:b:c",
        ":",
        "aB\u{e9}\u{c9}z",
    ] {
        let c = chars_of(s);
        assert_eq!(string_of(&c), s);
        assert_eq!(string_of(trim(&c)), s.trim());
        assert_eq!(strings(lines(&c)), s.lines().collect::<Vec<_>>());
        assert_eq!(
            strings(split(&c, ':')),
            s.split(':').collect::<Vec<_>>()
        );
        assert_eq!(
            split_once(&c, ':').map(|(a, b)| (string_of(a), string_of(b))),
            s.split_once(':')
                .map(|(a, b)| (a.to_string(), b.to_string()))
        );
        assert_eq!(string_of(&to_uppercase(&c)), s.to_ascii_uppercase());
        assert_eq!(string_of(&to_lowercase(&c)), s.to_ascii_lowercase());
        assert_eq!(
            find(&c, 'b'),
            s.chars().position(|x| x == 'b').unwrap_or(c.len())
        );
        for t in ["", "a", " ", "a:b:c", "a:b:c:"] {
            assert_eq!(spells(&c, t), s == t);
            assert_eq!(starts_with(&c, t), s.starts_with(t));
        }
        assert_eq!(trim(&c), trim(trim(&c)));
    }
}

#[test]
fn numbers_are_read_as_by_std() {
    for s in [
        "", "0", "7", "007", "+7", "+", "++7", "-7", "-0", " 7", "7 ", "1a", "\u{661}", "255",
        "256", "4294967295", "4294967296", "18446744073709551615", "18446744073709551616",
        "99999999999999999999999",
    ] {
        let c = chars_of(s);
        assert_eq!(read_number(&c, u64::MAX), s.parse::<u64>().ok(), "{s}");
        assert_eq!(
            read_number(&c, u32::MAX as u64),
            s.parse::<u32>().ok().map(u64::from),
            "{s}"
        );
        assert_eq!(
            read_number(&c, 255),
            s.parse::<u8>().ok().map(u64::from),
            "{s}"
        );
    }
}

#[test]
fn numbers_are_written_as_by_std() {
    for n in [0, 1, 9, 10, 99, 100, 12345, u64::MAX] {
        let numeral = string_of(&write_number(n));
        assert_eq!(numeral, format!("{n}"));
        assert_eq!(read_number(&chars_of(&numeral), u64::MAX), Some(n));
        for width in [0, 1, 3, 8, 25] {
            let padded = string_of(&write_padded(n, width));
            assert_eq!(padded, format!("{n:0width$}"));
            assert_eq!(read_number(&chars_of(&padded), u64::MAX), Some(n));
        }
    }
}

#[test]
fn powers_of_ten_are_exact() {
    for n in 0..=9u32 {
        assert_eq!(power_of_ten(n), 10u32.pow(n));
    }
}
