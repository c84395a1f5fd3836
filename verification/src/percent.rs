//! Percent-decoding of query values.
use vstd::prelude::*;
use vstd::utf8;

verus! {

// ---------------------------------------------------------------------------
// Specification
// ---------------------------------------------------------------------------

/// The value of the hexadecimal digit `b`, in either case.
pub open spec fn hex_digit(b: u8) -> Option<u8> {
    if 48 <= b <= 57 {
        Some((b - 48) as u8)
    } else if 65 <= b <= 70 {
        Some((b - 55) as u8)
    } else if 97 <= b <= 102 {
        Some((b - 87) as u8)
    } else {
        None
    }
}

/// The byte that `a` and `b` write after a percent sign, if both are
/// hexadecimal digits.
pub open spec fn hex_byte(a: u8, b: u8) -> Option<u8> {
    match (hex_digit(a), hex_digit(b)) {
        (Some(high), Some(low)) => Some((16 * high + low) as u8),
        _ => None,
    }
}

/// The bytes that the query value `s` stands for: an escape stands for its
/// byte, a plus sign for a space, every other byte for itself.
pub open spec fn unescaped(s: Seq<u8>) -> Seq<u8>
    decreases s.len(),
{
    if s.len() == 0 {
        seq![]
    } else if s[0] == 37 && s.len() >= 3 && hex_byte(s[1], s[2]) is Some {
        seq![hex_byte(s[1], s[2])->0] + unescaped(s.skip(3))
    } else if s[0] == 43 {
        seq![32u8] + unescaped(s.skip(1))
    } else {
        seq![s[0]] + unescaped(s.skip(1))
    }
}

/// The text that `String::from_utf8_lossy` puts in place of bytes that are not
/// UTF-8.
pub uninterp spec fn repaired(bytes: Seq<u8>) -> Seq<char>;

/// The text of `bytes`: decoded where they are UTF-8, else repaired.
pub open spec fn lossy_text(bytes: Seq<u8>) -> Seq<char> {
    if utf8::valid_utf8(bytes) {
        utf8::decode_utf8(bytes)
    } else {
        repaired(bytes)
    }
}

/// Whether the byte of `bytes` at `i` stands in a part of them that is UTF-8.
pub open spec fn in_place(bytes: Seq<u8>, i: int) -> bool {
    exists|from: int, to: int|
        0 <= from <= i < to <= bytes.len() && utf8::valid_utf8(#[trigger] bytes.subrange(from, to))
}

/// How many bytes of text `bytes` can stand for from `i` on: one for each byte
/// in its place, three (a replacement character) for each other byte.
pub open spec fn room(bytes: Seq<u8>, i: int) -> int
    decreases bytes.len() - i,
{
    if i >= bytes.len() {
        0
    } else if in_place(bytes, i) {
        1 + room(bytes, i + 1)
    } else {
        3 + room(bytes, i + 1)
    }
}

/// The text that the query value `s` stands for.
pub open spec fn percent_decoded(s: Seq<char>) -> Seq<char> {
    lossy_text(unescaped(utf8::encode_utf8(s)))
}

// ---------------------------------------------------------------------------
// Operations
// ---------------------------------------------------------------------------

/// `String::from_utf8_lossy`: UTF-8 is decoded as it is.  Of other bytes the
/// result is a function of the bytes, in which invalid sequences are replaced
/// by U+FFFD: a byte in a part that is UTF-8 is kept, and no other byte gives
/// more than one replacement, which takes three bytes.  How many bytes one
/// replacement stands for is not stated.
#[verifier::external_body]
fn from_utf8_lossy(bytes: &[u8]) -> (r: String)
    ensures
        utf8::valid_utf8(bytes@) ==> r@ == utf8::decode_utf8(bytes@),
        !utf8::valid_utf8(bytes@) ==> r@ == repaired(bytes@),
        utf8::encode_utf8(r@).len() <= room(bytes@, 0),
{
    String::from_utf8_lossy(bytes).into_owned()
}

/// The value of the hexadecimal digit `b`.
fn hex_value(b: u8) -> (r: Option<u8>)
    ensures
        r == hex_digit(b),
{
    if 48 <= b && b <= 57 {
        Some(b - 48)
    } else if 65 <= b && b <= 70 {
        Some(b - 55)
    } else if 97 <= b && b <= 102 {
        Some(b - 87)
    } else {
        None
    }
}

/// The byte that `a` and `b` write after a percent sign.
fn hex_pair(a: u8, b: u8) -> (r: Option<u8>)
    ensures
        r == hex_byte(a, b),
{
    match (hex_value(a), hex_value(b)) {
        (Some(high), Some(low)) => Some(16 * high + low),
        _ => None,
    }
}

/// The bytes that the query value `s` stands for.
pub fn unescape(s: &[u8]) -> (r: Vec<u8>)
    ensures
        r@ == unescaped(s@),
{
    let mut r: Vec<u8> = Vec::new();
    let mut i: usize = 0;
    assert(s@.skip(0) == s@);
    assert(r@ + unescaped(s@.skip(0)) == unescaped(s@));
    while i < s.len()
        invariant
            i <= s.len(),
            r@ + unescaped(s@.skip(i as int)) == unescaped(s@),
        decreases s.len() - i,
    {
        let ghost rest = s@.skip(i as int);
        let ghost before = r@;
        let b: u8 = s[i];
        assert(rest[0] == b);
        let escape: Option<u8> = if b == 37 && s.len() - i >= 3 {
            assert(rest[1] == s@[i + 1] && rest[2] == s@[i + 2]);
            hex_pair(s[i + 1], s[i + 2])
        } else {
            None
        };
        match escape {
            Some(byte) => {
                r.push(byte);
                i += 3;
                assert(rest.skip(3) == s@.skip(i as int));
                assert(r@ + unescaped(s@.skip(i as int)) == before + unescaped(rest));
            },
            None => {
                r.push(
                    if b == 43 {
                        32
                    } else {
                        b
                    },
                );
                i += 1;
                assert(rest.skip(1) == s@.skip(i as int));
                assert(r@ + unescaped(s@.skip(i as int)) == before + unescaped(rest));
            },
        }
    }
    assert(r@ + unescaped(s@.skip(i as int)) == r@);
    r
}

/// Minimal percent-decoding for otpauth query values (`%XX` and `+`).  The
/// result takes no more bytes than the input.
pub fn percent_decode(input: &str) -> (r: String)
    ensures
        r@ == percent_decoded(input@),
        utf8::encode_utf8(r@).len() <= utf8::encode_utf8(input@).len(),
{
    let bytes = unescape(input.as_bytes());
    proof {
        assert(bytes@.skip(0) == bytes@);
        lemma_room(bytes@, 0, input@);
    }
    from_utf8_lossy(bytes.as_slice())
}

// ---------------------------------------------------------------------------
// Laws
// ---------------------------------------------------------------------------

/// A byte below 128 in the encoding of a character is the character.
proof fn lemma_scalar_bytes(c: char)
    ensures
        ({
            let b = utf8::encode_scalar(c as u32);
            &&& b.len() > 0
            &&& b == utf8::encode_utf8(seq![c])
            &&& utf8::valid_utf8(b)
            &&& c as u32 <= 0x7f ==> b.len() == 1 && b[0] == c as u32
            &&& forall|i: int|
                0 <= i < b.len() && #[trigger] b[i] < 128 ==> b == seq![b[i]] && b[i] == c as u32
        }),
{
    let u = c as u32;
    let b = utf8::encode_scalar(u);
    utf8::char_is_scalar(c);
    assert(u <= 0x7f ==> (u & 0x7f) as u8 == u) by (bit_vector);
    assert(0xC0 | ((u >> 6) & 0x1F) as u8 >= 128) by (bit_vector);
    assert(0xE0 | ((u >> 12) & 0x0F) as u8 >= 128) by (bit_vector);
    assert(0xF0 | ((u >> 18) & 0x7) as u8 >= 128) by (bit_vector);
    assert(0x80 | (u & 0x3F) as u8 >= 128) by (bit_vector);
    assert(0x80 | ((u >> 6) & 0x3F) as u8 >= 128) by (bit_vector);
    assert(0x80 | ((u >> 12) & 0x3F) as u8 >= 128) by (bit_vector);
    assert forall|i: int| 0 <= i < b.len() && #[trigger] b[i] < 128 implies b == seq![b[i]] && b[i]
        == u by {
        assert(b.len() == 1);
    }
    assert(seq![c].drop_first() == Seq::<char>::empty());
    assert(utf8::encode_utf8(Seq::<char>::empty()) == Seq::<u8>::empty());
    assert(b + Seq::<u8>::empty() == b);
    assert(utf8::encode_utf8(seq![c]) == b);
    utf8::encode_utf8_valid_utf8(seq![c]);
}

/// A byte below 128 at the start of a text is its first character.
proof fn lemma_ascii_head(s: Seq<char>)
    requires
        utf8::encode_utf8(s).len() > 0,
        utf8::encode_utf8(s)[0] < 128,
    ensures
        s.len() > 0,
        s[0] as u32 == utf8::encode_utf8(s)[0],
        utf8::encode_utf8(s) == seq![utf8::encode_utf8(s)[0]] + utf8::encode_utf8(s.drop_first()),
{
    lemma_scalar_bytes(s[0]);
    let first = utf8::encode_scalar(s[0] as u32);
    assert(utf8::encode_utf8(s)[0] == first[0]);
}

/// Bytes with neither a percent sign nor a plus sign stand for themselves.
proof fn lemma_unescaped_plain(a: Seq<u8>, b: Seq<u8>)
    requires
        forall|i: int| 0 <= i < a.len() ==> #[trigger] a[i] != 37 && a[i] != 43,
    ensures
        unescaped(a + b) == a + unescaped(b),
    decreases a.len(),
{
    if a.len() == 0 {
        assert(a + b == b);
        assert(a + unescaped(b) == unescaped(b));
    } else {
        let rest = a.skip(1);
        assert forall|i: int| 0 <= i < rest.len() implies #[trigger] rest[i] != 37 && rest[i]
            != 43 by {
            assert(rest[i] == a[i + 1]);
        }
        lemma_unescaped_plain(rest, b);
        assert((a + b).skip(1) == rest + b);
        assert((a + b)[0] == a[0]);
        assert(a[0] != 37);
        assert(unescaped(a + b) == seq![a[0]] + unescaped(rest + b));
        assert(seq![a[0]] + (rest + unescaped(b)) == a + unescaped(b));
    }
}

/// The bytes that the first character of `s` stands for, if it begins no escape.
proof fn lemma_unescaped_first(s: Seq<char>)
    requires
        s.len() > 0,
        ({
            let b = utf8::encode_utf8(s);
            !(b[0] == 37 && b.len() >= 3 && hex_byte(b[1], b[2]) is Some)
        }),
    ensures
        unescaped(utf8::encode_utf8(s)) == utf8::encode_scalar(spaced(s[0]) as u32) + unescaped(
            utf8::encode_utf8(s.drop_first()),
        ),
{
    let c = s[0];
    let first = utf8::encode_scalar(c as u32);
    let rest = utf8::encode_utf8(s.drop_first());
    let b = utf8::encode_utf8(s);
    lemma_scalar_bytes(c);
    lemma_scalar_bytes(' ');
    if c == '+' || c == '%' {
        assert(b[0] == first[0]);
        assert(b.skip(1) == rest);
        assert(utf8::encode_scalar(' ' as u32) == seq![32u8]);
        assert(first == seq![b[0]]);
    } else {
        assert forall|i: int| 0 <= i < first.len() implies #[trigger] first[i] != 37 && first[i]
            != 43 by {
            if first[i] < 128 {
                utf8::char_u32_cast(c, first[i] as u32);
            }
        }
        lemma_unescaped_plain(first, rest);
    }
}

/// `c`, or a space for a plus sign.
pub open spec fn spaced(c: char) -> char {
    if c == '+' {
        ' '
    } else {
        c
    }
}

/// A query value without a percent sign stands for itself, with a space for
/// each plus sign.
pub proof fn law_without_percent(s: Seq<char>)
    requires
        !s.contains('%'),
    ensures
        percent_decoded(s) == s.map_values(|c: char| spaced(c)),
{
    let t = s.map_values(|c: char| spaced(c));
    lemma_unescaped_spaced(s);
    utf8::encode_utf8_valid_utf8(t);
    utf8::encode_utf8_decode_utf8(t);
}

proof fn lemma_unescaped_spaced(s: Seq<char>)
    requires
        !s.contains('%'),
    ensures
        unescaped(utf8::encode_utf8(s)) == utf8::encode_utf8(s.map_values(|c: char| spaced(c))),
    decreases s.len(),
{
    let t = s.map_values(|c: char| spaced(c));
    if s.len() > 0 {
        let rest = s.drop_first();
        let b = utf8::encode_utf8(s);
        assert(s.contains(s[0]));
        assert(!rest.contains('%')) by {
            if rest.contains('%') {
                let i = rest.index_of('%');
                assert(s[i + 1] == rest[i]);
                assert(s.contains(s[i + 1]));
            }
        }
        lemma_scalar_bytes(s[0]);
        if b[0] == 37 {
            lemma_ascii_head(s);
            utf8::char_u32_cast(s[0], 37);
        }
        lemma_unescaped_first(s);
        lemma_unescaped_spaced(rest);
        assert(t.drop_first() == rest.map_values(|c: char| spaced(c)));
    } else {
        assert(t == Seq::<char>::empty());
        assert(s == Seq::<char>::empty());
    }
}

/// A query value with neither a percent sign nor a plus sign stands for itself.
pub proof fn law_plain_value(s: Seq<char>)
    requires
        forall|i: int| 0 <= i < s.len() ==> #[trigger] s[i] != '%' && s[i] != '+',
    ensures
        percent_decoded(s) == s,
{
    law_without_percent(s);
    assert(s.map_values(|c: char| spaced(c)) == s);
}

/// Bytes that are UTF-8 together take their own number of bytes of text.
proof fn lemma_room_kept(bytes: Seq<u8>, from: int, i: int, to: int)
    requires
        0 <= from <= i <= to <= bytes.len(),
        utf8::valid_utf8(bytes.subrange(from, to)),
    ensures
        room(bytes, i) == to - i + room(bytes, to),
    decreases to - i,
{
    if i < to {
        assert(in_place(bytes, i));
        lemma_room_kept(bytes, from, i + 1, to);
    }
}

/// From `i` on, `bytes` take no more room than the query value that they come
/// from: an escape takes three bytes, and the rest is UTF-8 as it stands.
proof fn lemma_room(bytes: Seq<u8>, i: int, s: Seq<char>)
    requires
        0 <= i <= bytes.len(),
        bytes.skip(i) == unescaped(utf8::encode_utf8(s)),
    ensures
        room(bytes, i) <= utf8::encode_utf8(s).len(),
    decreases s.len(),
{
    let b = utf8::encode_utf8(s);
    if s.len() == 0 {
        assert(bytes.skip(i).len() == 0);
    } else if b[0] == 37 && b.len() >= 3 && hex_byte(b[1], b[2]) is Some {
        let (s1, s2) = (s.drop_first(), s.drop_first().drop_first());
        let s3 = s2.drop_first();
        lemma_ascii_head(s);
        assert(utf8::encode_utf8(s1)[0] == b[1]);
        lemma_ascii_head(s1);
        assert(utf8::encode_utf8(s2)[0] == b[2]);
        lemma_ascii_head(s2);
        assert(b.skip(3) == utf8::encode_utf8(s3));
        let rest = unescaped(utf8::encode_utf8(s3));
        assert(bytes.skip(i) == seq![hex_byte(b[1], b[2])->0] + rest);
        assert(bytes.skip(i).skip(1) == rest);
        assert(bytes.skip(i + 1) == bytes.skip(i).skip(1));
        lemma_room(bytes, i + 1, s3);
    } else {
        let first = utf8::encode_scalar(spaced(s[0]) as u32);
        let n = first.len() as int;
        let rest = unescaped(utf8::encode_utf8(s.drop_first()));
        lemma_unescaped_first(s);
        lemma_scalar_bytes(s[0]);
        lemma_scalar_bytes(spaced(s[0]));
        assert(bytes.skip(i) == first + rest);
        assert(bytes.skip(i).skip(n) == rest);
        assert(bytes.skip(i + n) == bytes.skip(i).skip(n));
        assert(bytes.skip(i).take(n) == first);
        assert(bytes.subrange(i, i + n) == bytes.skip(i).take(n));
        lemma_room_kept(bytes, i, i, i + n);
        lemma_room(bytes, i + n, s.drop_first());
        assert(n <= utf8::encode_scalar(s[0] as u32).len());
    }
}

/// The upper-case hexadecimal digit for `v`.
pub open spec fn hex_char(v: u8) -> char {
    if v < 10 {
        (48 + v) as char
    } else {
        (55 + v) as char
    }
}

/// Every byte of `bytes` written as an escape.
pub open spec fn escaped(bytes: Seq<u8>) -> Seq<char>
    decreases bytes.len(),
{
    if bytes.len() == 0 {
        seq![]
    } else {
        seq!['%', hex_char(bytes[0] / 16), hex_char(bytes[0] % 16)] + escaped(bytes.skip(1))
    }
}

proof fn lemma_escaped_ascii(bytes: Seq<u8>)
    ensures
        utf8::is_ascii_chars(escaped(bytes)),
    decreases bytes.len(),
{
    if bytes.len() > 0 {
        lemma_escaped_ascii(bytes.skip(1));
        assert(hex_char(bytes[0] / 16) <= '\u{7f}');
        assert(hex_char(bytes[0] % 16) <= '\u{7f}');
    }
}

proof fn lemma_unescaped_escaped(bytes: Seq<u8>)
    ensures
        unescaped(utf8::encode_utf8(escaped(bytes))) == bytes,
    decreases bytes.len(),
{
    let t = escaped(bytes);
    let u = utf8::encode_utf8(t);
    lemma_escaped_ascii(bytes);
    utf8::is_ascii_chars_encode_utf8(t);
    if bytes.len() > 0 {
        let b = bytes[0];
        let rest = bytes.skip(1);
        lemma_unescaped_escaped(rest);
        lemma_escaped_ascii(rest);
        utf8::is_ascii_chars_encode_utf8(escaped(rest));
        assert(t[0] == '%' && t[1] == hex_char(b / 16) && t[2] == hex_char(b % 16));
        assert(u[0] == 37);
        assert(u[1] == hex_char(b / 16) as u8);
        assert(u[2] == hex_char(b % 16) as u8);
        assert(hex_byte(u[1], u[2]) == Some(b));
        assert(u.skip(3) =~= utf8::encode_utf8(escaped(rest))) by {
            assert forall|i: int| 0 <= i < u.skip(3).len() implies u.skip(3)[i]
                == utf8::encode_utf8(escaped(rest))[i] by {
                assert(t[i + 3] == escaped(rest)[i]);
                assert(u[i + 3] == t[i + 3] as u8);
            }
        }
        assert(seq![b] + rest == bytes);
    } else {
        assert(bytes == Seq::<u8>::empty());
    }
}

/// Decoding undoes escaping: any text comes back from its escaped bytes.
pub proof fn law_escape_round_trip(s: Seq<char>)
    ensures
        percent_decoded(escaped(utf8::encode_utf8(s))) == s,
{
    lemma_unescaped_escaped(utf8::encode_utf8(s));
    utf8::encode_utf8_valid_utf8(s);
    utf8::encode_utf8_decode_utf8(s);
}

/// The hexadecimal digits, in either case, have their places as their values.
pub proof fn law_hex_digits(b: u8, v: int)
    ensures
        ({
            let (upper, lower) = ("0123456789ABCDEF"@, "0123456789abcdef"@);
            &&& hex_digit(b) matches Some(d) ==> d < 16 && (upper[d as int] as int == b
                || lower[d as int] as int == b)
            &&& 0 <= v < 16 ==> hex_digit(upper[v] as u8) == Some(v as u8) && hex_digit(
                lower[v] as u8,
            ) == Some(v as u8)
        }),
{
    reveal_strlit("0123456789ABCDEF");
    reveal_strlit("0123456789abcdef");
}

/// A percent sign and two hexadecimal digits stand for one byte; a percent sign
/// without them stands for itself, a plus sign for a space, and every other byte
/// for itself.  What follows is read on its own.
pub proof fn law_unescaped_parts(b: u8, rest: Seq<u8>)
    ensures
        unescaped(Seq::<u8>::empty()) == Seq::<u8>::empty(),
        rest.len() >= 2 ==> match (hex_digit(rest[0]), hex_digit(rest[1])) {
            (Some(high), Some(low)) => unescaped(seq![37u8] + rest) == seq![(16 * high + low) as u8]
                + unescaped(rest.skip(2)),
            _ => unescaped(seq![37u8] + rest) == seq![37u8] + unescaped(rest),
        },
        rest.len() < 2 ==> unescaped(seq![37u8] + rest) == seq![37u8] + unescaped(rest),
        b != 37 ==> unescaped(seq![b] + rest) == seq![
            if b == 43 {
                32u8
            } else {
                b
            },
        ] + unescaped(rest),
{
    let e = seq![37u8] + rest;
    let s = seq![b] + rest;
    assert(s.skip(1) == rest);
    assert(e.skip(1) == rest);
    if rest.len() >= 2 {
        assert(e[1] == rest[0] && e[2] == rest[1]);
        assert(e.skip(3) == rest.skip(2));
    }
}

/// A query value stands for the text whose UTF-8 form its bytes are; bytes that
/// are no UTF-8 are repaired.
pub proof fn law_decoded_text(s: Seq<char>, t: Seq<char>)
    ensures
        unescaped(utf8::encode_utf8(s)) == utf8::encode_utf8(t) ==> percent_decoded(s) == t,
        !utf8::valid_utf8(unescaped(utf8::encode_utf8(s))) ==> percent_decoded(s) == repaired(
            unescaped(utf8::encode_utf8(s)),
        ),
        utf8::valid_utf8(unescaped(utf8::encode_utf8(s))) ==> utf8::encode_utf8(percent_decoded(s))
            == unescaped(utf8::encode_utf8(s)),
{
    let b = unescaped(utf8::encode_utf8(s));
    utf8::encode_utf8_valid_utf8(t);
    utf8::encode_utf8_decode_utf8(t);
    if utf8::valid_utf8(b) {
        utf8::decode_utf8_encode_utf8(b);
    }
}

} // verus!
