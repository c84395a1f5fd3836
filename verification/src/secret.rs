//! Shared secrets as users write them: base32 with spaces, padding and any case.
use crate::base32;
use crate::bytes;
use crate::error;
use crate::error::{Error, Problem};
use crate::text;
use vstd::prelude::*;
use vstd::utf8;

verus! {

// ---------------------------------------------------------------------------
// Specification
// ---------------------------------------------------------------------------

/// Whether `c` counts in a secret: neither white space nor padding.
pub open spec fn counts(c: char) -> bool {
    !text::is_space(c) && c != '='
}

/// The characters of `secret` that count, in upper case.
pub open spec fn cleaned(secret: Seq<char>) -> Seq<char> {
    text::uppercase(secret.filter(|c: char| counts(c)))
}

/// The key that `secret` encodes.
pub open spec fn secret_key(secret: Seq<char>) -> Result<Seq<u8>, Problem<Seq<char>>> {
    if cleaned(secret).len() == 0 {
        Err(Problem::EmptySecret)
    } else {
        match base32::base32_decoded(utf8::encode_utf8(cleaned(secret))) {
            Ok(key) => Ok(key),
            Err(e) => Err(Problem::InvalidBase32(e)),
        }
    }
}

// ---------------------------------------------------------------------------
// Operations
// ---------------------------------------------------------------------------

/// Decode a base32 (RFC 4648) secret, ignoring white space, padding and case.
/// A key that is decoded is never empty.
pub fn decode_base32(secret: &str) -> (r: Result<Vec<u8>, Error>)
    ensures
        error::outcome(r) == secret_key(secret@),
        r matches Ok(key) ==> key@.len() > 0,
        r matches Ok(key) ==> cleaned(secret@) == secret_for(key@),
        r matches Ok(key) ==> base32::base32_decoded(utf8::encode_utf8(cleaned(secret@))) == Ok::<
            Seq<u8>,
            base32::Base32Error,
        >(key@),
{
    let all = text::chars_of(secret);
    let mut kept: Vec<char> = Vec::new();
    let mut i: usize = 0;
    while i < all.len()
        invariant
            i <= all.len(),
            kept@ == cleaned(all@.take(i as int)),
        decreases all.len() - i,
    {
        let c = all[i];
        proof {
            lemma_cleaned_push(all@.take(i as int), c);
            assert(all@.take(i as int).push(c) == all@.take(i + 1));
        }
        if !text::space(c) && c != '=' {
            kept.push(text::to_upper(c));
        }
        i += 1;
    }
    assert(all@.take(all@.len() as int) == all@);
    if kept.len() == 0 {
        return Err(Problem::EmptySecret);
    }
    let upper = text::string_of(kept.as_slice());
    let r = base32::decode(upper.as_str().as_bytes());
    proof {
        law_key_nonempty(secret@);
    }
    match r {
        Ok(key) => {
            proof {
                law_key_of_secret(secret@, key@);
            }
            Ok(key)
        },
        Err(e) => Err(Problem::InvalidBase32(e)),
    }
}

// ---------------------------------------------------------------------------
// Laws
// ---------------------------------------------------------------------------

/// Cleaning goes character by character.
proof fn lemma_cleaned_push(s: Seq<char>, c: char)
    ensures
        cleaned(s.push(c)) == if counts(c) {
            cleaned(s).push(text::upper(c))
        } else {
            cleaned(s)
        },
{
    let p = |c: char| counts(c);
    assert(s.push(c).drop_last() == s);
    reveal(Seq::filter);
    assert(s.push(c).filter(p) == if p(c) {
        s.filter(p).push(c)
    } else {
        s.filter(p)
    });
    assert(text::uppercase(s.filter(p).push(c)) == text::uppercase(s.filter(p)).push(text::upper(c)));
}

proof fn lemma_cleaned_joins(a: Seq<char>, b: Seq<char>)
    ensures
        cleaned(a + b) == cleaned(a) + cleaned(b),
    decreases b.len(),
{
    if b.len() == 0 {
        assert(a + b == a);
        assert(b == Seq::<char>::empty());
        reveal(Seq::filter);
        assert(cleaned(b) == Seq::<char>::empty());
        assert(cleaned(a) + cleaned(b) == cleaned(a));
    } else {
        let (c, x) = (b.drop_last(), b.last());
        lemma_cleaned_joins(a, c);
        assert(a + b == (a + c).push(x));
        assert(b == c.push(x));
        lemma_cleaned_push(a + c, x);
        lemma_cleaned_push(c, x);
        assert(cleaned(a + b) == cleaned(a) + cleaned(b));
    }
}

/// The text of at least one character takes at least one byte.
proof fn lemma_encoded_nonempty(s: Seq<char>)
    requires
        s.len() > 0,
    ensures
        utf8::encode_utf8(s).len() > 0,
{
    utf8::encode_utf8_first_scalar(s);
}

/// No secret decodes to an empty key.
pub proof fn law_key_nonempty(secret: Seq<char>)
    ensures
        secret_key(secret) matches Ok(key) ==> key.len() > 0,
{
    if cleaned(secret).len() > 0 {
        lemma_encoded_nonempty(cleaned(secret));
        let s = utf8::encode_utf8(cleaned(secret));
        if base32::base32_decoded(s) is Ok {
            assert(s.len() != 1);
            let k = base32::spare_bits(s.len());
            bytes::lemma_big_endian_len(
                bytes::high_bits(base32::symbols_value(s), k),
                5 * s.len() / 8,
            );
        }
    }
}

/// White space and padding may stand anywhere in a secret: without them it has
/// the same key, or the same fault.
pub proof fn law_space_and_padding_ignored(before: Seq<char>, c: char, after: Seq<char>)
    requires
        text::is_space(c) || c == '=',
    ensures
        secret_key(before.push(c) + after) == secret_key(before + after),
{
    lemma_cleaned_joins(before.push(c), after);
    lemma_cleaned_joins(before, after);
    lemma_cleaned_push(before, c);
}

/// White space around a secret does not matter.
pub proof fn law_trimmed_secret(secret: Seq<char>)
    ensures
        secret_key(text::trimmed(secret)) == secret_key(secret),
{
    lemma_cleaned_trimmed_start(secret);
    lemma_cleaned_trimmed_end(text::trimmed_start(secret));
}

proof fn lemma_cleaned_trimmed_start(s: Seq<char>)
    ensures
        cleaned(text::trimmed_start(s)) == cleaned(s),
    decreases s.len(),
{
    if s.len() > 0 && text::is_space(s[0]) {
        let (first, rest) = (Seq::<char>::empty().push(s[0]), s.drop_first());
        lemma_cleaned_trimmed_start(rest);
        lemma_cleaned_push(Seq::<char>::empty(), s[0]);
        lemma_cleaned_joins(first, rest);
        lemma_cleaned_joins(Seq::<char>::empty(), rest);
        assert(first + rest == s);
        assert(Seq::<char>::empty() + rest == rest);
    }
}

proof fn lemma_cleaned_trimmed_end(s: Seq<char>)
    ensures
        cleaned(text::trimmed_end(s)) == cleaned(s),
    decreases s.len(),
{
    if s.len() > 0 && text::is_space(s.last()) {
        lemma_cleaned_trimmed_end(s.drop_last());
        lemma_cleaned_push(s.drop_last(), s.last());
        assert(s.drop_last().push(s.last()) == s);
    }
}

/// The case of a letter in a secret does not matter.
pub proof fn law_case_ignored(before: Seq<char>, c: char, after: Seq<char>)
    ensures
        secret_key(before.push(text::lower(c)) + after) == secret_key(before.push(c) + after),
        secret_key(before.push(text::upper(c)) + after) == secret_key(before.push(c) + after),
{
    lemma_cleaned_joins(before.push(c), after);
    lemma_cleaned_joins(before.push(text::lower(c)), after);
    lemma_cleaned_joins(before.push(text::upper(c)), after);
    lemma_cleaned_push(before, c);
    lemma_cleaned_push(before, text::lower(c));
    lemma_cleaned_push(before, text::upper(c));
    assert(text::upper(text::lower(c)) == text::upper(c));
    assert(text::upper(text::upper(c)) == text::upper(c));
}

/// The secret that writes `key` in base32.
pub open spec fn secret_for(key: Seq<u8>) -> Seq<char> {
    base32::base32_encoded(key).map_values(|b: u8| b as char)
}

/// Every key that is not empty has a secret that decodes to it.
pub proof fn law_every_key_has_a_secret(key: Seq<u8>)
    requires
        key.len() > 0,
    ensures
        secret_key(secret_for(key)) == Ok::<Seq<u8>, Problem<Seq<char>>>(key),
{
    let b = base32::base32_encoded(key);
    let s = secret_for(key);
    base32::law_decoded_encoded(key);
    base32::lemma_encoded_symbols(key);
    lemma_cleaned_already(s);
    assert(utf8::is_ascii_chars(s));
    utf8::is_ascii_chars_encode_utf8(s);
    assert(utf8::encode_utf8(s) =~= b);
}

/// Upper-case letters and digits are clean.
proof fn lemma_cleaned_already(s: Seq<char>)
    requires
        forall|i: int|
            0 <= i < s.len() ==> counts(#[trigger] s[i]) && text::upper(s[i]) == s[i],
    ensures
        cleaned(s) == s,
    decreases s.len(),
{
    if s.len() == 0 {
        reveal(Seq::filter);
        assert(cleaned(s) == s);
    } else {
        let t = s.drop_last();
        assert forall|i: int| 0 <= i < t.len() implies counts(#[trigger] t[i]) && text::upper(t[i])
            == t[i] by {
            assert(t[i] == s[i]);
        }
        lemma_cleaned_already(t);
        assert(s == t.push(s.last()));
        lemma_cleaned_push(t, s.last());
        assert(s[s.len() - 1] == s.last());
    }
}

/// What counts in a secret: every character in its order, in upper case, but
/// for white space and padding.
pub proof fn law_cleaned(s: Seq<char>, c: char)
    ensures
        cleaned(Seq::<char>::empty()) == Seq::<char>::empty(),
        cleaned(s.push(c)) == if c == '=' || text::is_space(c) {
            cleaned(s)
        } else {
            cleaned(s).push(text::upper(c))
        },
{
    reveal(Seq::filter);
    assert(cleaned(Seq::<char>::empty()) == Seq::<char>::empty());
    lemma_cleaned_push(s, c);
}

/// A secret has a key if and only if what counts in it is the base32 text of
/// that key.
pub proof fn law_key_of_secret(secret: Seq<char>, key: Seq<u8>)
    ensures
        secret_key(secret) == Ok::<Seq<u8>, Problem<Seq<char>>>(key) <==> key.len() > 0 && cleaned(
            secret,
        ) == secret_for(key),
        secret_key(secret) == Ok::<Seq<u8>, Problem<Seq<char>>>(key) <==> cleaned(secret).len() > 0
            && base32::base32_decoded(utf8::encode_utf8(cleaned(secret))) == Ok::<
            Seq<u8>,
            base32::Base32Error,
        >(key),
{
    let c = cleaned(secret);
    let b = utf8::encode_utf8(c);
    if secret_key(secret) == Ok::<Seq<u8>, Problem<Seq<char>>>(key) {
        law_key_nonempty(secret);
        base32::law_encoded_decoded(b);
        base32::lemma_encoded_symbols(key);
        let s = secret_for(key);
        assert(utf8::is_ascii_chars(s));
        utf8::is_ascii_chars_encode_utf8(s);
        assert(utf8::encode_utf8(s) =~= b);
        utf8::encode_utf8_decode_utf8(s);
        utf8::encode_utf8_decode_utf8(c);
    } else if key.len() > 0 && c == secret_for(key) {
        law_every_key_has_a_secret(key);
        lemma_secret_for_clean(key);
    }
}

/// The secret that writes a key is clean.
proof fn lemma_secret_for_clean(key: Seq<u8>)
    ensures
        cleaned(secret_for(key)) == secret_for(key),
{
    base32::lemma_encoded_symbols(key);
    lemma_cleaned_already(secret_for(key));
}

/// A secret without a key is refused: as empty if nothing counts in it, else
/// with the fault of its base32 text.
pub proof fn law_refused_secret(secret: Seq<char>)
    ensures
        secret_key(secret) == Err::<Seq<u8>, Problem<Seq<char>>>(Problem::EmptySecret)
            <==> cleaned(secret).len() == 0,
        cleaned(secret).len() > 0 && secret_key(secret) is Err ==> {
            &&& base32::base32_decoded(utf8::encode_utf8(cleaned(secret))) is Err
            &&& secret_key(secret) == Err::<Seq<u8>, Problem<Seq<char>>>(
                Problem::InvalidBase32(
                    base32::base32_decoded(utf8::encode_utf8(cleaned(secret)))->Err_0,
                ),
            )
        },
{
}

} // verus!
