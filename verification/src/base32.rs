//! Base32 (RFC 4648) without padding.
//!
//! A text of `n` symbols is a number of `5 * n` bits.  It decodes to that
//! number's leading bytes; the bits that are left over, fewer than five, must
//! be zero.
use crate::bytes;
use vstd::prelude::*;
use vstd::slice::slice_subrange;

verus! {

/// What is wrong with a text that is not base32.
#[derive(Debug, Clone, Copy, PartialEq, Eq, Structural)]
pub enum Base32Fault {
    /// No byte string encodes to a text of this length.
    Length,
    /// A byte outside the alphabet.
    Symbol,
    /// The bits after the last whole byte are not all zero.
    Trailing,
    /// Wrong padding; an alphabet without padding never gives this.
    Padding,
}

/// A fault and the place where it was found.
#[derive(Debug, Clone, Copy, PartialEq, Eq, Structural)]
pub struct Base32Error {
    pub position: usize,
    pub kind: Base32Fault,
}

// ---------------------------------------------------------------------------
// Specification
// ---------------------------------------------------------------------------

/// Whether `b` is in the alphabet `A`-`Z`, `2`-`7`.
pub open spec fn is_symbol(b: u8) -> bool {
    65 <= b <= 90 || 50 <= b <= 55
}

/// The five-bit value of the symbol `b`.
pub open spec fn symbol_value(b: u8) -> nat {
    if b >= 65 {
        (b - 65) as nat
    } else {
        (b - 24) as nat
    }
}

/// The number that the symbols `s` write in base 32, first symbol first.
pub open spec fn symbols_value(s: Seq<u8>) -> nat
    decreases s.len(),
{
    if s.len() == 0 {
        0
    } else {
        symbols_value(s.drop_last()) * 32 + symbol_value(s.last())
    }
}

/// The position of the first byte of `s` outside the alphabet, or the length.
pub open spec fn first_foreign(s: Seq<u8>) -> int
    decreases s.len(),
{
    if s.len() == 0 || !is_symbol(s[0]) {
        0
    } else {
        1 + first_foreign(s.drop_first())
    }
}

/// How many of the bits of `n` symbols lie past the last whole byte.
pub open spec fn spare_bits(n: nat) -> nat {
    (5 * n) % 8
}

/// The bytes that the base32 text `s` encodes, or the first fault in it: the
/// length is looked at first, then the symbols, then the spare bits.
pub open spec fn base32_decoded(s: Seq<u8>) -> Result<Seq<u8>, Base32Error> {
    let spare = spare_bits(s.len());
    if spare >= 5 {
        Err(Base32Error { position: (s.len() - 1) as usize, kind: Base32Fault::Length })
    } else if first_foreign(s) < s.len() {
        Err(Base32Error { position: first_foreign(s) as usize, kind: Base32Fault::Symbol })
    } else if bytes::low_bits(symbols_value(s), spare) != 0 {
        Err(Base32Error { position: (s.len() - 1) as usize, kind: Base32Fault::Trailing })
    } else {
        Ok(bytes::big_endian(bytes::high_bits(symbols_value(s), spare), 5 * s.len() / 8))
    }
}

// ---------------------------------------------------------------------------
// Facts about the specification
// ---------------------------------------------------------------------------

/// `first_foreign` is a position in the text, or its length.
pub proof fn lemma_first_foreign(s: Seq<u8>)
    ensures
        0 <= first_foreign(s) <= s.len(),
        first_foreign(s) < s.len() ==> !is_symbol(s[first_foreign(s)]),
        forall|j: int| 0 <= j < first_foreign(s) ==> is_symbol(#[trigger] s[j]),
    decreases s.len(),
{
    if s.len() != 0 && is_symbol(s[0]) {
        lemma_first_foreign(s.drop_first());
        assert forall|j: int| 0 <= j < first_foreign(s) implies is_symbol(#[trigger] s[j]) by {
            if j > 0 {
                assert(s.drop_first()[j - 1] == s[j]);
            }
        }
    }
}

/// The first foreign byte is where `first_foreign` says.
pub proof fn lemma_first_foreign_is(s: Seq<u8>, i: int)
    requires
        0 <= i <= s.len(),
        i < s.len() ==> !is_symbol(s[i]),
        forall|j: int| 0 <= j < i ==> is_symbol(#[trigger] s[j]),
    ensures
        first_foreign(s) == i,
{
    lemma_first_foreign(s);
    if first_foreign(s) < i {
        assert(is_symbol(s[first_foreign(s)]));
    } else if i < first_foreign(s) {
        assert(is_symbol(s[i]));
    }
}

/// Symbols before a text move its first foreign byte along.
proof fn lemma_foreign_after(a: Seq<u8>, b: Seq<u8>)
    requires
        first_foreign(a) == a.len(),
    ensures
        first_foreign(a + b) == a.len() + first_foreign(b),
{
    let s = a + b;
    lemma_first_foreign(a);
    lemma_first_foreign(b);
    assert forall|j: int| 0 <= j < a.len() + first_foreign(b) implies is_symbol(
        #[trigger] s[j],
    ) by {
        if j < a.len() {
            assert(s[j] == a[j]);
        } else {
            assert(s[j] == b[j - a.len()]);
        }
    }
    lemma_first_foreign_is(s, a.len() + first_foreign(b));
}

/// A foreign byte stays the first one whatever follows.
proof fn lemma_foreign_stays(a: Seq<u8>, b: Seq<u8>)
    requires
        first_foreign(a) < a.len(),
    ensures
        first_foreign(a + b) == first_foreign(a),
{
    let s = a + b;
    lemma_first_foreign(a);
    assert forall|j: int| 0 <= j < first_foreign(a) implies is_symbol(#[trigger] s[j]) by {
        assert(s[j] == a[j]);
    }
    lemma_first_foreign_is(s, first_foreign(a));
}

/// The symbols after a prefix weigh less than the prefix's last unit.
proof fn lemma_symbols_value_bound(s: Seq<u8>)
    requires
        first_foreign(s) == s.len(),
    ensures
        symbols_value(s) < bytes::two_to(5 * s.len()),
    decreases s.len(),
{
    if s.len() > 0 {
        lemma_first_foreign(s);
        let t = s.drop_last();
        assert(is_symbol(s[s.len() - 1]));
        assert forall|j: int| 0 <= j < t.len() implies is_symbol(#[trigger] t[j]) by {
            assert(t[j] == s[j]);
        }
        lemma_first_foreign_is(t, t.len() as int);
        lemma_symbols_value_bound(t);
        bytes::lemma_two_to_adds(5, 5 * t.len());
        assert(bytes::two_to(5) == 32) by {
            reveal_with_fuel(bytes::two_to, 6);
        }
    }
}

proof fn lemma_symbols_value_joins(a: Seq<u8>, b: Seq<u8>)
    ensures
        symbols_value(a + b) == symbols_value(a) * bytes::two_to(5 * b.len()) + symbols_value(b),
    decreases b.len(),
{
    if b.len() == 0 {
        assert(a + b == a);
        assert(symbols_value(a) * 1 == symbols_value(a)) by (nonlinear_arith);
    } else {
        let c = b.drop_last();
        lemma_symbols_value_joins(a, c);
        assert((a + b).drop_last() == a + c);
        bytes::lemma_two_to_adds(5, 5 * c.len());
        assert(bytes::two_to(5) == 32) by {
            reveal_with_fuel(bytes::two_to, 6);
        }
        let (x, w) = (symbols_value(a), bytes::two_to(5 * c.len()));
        assert((x * w) * 32 == x * (32 * w)) by (nonlinear_arith);
    }
}

/// The value of a text of whole blocks followed by more symbols.
proof fn lemma_blocks_value(a: Seq<u8>, b: Seq<u8>)
    requires
        a.len() % 8 == 0,
        first_foreign(b) == b.len(),
    ensures
        ({
            let k = spare_bits(b.len());
            let (x, y, v) = (symbols_value(a), symbols_value(b), symbols_value(a + b));
            &&& bytes::low_bits(v, k) == bytes::low_bits(y, k)
            &&& bytes::big_endian(bytes::high_bits(v, k), 5 * (a.len() + b.len()) / 8)
                == bytes::big_endian(x, 5 * a.len() / 8) + bytes::big_endian(
                bytes::high_bits(y, k),
                5 * b.len() / 8,
            )
        }),
{
    let k = spare_bits(b.len());
    let m = 5 * b.len() / 8;
    let (x, y) = (symbols_value(a), symbols_value(b));
    lemma_symbols_value_joins(a, b);
    lemma_symbols_value_bound(b);
    bytes::lemma_two_to_adds(k, 8 * m);
    assert(5 * b.len() == k + 8 * m);
    bytes::lemma_shift(x, y, k, bytes::two_to(8 * m));
    bytes::lemma_big_endian_joins(x, bytes::high_bits(y, k), 5 * a.len() / 8, m);
    assert(5 * (a.len() + b.len()) / 8 == 5 * a.len() / 8 + m);
}

/// A text whose length is a multiple of eight, all symbols, decodes on its
/// own; what follows it decodes as if it stood alone.
pub proof fn law_base32_blocks(a: Seq<u8>, b: Seq<u8>)
    requires
        a.len() % 8 == 0,
        first_foreign(a) == a.len(),
        a.len() + b.len() <= usize::MAX,
    ensures
        base32_decoded(a) is Ok,
        match base32_decoded(b) {
            Ok(bytes) => base32_decoded(a + b) == Ok::<Seq<u8>, Base32Error>(
                base32_decoded(a)->Ok_0 + bytes,
            ),
            Err(e) => base32_decoded(a + b) == Err::<Seq<u8>, Base32Error>(
                Base32Error { position: (a.len() + e.position) as usize, kind: e.kind },
            ),
        },
{
    let s = a + b;
    assert(spare_bits(a.len()) == 0);
    assert(spare_bits(s.len()) == spare_bits(b.len()));
    bytes::lemma_no_bits(symbols_value(a));
    lemma_first_foreign(b);
    lemma_foreign_after(a, b);
    if first_foreign(b) == b.len() {
        lemma_blocks_value(a, b);
    }
}

/// What `base32_decoded` says about a foreign symbol.
proof fn lemma_foreign_symbol(s: Seq<u8>)
    requires
        s.len() <= usize::MAX,
        spare_bits(s.len()) < 5,
    ensures
        0 <= first_foreign(s) <= s.len(),
        first_foreign(s) < s.len() ==> base32_decoded(s) == Err::<Seq<u8>, Base32Error>(
            Base32Error { position: first_foreign(s) as usize, kind: Base32Fault::Symbol },
        ),
        first_foreign(s) == s.len() && s.len() % 8 == 0 ==> base32_decoded(s) is Ok,
        base32_decoded(s) matches Err(e) ==> e.position < s.len(),
{
    lemma_first_foreign(s);
    bytes::lemma_no_bits(symbols_value(s));
}

// ---------------------------------------------------------------------------
// Operations
// ---------------------------------------------------------------------------

/// How many symbols are decoded in one call; a multiple of eight.
const BLOCK: usize = 4096;

/// `data_encoding::BASE32_NOPAD.decode`: the strict decoder of unpadded
/// base32.  It takes at most `usize::MAX / 8` bytes.  It is trusted to give the
/// bytes that the symbols encode, or the first fault: a length that no byte
/// string has, then the first byte outside the alphabet, then spare bits that
/// are not zero.
#[verifier::external_body]
fn decode_block(input: &[u8]) -> (r: Result<Vec<u8>, Base32Error>)
    requires
        input@.len() <= usize::MAX / 8,
    ensures
        match r {
            Ok(bytes) => base32_decoded(input@) == Ok::<Seq<u8>, Base32Error>(bytes@),
            Err(e) => base32_decoded(input@) == Err::<Seq<u8>, Base32Error>(e),
        },
{
    data_encoding::BASE32_NOPAD.decode(input).map_err(
        |e| Base32Error {
            position: e.position,
            kind: match e.kind {
                data_encoding::DecodeKind::Length => Base32Fault::Length,
                data_encoding::DecodeKind::Symbol => Base32Fault::Symbol,
                data_encoding::DecodeKind::Trailing => Base32Fault::Trailing,
                data_encoding::DecodeKind::Padding => Base32Fault::Padding,
            },
        },
    )
}

/// What one whole block adds to the text that was decoded before it.
proof fn lemma_block_decoded(input: Seq<u8>, pos: int, end: int)
    requires
        0 <= pos < end <= input.len() <= usize::MAX,
        pos % 8 == 0,
        end % 8 == 0,
        spare_bits(input.len()) < 5,
        first_foreign(input.take(pos)) == pos,
    ensures
        match base32_decoded(input.subrange(pos, end)) {
            Ok(bytes) => {
                &&& first_foreign(input.take(end)) == end
                &&& base32_decoded(input.take(end)) == Ok::<Seq<u8>, Base32Error>(
                    base32_decoded(input.take(pos))->Ok_0 + bytes,
                )
            },
            Err(e) => {
                &&& pos + e.position < input.len()
                &&& base32_decoded(input) == Err::<Seq<u8>, Base32Error>(
                    Base32Error { position: (pos + e.position) as usize, kind: e.kind },
                )
            },
        },
{
    let (a, block, s) = (input.take(pos), input.subrange(pos, end), input.take(end));
    let rest = input.skip(end);
    assert(s == a + block);
    assert(input == s + rest);
    law_base32_blocks(a, block);
    lemma_foreign_after(a, block);
    lemma_foreign_symbol(block);
    if first_foreign(block) < block.len() {
        lemma_foreign_stays(s, rest);
        lemma_foreign_symbol(input);
    }
}

/// What the last block adds to the text that was decoded before it.
proof fn lemma_last_block_decoded(input: Seq<u8>, pos: int)
    requires
        0 <= pos <= input.len() <= usize::MAX,
        pos % 8 == 0,
        spare_bits(input.len()) < 5,
        first_foreign(input.take(pos)) == pos,
    ensures
        match base32_decoded(input.skip(pos)) {
            Ok(bytes) => base32_decoded(input) == Ok::<Seq<u8>, Base32Error>(
                base32_decoded(input.take(pos))->Ok_0 + bytes,
            ),
            Err(e) => {
                &&& pos + e.position < input.len()
                &&& base32_decoded(input) == Err::<Seq<u8>, Base32Error>(
                    Base32Error { position: (pos + e.position) as usize, kind: e.kind },
                )
            },
        },
{
    let (a, block) = (input.take(pos), input.skip(pos));
    assert(input == a + block);
    law_base32_blocks(a, block);
    assert(spare_bits(block.len()) == spare_bits(input.len()));
    lemma_foreign_symbol(block);
}

/// The bytes that the base32 text `input` encodes.  A long text is decoded in
/// blocks, since the decoder limits the length of one call.
#[verifier::spinoff_prover]
#[verifier::rlimit(40)]
pub fn decode(input: &[u8]) -> (r: Result<Vec<u8>, Base32Error>)
    ensures
        match r {
            Ok(bytes) => base32_decoded(input@) == Ok::<Seq<u8>, Base32Error>(bytes@),
            Err(e) => base32_decoded(input@) == Err::<Seq<u8>, Base32Error>(e),
        },
{
    let n: usize = input.len();
    let odd: usize = n % 8;
    if odd == 1 || odd == 3 || odd == 6 {
        assert(spare_bits(n as nat) >= 5);
        return Err(Base32Error { position: n - 1, kind: Base32Fault::Length });
    }
    assert(spare_bits(n as nat) < 5);
    let mut out: Vec<u8> = Vec::new();
    let mut pos: usize = 0;
    proof {
        lemma_first_foreign_is(input@.take(0), 0);
        bytes::lemma_no_bits(0);
    }
    while n - pos > BLOCK
        invariant
            n == input@.len(),
            pos <= n,
            pos % 8 == 0,
            spare_bits(n as nat) < 5,
            first_foreign(input@.take(pos as int)) == pos,
            base32_decoded(input@.take(pos as int)) == Ok::<Seq<u8>, Base32Error>(out@),
        decreases n - pos,
    {
        let block = slice_subrange(input, pos, pos + BLOCK);
        proof {
            lemma_block_decoded(input@, pos as int, pos + BLOCK);
        }
        match decode_block(block) {
            Ok(mut bytes) => {
                out.append(&mut bytes);
            },
            Err(e) => {
                return Err(Base32Error { position: pos + e.position, kind: e.kind });
            },
        }
        pos += BLOCK;
    }
    let block = slice_subrange(input, pos, n);
    proof {
        assert(block@ == input@.skip(pos as int));
        lemma_last_block_decoded(input@, pos as int);
    }
    match decode_block(block) {
        Ok(mut bytes) => {
            out.append(&mut bytes);
            Ok(out)
        },
        Err(e) => Err(Base32Error { position: pos + e.position, kind: e.kind }),
    }
}

// ---------------------------------------------------------------------------
// Encoding
// ---------------------------------------------------------------------------

/// The symbol for the five-bit value `v`.
pub open spec fn symbol(v: nat) -> u8 {
    if v < 26 {
        (65 + v) as u8
    } else {
        (24 + v) as u8
    }
}

/// The `n` symbols that write the low bits of `v`, most significant first.
pub open spec fn symbols(v: nat, n: nat) -> Seq<u8>
    decreases n,
{
    if n == 0 {
        seq![]
    } else {
        symbols(v / 32, (n - 1) as nat).push(symbol(v % 32))
    }
}

/// The base32 text of `data`: as many symbols as its bits need, with zeros in
/// the spare bits.
pub open spec fn base32_encoded(data: Seq<u8>) -> Seq<u8> {
    let n = (8 * data.len() + 4) / 5;
    symbols(bytes::value(data) * bytes::two_to((5 * n - 8 * data.len()) as nat), n)
}

proof fn lemma_symbols(v: nat, n: nat)
    requires
        v < bytes::two_to(5 * n),
    ensures
        symbols(v, n).len() == n,
        forall|j: int| 0 <= j < n ==> is_symbol(#[trigger] symbols(v, n)[j]),
        symbols_value(symbols(v, n)) == v,
    decreases n,
{
    if n > 0 {
        let m = (n - 1) as nat;
        bytes::lemma_two_to_adds(5, 5 * m);
        assert(bytes::two_to(5) == 32) by {
            reveal_with_fuel(bytes::two_to, 6);
        }
        lemma_symbols(v / 32, m);
        let (s, front) = (symbols(v, n), symbols(v / 32, m));
        assert(s.drop_last() == front);
        assert forall|j: int| 0 <= j < n implies is_symbol(#[trigger] s[j]) by {
            if j < m {
                assert(s[j] == front[j]);
            }
        }
    }
}

/// An encoded text is made of symbols, one for each five bits.
pub proof fn lemma_encoded_symbols(data: Seq<u8>)
    ensures
        base32_encoded(data).len() == (8 * data.len() + 4) / 5,
        forall|j: int|
            0 <= j < base32_encoded(data).len() ==> is_symbol(#[trigger] base32_encoded(data)[j]),
        symbols_value(base32_encoded(data)) == bytes::value(data) * bytes::two_to(
            (5 * ((8 * data.len() + 4) / 5) - 8 * data.len()) as nat,
        ),
{
    let len = data.len();
    let n = (8 * len + 4) / 5;
    let k = (5 * n - 8 * len) as nat;
    let v = bytes::value(data);
    let w = bytes::two_to(k);
    bytes::lemma_value_bound(data);
    bytes::lemma_two_to_adds(8 * len, k);
    bytes::lemma_two_to_adds(k, 0);
    assert(v * w < bytes::two_to(8 * len) * w) by (nonlinear_arith)
        requires
            v < bytes::two_to(8 * len),
            w > 0,
    ;
    lemma_symbols(v * w, n);
}

/// Decoding undoes encoding: every byte string has a base32 text that decodes
/// to it.
pub proof fn law_decoded_encoded(data: Seq<u8>)
    ensures
        base32_decoded(base32_encoded(data)) == Ok::<Seq<u8>, Base32Error>(data),
{
    let n = base32_encoded(data).len();
    lemma_encoded_symbols(data);
    lemma_first_foreign_is(base32_encoded(data), n as int);
    assert(spare_bits(n) == 5 * n - 8 * data.len() && 5 * n / 8 == data.len());
    bytes::lemma_shifted(bytes::value(data), spare_bits(n));
    bytes::lemma_big_endian_value(data);
}

/// Symbols are those that write their own number.
proof fn lemma_symbols_of_value(s: Seq<u8>)
    requires
        forall|j: int| 0 <= j < s.len() ==> is_symbol(#[trigger] s[j]),
    ensures
        symbols(symbols_value(s), s.len()) == s,
    decreases s.len(),
{
    if s.len() > 0 {
        let front = s.drop_last();
        assert forall|j: int| 0 <= j < front.len() implies is_symbol(#[trigger] front[j]) by {
            assert(front[j] == s[j]);
        }
        lemma_symbols_of_value(front);
        assert(is_symbol(s[s.len() - 1]));
        assert(symbols_value(s) / 32 == symbols_value(front));
        assert(symbol(symbols_value(s) % 32) == s.last());
        assert(front.push(s.last()) == s);
    } else {
        assert(s == Seq::<u8>::empty());
    }
}

/// Encoding undoes decoding: a text that decodes is the only one for its bytes.
pub proof fn law_encoded_decoded(s: Seq<u8>)
    ensures
        base32_decoded(s) matches Ok(data) ==> base32_encoded(data) == s,
{
    if base32_decoded(s) is Ok {
        let data = base32_decoded(s)->Ok_0;
        let (n, k) = (s.len(), spare_bits(s.len()));
        let m = 5 * n / 8;
        let v = symbols_value(s);
        lemma_first_foreign(s);
        lemma_symbols_value_bound(s);
        bytes::lemma_two_to_adds(k, 8 * m);
        assert(5 * n == k + 8 * m);
        bytes::lemma_shift(0, v, k, bytes::two_to(8 * m));
        bytes::lemma_big_endian_len(bytes::high_bits(v, k), m);
        bytes::lemma_value_big_endian(bytes::high_bits(v, k), m);
        bytes::lemma_bits(v, k);
        assert((8 * m + 4) / 5 == n);
        lemma_symbols_of_value(s);
    }
}

// ---------------------------------------------------------------------------
// Laws of symbols
// ---------------------------------------------------------------------------

/// The symbols are the letters and the digits of the alphabet of RFC 4648, and
/// each has its place there as its value.
pub proof fn law_alphabet(b: u8, v: int)
    ensures
        ({
            let alphabet = "ABCDEFGHIJKLMNOPQRSTUVWXYZ234567"@;
            &&& alphabet.len() == 32
            &&& is_symbol(b) ==> symbol_value(b) < 32 && alphabet[symbol_value(b) as int] as int == b
            &&& 0 <= v < 32 ==> is_symbol(alphabet[v] as u8) && symbol_value(alphabet[v] as u8) == v
        }),
{
    reveal_strlit("ABCDEFGHIJKLMNOPQRSTUVWXYZ234567");
}

/// Symbols weigh by their place: those before `b` weigh 32 times more for each
/// symbol of `b`.
pub proof fn law_symbols_value(a: Seq<u8>, b: Seq<u8>, x: u8)
    ensures
        symbols_value(a + b) == symbols_value(a) * vstd::arithmetic::power2::pow2(5 * b.len())
            + symbols_value(b),
        symbols_value(seq![x]) == symbol_value(x),
{
    bytes::law_two_to(5 * b.len());
    lemma_symbols_value_joins(a, b);
    assert(seq![x].drop_last() == Seq::<u8>::empty());
    assert(symbols_value(Seq::<u8>::empty()) == 0);
}

/// What decodes: symbols only, whose number is that of the bytes with zero bits
/// after it, fewer than five, up to the last symbol.
pub proof fn law_decoded_number(s: Seq<u8>, data: Seq<u8>)
    ensures
        base32_decoded(s) == Ok::<Seq<u8>, Base32Error>(data) <==> {
            let spare = 5 * s.len() - 8 * data.len();
            &&& 0 <= spare < 5
            &&& forall|i: int| 0 <= i < s.len() ==> is_symbol(#[trigger] s[i])
            &&& symbols_value(s) == bytes::value(data) * vstd::arithmetic::power2::pow2(spare as nat)
        },
{
    let spare = 5 * s.len() - 8 * data.len();
    if base32_decoded(s) == Ok::<Seq<u8>, Base32Error>(data) {
        let k = spare_bits(s.len());
        let m = 5 * s.len() / 8;
        let v = symbols_value(s);
        lemma_first_foreign(s);
        lemma_symbols_value_bound(s);
        bytes::lemma_two_to_adds(k, 8 * m);
        assert(5 * s.len() == k + 8 * m);
        bytes::lemma_shift(0, v, k, bytes::two_to(8 * m));
        bytes::lemma_big_endian_len(bytes::high_bits(v, k), m);
        bytes::lemma_value_big_endian(bytes::high_bits(v, k), m);
        bytes::lemma_bits(v, k);
        bytes::law_two_to(k);
        assert(spare == k);
    } else if 0 <= spare < 5 && (forall|i: int| 0 <= i < s.len() ==> is_symbol(#[trigger] s[i]))
        && symbols_value(s) == bytes::value(data) * vstd::arithmetic::power2::pow2(spare as nat) {
        bytes::law_two_to(spare as nat);
        lemma_symbols_of_value(s);
        assert((8 * data.len() + 4) / 5 == s.len());
        assert(base32_encoded(data) == s);
        law_decoded_encoded(data);
    }
}

/// What does not decode, and why: first a length that no bytes have, then the
/// first byte that is no symbol, then bits that are left over.
pub proof fn law_decoding_faults(s: Seq<u8>, i: int)
    requires
        s.len() <= usize::MAX,
    ensures
        ({
            let (r, odd) = (base32_decoded(s), s.len() % 8);
            let length = odd == 1 || odd == 3 || odd == 6;
            let symbols = forall|j: int| 0 <= j < s.len() ==> is_symbol(#[trigger] s[j]);
            let first = 0 <= i < s.len() && !is_symbol(s[i]) && forall|j: int|
                0 <= j < i ==> is_symbol(#[trigger] s[j]);
            &&& length ==> r == Err::<Seq<u8>, Base32Error>(
                Base32Error { position: (s.len() - 1) as usize, kind: Base32Fault::Length },
            )
            &&& !length && first ==> r == Err::<Seq<u8>, Base32Error>(
                Base32Error { position: i as usize, kind: Base32Fault::Symbol },
            )
            &&& !length && symbols && r is Err ==> r == Err::<Seq<u8>, Base32Error>(
                Base32Error { position: (s.len() - 1) as usize, kind: Base32Fault::Trailing },
            )
        }),
{
    lemma_first_foreign(s);
    if 0 <= i < s.len() && !is_symbol(s[i]) && (forall|j: int|
        0 <= j < i ==> is_symbol(#[trigger] s[j])) {
        lemma_first_foreign_is(s, i);
    }
    if forall|j: int| 0 <= j < s.len() ==> is_symbol(#[trigger] s[j]) {
        lemma_first_foreign_is(s, s.len() as int);
    }
    assert(s.len() % 8 == 1 || s.len() % 8 == 3 || s.len() % 8 == 6 <==> spare_bits(s.len()) >= 5);
}

} // verus!
