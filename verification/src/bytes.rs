//! Numbers as bytes, most significant first.
use vstd::prelude::*;

verus! {

/// The `n`-th power of two.
pub open spec fn two_to(n: nat) -> nat
    decreases n,
{
    if n == 0 {
        1
    } else {
        2 * two_to((n - 1) as nat)
    }
}

/// The `k` low bits of `v`.
#[verifier::opaque]
pub open spec fn low_bits(v: nat, k: nat) -> nat {
    v % two_to(k)
}

/// `v` without its `k` low bits.
#[verifier::opaque]
pub open spec fn high_bits(v: nat, k: nat) -> nat {
    v / two_to(k)
}

/// The `n` low bytes of `v`, most significant first.
pub open spec fn big_endian(v: nat, n: nat) -> Seq<u8>
    decreases n,
{
    if n == 0 {
        seq![]
    } else {
        big_endian(v / 256, (n - 1) as nat).push((v % 256) as u8)
    }
}

/// Powers of two multiply by adding their exponents.
pub proof fn lemma_two_to_adds(a: nat, b: nat)
    ensures
        two_to(a + b) == two_to(a) * two_to(b),
        two_to(a) > 0,
    decreases a,
{
    if a > 0 {
        lemma_two_to_adds((a - 1) as nat, b);
        assert((a - 1) as nat + b == (a + b - 1) as nat);
        assert(2 * (two_to((a - 1) as nat) * two_to(b)) == (2 * two_to((a - 1) as nat)) * two_to(b))
            by (nonlinear_arith);
    } else {
        assert(1 * two_to(b) == two_to(b)) by (nonlinear_arith);
    }
}

/// There is nothing in no bits.
pub proof fn lemma_no_bits(v: nat)
    ensures
        low_bits(v, 0) == 0,
        high_bits(v, 0) == v,
{
    reveal(low_bits);
    reveal(high_bits);
    assert(two_to(0) == 1);
}

/// Shifting `x * w * 2^k + y` right past its `k` low bits.
pub proof fn lemma_shift(x: nat, y: nat, k: nat, w: nat)
    requires
        y < two_to(k) * w,
    ensures
        low_bits(x * (two_to(k) * w) + y, k) == low_bits(y, k),
        high_bits(x * (two_to(k) * w) + y, k) == x * w + high_bits(y, k),
        high_bits(y, k) < w,
{
    reveal(low_bits);
    reveal(high_bits);
    let u = two_to(k);
    lemma_two_to_adds(k, 0);
    assert(x * (u * w) == u * (x * w)) by (nonlinear_arith);
    assert(u * (x * w) == (x * w) * u) by (nonlinear_arith);
    vstd::arithmetic::div_mod::lemma_mod_multiples_vanish((x * w) as int, y as int, u as int);
    vstd::arithmetic::div_mod::lemma_hoist_over_denominator(y as int, (x * w) as int, u);
    vstd::arithmetic::div_mod::lemma_multiply_divide_lt(y as int, u as int, w as int);
}

/// `big_endian` gives as many bytes as it is asked for.
pub proof fn lemma_big_endian_len(v: nat, n: nat)
    ensures
        big_endian(v, n).len() == n,
    decreases n,
{
    if n > 0 {
        lemma_big_endian_len(v / 256, (n - 1) as nat);
    }
}

/// Bytes of a sum whose low part fits in the low bytes.
pub proof fn lemma_big_endian_joins(x: nat, y: nat, n: nat, m: nat)
    requires
        y < two_to(8 * m),
    ensures
        big_endian(x * two_to(8 * m) + y, n + m) == big_endian(x, n) + big_endian(y, m),
    decreases m,
{
    if m == 0 {
        assert(x * 1 == x) by (nonlinear_arith);
        assert(big_endian(x, n) + big_endian(y, m) == big_endian(x, n));
    } else {
        let k = (m - 1) as nat;
        lemma_two_to_adds(8, 8 * k);
        assert(two_to(8) == 256) by {
            reveal_with_fuel(two_to, 9);
        }
        let w = two_to(8 * k);
        let v = x * two_to(8 * m) + y;
        assert(x * (256 * w) == 256 * (x * w)) by (nonlinear_arith);
        assert(v / 256 == x * w + y / 256);
        assert(v % 256 == y % 256);
        lemma_big_endian_joins(x, y / 256, n, k);
        assert((n + m - 1) as nat == n + k);
        assert(big_endian(v, n + m) == big_endian(x, n) + big_endian(y, m));
    }
}

/// The number that the bytes `s` write, most significant first.
pub open spec fn value(s: Seq<u8>) -> nat
    decreases s.len(),
{
    if s.len() == 0 {
        0
    } else {
        value(s.drop_last()) * 256 + s.last() as nat
    }
}

/// A number of `n` bytes has at most `8 * n` bits.
pub proof fn lemma_value_bound(s: Seq<u8>)
    ensures
        value(s) < two_to(8 * s.len()),
    decreases s.len(),
{
    if s.len() > 0 {
        lemma_value_bound(s.drop_last());
        lemma_two_to_adds(8, 8 * s.drop_last().len());
        assert(two_to(8) == 256) by {
            reveal_with_fuel(two_to, 9);
        }
    }
}

/// Bytes are the big-endian form of the number that they write.
pub proof fn lemma_big_endian_value(s: Seq<u8>)
    ensures
        big_endian(value(s), s.len()) == s,
    decreases s.len(),
{
    if s.len() > 0 {
        let front = s.drop_last();
        lemma_big_endian_value(front);
        assert(value(s) / 256 == value(front));
        assert(value(s) % 256 == s.last() as nat);
        assert(front.push(s.last()) == s);
    }
}

/// Big-endian bytes write the number that they came from.
pub proof fn lemma_value_big_endian(v: nat, n: nat)
    requires
        v < two_to(8 * n),
    ensures
        value(big_endian(v, n)) == v,
    decreases n,
{
    if n > 0 {
        let m = (n - 1) as nat;
        lemma_two_to_adds(8, 8 * m);
        assert(two_to(8) == 256) by {
            reveal_with_fuel(two_to, 9);
        }
        lemma_value_big_endian(v / 256, m);
        assert(big_endian(v, n).drop_last() == big_endian(v / 256, m));
    }
}

/// A number times `2^k` has `k` zero bits below it.
pub proof fn lemma_shifted(v: nat, k: nat)
    ensures
        low_bits(v * two_to(k), k) == 0,
        high_bits(v * two_to(k), k) == v,
{
    reveal(low_bits);
    reveal(high_bits);
    lemma_two_to_adds(k, 0);
    let w = two_to(k) as int;
    vstd::arithmetic::div_mod::lemma_fundamental_div_mod_converse(v * w, w, v as int, 0);
}

/// A number is made of its high and its low bits.
pub proof fn lemma_bits(v: nat, k: nat)
    ensures
        v == high_bits(v, k) * two_to(k) + low_bits(v, k),
{
    reveal(low_bits);
    reveal(high_bits);
    lemma_two_to_adds(k, 0);
    let w = two_to(k) as int;
    vstd::arithmetic::div_mod::lemma_fundamental_div_mod(v as int, w);
    assert(w * (v as int / w) == (v as int / w) * w) by (nonlinear_arith);
}

/// `two_to` is the power of two.
pub proof fn law_two_to(n: nat)
    ensures
        two_to(n) == vstd::arithmetic::power2::pow2(n),
    decreases n,
{
    if n > 0 {
        law_two_to((n - 1) as nat);
        vstd::arithmetic::power2::lemma_pow2_unfold(n);
    } else {
        vstd::arithmetic::power2::lemma2_to64();
    }
}

/// Bytes weigh by their place: those before `b` weigh 256 times more for each
/// byte of `b`.
pub proof fn law_value(a: Seq<u8>, b: Seq<u8>, x: u8)
    ensures
        value(a + b) == value(a) * vstd::arithmetic::power2::pow2(8 * b.len()) + value(b),
        value(seq![x]) == x,
    decreases b.len(),
{
    assert(seq![x].drop_last() == Seq::<u8>::empty());
    assert(value(Seq::<u8>::empty()) == 0);
    law_two_to(8 * b.len());
    if b.len() == 0 {
        assert(a + b == a);
        assert(value(a) * 1 == value(a)) by (nonlinear_arith);
    } else {
        let front = b.drop_last();
        law_value(a, front, x);
        law_two_to(8 * front.len());
        lemma_two_to_adds(8, 8 * front.len());
        assert(two_to(8) == 256) by {
            reveal_with_fuel(two_to, 9);
        }
        assert((a + b).drop_last() == a + front);
        let (v, w) = (value(a), two_to(8 * front.len()));
        assert((v * w) * 256 == v * (256 * w)) by (nonlinear_arith);
    }
}

/// Big-endian bytes have the number asked for and write their number; no other
/// bytes of that length do.
pub proof fn law_big_endian(v: nat, n: nat, s: Seq<u8>)
    requires
        v < vstd::arithmetic::power2::pow2(8 * n),
    ensures
        big_endian(v, n).len() == n,
        value(big_endian(v, n)) == v,
        s.len() == n && value(s) == v ==> s == big_endian(v, n),
{
    law_two_to(8 * n);
    lemma_big_endian_len(v, n);
    lemma_value_big_endian(v, n);
    lemma_big_endian_value(s);
}

/// The low and the high bits of a number are its remainder and its quotient.
pub proof fn law_low_and_high_bits(v: nat, k: nat)
    ensures
        v == high_bits(v, k) * vstd::arithmetic::power2::pow2(k) + low_bits(v, k),
        low_bits(v, k) < vstd::arithmetic::power2::pow2(k),
{
    reveal(low_bits);
    law_two_to(k);
    lemma_bits(v, k);
    lemma_two_to_adds(k, 0);
}

} // verus!
