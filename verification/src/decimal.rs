//! Decimal numerals: writing a number, padding it, and reading one back.
use vstd::prelude::*;

verus! {

// ---------------------------------------------------------------------------
// Specification
// ---------------------------------------------------------------------------

/// The `n`-th power of ten.
pub open spec fn ten_to(n: nat) -> nat
    decreases n,
{
    if n == 0 {
        1
    } else {
        10 * ten_to((n - 1) as nat)
    }
}

/// The character that writes the digit `d`.
pub open spec fn digit(d: nat) -> char {
    (48 + d) as char
}

/// Whether `c` is a decimal digit.
pub open spec fn is_digit(c: char) -> bool {
    '0' <= c <= '9'
}

/// Whether `s` holds decimal digits only.
pub open spec fn all_digits(s: Seq<char>) -> bool {
    forall|i: int| 0 <= i < s.len() ==> is_digit(#[trigger] s[i])
}

/// The numeral of `n`, without leading zeros.
pub open spec fn numeral(n: nat) -> Seq<char>
    decreases n,
{
    if n < 10 {
        seq![digit(n)]
    } else {
        numeral(n / 10).push(digit(n % 10))
    }
}

/// The numeral of `n` with zeros before it, up to `width` characters.
pub open spec fn padded(n: nat, width: nat) -> Seq<char> {
    zeros((width - numeral(n).len()) as int) + numeral(n)
}

/// `n` zeros; none if `n` is negative.
pub open spec fn zeros(n: int) -> Seq<char> {
    Seq::new(if n < 0 { 0 } else { n as nat }, |i: int| '0')
}

/// The number that the digits `s` write.
pub open spec fn digits_value(s: Seq<char>) -> nat
    decreases s.len(),
{
    if s.len() == 0 {
        0
    } else {
        digits_value(s.drop_last()) * 10 + (s.last() as nat - 48) as nat
    }
}

/// `s` without the plus sign that begins it, if one does.
pub open spec fn unsigned(s: Seq<char>) -> Seq<char> {
    if s.len() > 0 && s[0] == '+' {
        s.drop_first()
    } else {
        s
    }
}

/// The number no greater than `max` that `s` writes: digits, at least one,
/// after an optional plus sign.
pub open spec fn number(s: Seq<char>, max: nat) -> Option<nat> {
    let d = unsigned(s);
    if d.len() > 0 && all_digits(d) && digits_value(d) <= max {
        Some(digits_value(d))
    } else {
        None
    }
}

// ---------------------------------------------------------------------------
// Laws
// ---------------------------------------------------------------------------

/// A numeral is made of digits, at least one, and writes its number.
pub proof fn law_numeral_value(n: nat)
    ensures
        numeral(n).len() > 0,
        all_digits(numeral(n)),
        digits_value(numeral(n)) == n,
    decreases n,
{
    if n < 10 {
        assert(numeral(n).drop_last() == Seq::<char>::empty());
        assert(digits_value(Seq::<char>::empty()) == 0);
    } else {
        law_numeral_value(n / 10);
        assert(numeral(n).drop_last() == numeral(n / 10));
    }
}

/// Reading a number's numeral gives the number back, if it is in range.
pub proof fn law_number_of_numeral(n: nat, max: nat)
    requires
        n <= max,
    ensures
        number(numeral(n), max) == Some(n),
{
    law_numeral_value(n);
    assert(is_digit(numeral(n)[0]));
}

/// Powers of ten multiply by adding their exponents.
pub proof fn lemma_ten_to_adds(a: nat, b: nat)
    ensures
        ten_to(a + b) == ten_to(a) * ten_to(b),
    decreases a,
{
    if a > 0 {
        let c = (a - 1) as nat;
        lemma_ten_to_adds(c, b);
        assert((a + b - 1) as nat == c + b);
        assert(10 * (ten_to(c) * ten_to(b)) == (10 * ten_to(c)) * ten_to(b)) by (nonlinear_arith);
    } else {
        assert(1 * ten_to(b) == ten_to(b)) by (nonlinear_arith);
    }
}

/// A power of ten is positive.
pub proof fn lemma_ten_to_positive(n: nat)
    ensures
        ten_to(n) > 0,
    decreases n,
{
    if n > 0 {
        lemma_ten_to_positive((n - 1) as nat);
    }
}

/// A number below the `w`-th power of ten has at most `w` digits.
pub proof fn lemma_numeral_len(n: nat, w: nat)
    requires
        w > 0,
        n < ten_to(w),
    ensures
        numeral(n).len() <= w,
    decreases n,
{
    if n >= 10 {
        if w == 1 {
            assert(ten_to(1) == 10 * ten_to(0));
        }
        lemma_numeral_len(n / 10, (w - 1) as nat);
    }
}

/// A number below the `w`-th power of ten, padded to `w`, has `w` digits.
pub proof fn law_padded_width(n: nat, w: nat)
    requires
        w > 0,
        n < ten_to(w),
    ensures
        padded(n, w).len() == w,
        all_digits(padded(n, w)),
{
    lemma_numeral_len(n, w);
    law_numeral_value(n);
}

/// Leading zeros do not change the number that digits write.
pub proof fn law_padded_value(n: nat, w: nat)
    ensures
        digits_value(padded(n, w)) == n,
{
    law_numeral_value(n);
    lemma_zeros_value((w - numeral(n).len()) as int, numeral(n));
}

proof fn lemma_zeros_value(k: int, s: Seq<char>)
    ensures
        digits_value(zeros(k) + s) == digits_value(s),
    decreases s.len(), k,
{
    if s.len() > 0 {
        lemma_zeros_value(k, s.drop_last());
        assert((zeros(k) + s).drop_last() == zeros(k) + s.drop_last());
    } else if k > 0 {
        lemma_zeros_value(k - 1, s);
        assert((zeros(k) + s).drop_last() == zeros(k - 1) + s);
    } else {
        assert(zeros(k) + s == s);
    }
}

/// More digits write a number at least as great.
proof fn lemma_digits_grow(s: Seq<char>, i: int)
    requires
        0 <= i <= s.len(),
    ensures
        digits_value(s.take(i)) <= digits_value(s),
    decreases s.len(),
{
    if i < s.len() {
        lemma_digits_grow(s.drop_last(), i);
        assert(s.drop_last().take(i) == s.take(i));
    } else {
        assert(s.take(i) == s);
    }
}

// ---------------------------------------------------------------------------
// Operations
// ---------------------------------------------------------------------------

/// The `n`-th power of ten, for the powers that a `u32` can hold.
pub fn power_of_ten(n: u32) -> (r: u32)
    requires
        n <= 9,
    ensures
        r == ten_to(n as nat),
        0 < r <= 1_000_000_000,
{
    let mut r: u32 = 1;
    let mut i: u32 = 0;
    proof {
        reveal_with_fuel(ten_to, 10);
    }
    while i < n
        invariant
            i <= n <= 9,
            r == ten_to(i as nat),
            0 < r,
            i < 9 ==> r <= 100_000_000,
            r <= 1_000_000_000,
            ten_to(0) == 1,
            ten_to(9) == 1_000_000_000,
            ten_to(8) == 100_000_000,
            ten_to(7) == 10_000_000,
            ten_to(6) == 1_000_000,
            ten_to(5) == 100_000,
            ten_to(4) == 10_000,
            ten_to(3) == 1000,
            ten_to(2) == 100,
            ten_to(1) == 10,
        decreases n - i,
    {
        r = r * 10;
        i += 1;
        assert(r == ten_to(i as nat));
    }
    r
}

/// The numeral of `n`.
pub fn write_number(n: u64) -> (r: Vec<char>)
    ensures
        r@ == numeral(n as nat),
    decreases n,
{
    let d: u8 = (n % 10) as u8;
    let mut r: Vec<char> = if n < 10 {
        Vec::new()
    } else {
        write_number(n / 10)
    };
    r.push((48 + d) as char);
    assert(r@ == numeral(n as nat));
    r
}

/// The numeral of `n`, padded with zeros to `width` characters.
pub fn write_padded(n: u64, width: usize) -> (r: Vec<char>)
    ensures
        r@ == padded(n as nat, width as nat),
{
    let mut tail = write_number(n);
    let mut r: Vec<char> = Vec::new();
    let len: usize = tail.len();
    let fill: usize = if width > len {
        width - len
    } else {
        0
    };
    let mut i: usize = 0;
    while i < fill
        invariant
            i <= fill,
            r@ == zeros(i as int),
        decreases fill - i,
    {
        r.push('0');
        i += 1;
        assert(r@ == zeros(i as int));
    }
    r.append(&mut tail);
    assert(r@ == padded(n as nat, width as nat));
    r
}

/// The number no greater than `max` that `s` writes.
pub fn read_number(s: &[char], max: u64) -> (r: Option<u64>)
    ensures
        match r {
            Some(n) => number(s@, max as nat) == Some(n as nat),
            None => number(s@, max as nat) is None,
        },
{
    let start: usize = if s.len() > 0 && s[0] == '+' {
        1
    } else {
        0
    };
    let ghost d = unsigned(s@);
    assert(d == s@.skip(start as int));
    if s.len() == start {
        return None;
    }
    let mut n: u64 = 0;
    let mut i: usize = start;
    assert(d.take(0) == Seq::<char>::empty());
    while i < s.len()
        invariant
            start <= i <= s.len(),
            d == unsigned(s@),
            d == s@.skip(start as int),
            all_digits(d.take(i - start)),
            n == digits_value(d.take(i - start)),
            n <= max,
        decreases s.len() - i,
    {
        let c = s[i];
        assert(c == d[i - start]);
        if !('0' <= c && c <= '9') {
            assert(!is_digit(d[i - start]));
            return None;
        }
        let v: u64 = (c as u8 - 48) as u64;
        assert(d.take(i - start + 1).drop_last() == d.take(i - start));
        proof {
            lemma_digits_grow(d, i - start + 1);
        }
        if n > max / 10 || v > max - n * 10 {
            assert(digits_value(d) > max) by {
                if n > max / 10 {
                    assert(n * 10 > max);
                }
            }
            return None;
        }
        n = n * 10 + v;
        i += 1;
    }
    assert(d.take(i - start) == d);
    Some(n)
}

// ---------------------------------------------------------------------------
// Laws of digits
// ---------------------------------------------------------------------------

/// `ten_to` is the power of ten.
pub proof fn law_ten_to(n: nat)
    ensures
        ten_to(n) == vstd::arithmetic::power::pow(10, n),
    decreases n,
{
    if n > 0 {
        law_ten_to((n - 1) as nat);
        vstd::arithmetic::power::lemma_pow_adds(10, 1, (n - 1) as nat);
        vstd::arithmetic::power::lemma_pow1(10);
    } else {
        vstd::arithmetic::power::lemma_pow0(10);
    }
}

/// The digits are the ten characters from code point 48 on.
pub proof fn law_digits(s: Seq<char>)
    ensures
        all_digits(s) <==> forall|i: int| 0 <= i < s.len() ==> 48 <= #[trigger] s[i] as int <= 57,
{
    if all_digits(s) {
        assert forall|i: int| 0 <= i < s.len() implies 48 <= #[trigger] s[i] as int <= 57 by {
            assert(is_digit(s[i]));
        }
    } else {
        let i = choose|i: int| 0 <= i < s.len() && !is_digit(#[trigger] s[i]);
        assert(!(48 <= s[i] as int <= 57));
    }
}

/// Digits weigh by their place: those before `b` weigh ten times more for each
/// digit of `b`.
pub proof fn law_digits_value(a: Seq<char>, b: Seq<char>, c: char)
    ensures
        digits_value(a + b) == digits_value(a) * vstd::arithmetic::power::pow(10, b.len())
            + digits_value(b),
        48 <= c as int <= 57 ==> digits_value(seq![c]) == c as int - 48,
    decreases b.len(),
{
    assert(seq![c].drop_last() == Seq::<char>::empty());
    assert(digits_value(Seq::<char>::empty()) == 0);
    assert(digits_value(seq![c]) == digits_value(seq![c].drop_last()) * 10 + (c as nat - 48) as nat);
    law_ten_to(b.len());
    if b.len() == 0 {
        assert(a + b == a);
        assert(digits_value(a) * 1 == digits_value(a)) by (nonlinear_arith);
    } else {
        let front = b.drop_last();
        law_digits_value(a, front, c);
        law_ten_to(front.len());
        assert((a + b).drop_last() == a + front);
        let (x, w) = (digits_value(a), ten_to(front.len()));
        assert((x * w) * 10 == x * (10 * w)) by (nonlinear_arith);
    }
}

/// A numeral has no zero before its first digit.
pub proof fn law_numeral_shortest(n: nat)
    ensures
        n < 10 ==> numeral(n).len() == 1,
        n > 0 ==> numeral(n)[0] != '0',
    decreases n,
{
    if n >= 10 {
        law_numeral_shortest(n / 10);
        law_numeral_value(n / 10);
        assert(numeral(n)[0] == numeral(n / 10)[0]);
    }
}

/// Padding puts zeros before a numeral, as many as its width lacks.
pub proof fn law_padded_parts(n: nat, width: nat, i: int)
    ensures
        ({
            let (p, d) = (padded(n, width), numeral(n));
            let fill = p.len() - d.len();
            &&& p.len() == if width > d.len() {
                width
            } else {
                d.len()
            }
            &&& p.subrange(fill, p.len() as int) == d
            &&& 0 <= i < fill ==> p[i] == '0'
        }),
{
    let (p, d) = (padded(n, width), numeral(n));
    assert(p.subrange(p.len() - d.len(), p.len() as int) == d);
}

/// A number is read from its digits, at least one, with or without a plus sign
/// and with any zeros before them; nothing else is a number.
pub proof fn law_number(s: Seq<char>, max: nat)
    ensures
        s.len() > 0 && all_digits(s) ==> {
            &&& number(s, max) == if digits_value(s) <= max {
                Some(digits_value(s))
            } else {
                None
            }
            &&& number(seq!['+'] + s, max) == number(s, max)
        },
        number(s, max) is Some ==> {
            ||| s.len() > 0 && all_digits(s)
            ||| s.len() > 1 && s[0] == '+' && all_digits(s.skip(1))
        },
{
    assert((seq!['+'] + s).drop_first() == s);
    assert(s.len() > 0 ==> s.drop_first() == s.skip(1));
    if s.len() > 0 && all_digits(s) {
        assert(is_digit(s[0]));
    }
}

} // verus!
