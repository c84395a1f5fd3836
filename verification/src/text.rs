//! Text as a sequence of characters: trimming, splitting, lines, ASCII case.
//!
//! Each executable function works on a slice of characters and states its
//! result with the specification function that carries the matching name.
use vstd::prelude::*;
use vstd::slice::slice_subrange;

verus! {

// ---------------------------------------------------------------------------
// Specification
// ---------------------------------------------------------------------------

/// The characters with the Unicode property `White_Space`.
pub open spec fn is_space(c: char) -> bool {
    ||| '\u{9}' <= c <= '\u{d}'
    ||| c == '\u{20}'
    ||| c == '\u{85}'
    ||| c == '\u{a0}'
    ||| c == '\u{1680}'
    ||| '\u{2000}' <= c <= '\u{200a}'
    ||| c == '\u{2028}'
    ||| c == '\u{2029}'
    ||| c == '\u{202f}'
    ||| c == '\u{205f}'
    ||| c == '\u{3000}'
}

/// `s` without its leading white space.
pub open spec fn trimmed_start(s: Seq<char>) -> Seq<char>
    decreases s.len(),
{
    if s.len() > 0 && is_space(s[0]) {
        trimmed_start(s.drop_first())
    } else {
        s
    }
}

/// `s` without its trailing white space.
pub open spec fn trimmed_end(s: Seq<char>) -> Seq<char>
    decreases s.len(),
{
    if s.len() > 0 && is_space(s.last()) {
        trimmed_end(s.drop_last())
    } else {
        s
    }
}

/// `s` without the white space at its two ends.
pub open spec fn trimmed(s: Seq<char>) -> Seq<char> {
    trimmed_end(trimmed_start(s))
}

/// `c` with an ASCII lower-case letter turned to upper case.
pub open spec fn upper(c: char) -> char {
    if 'a' <= c <= 'z' {
        (c as u32 - 32) as char
    } else {
        c
    }
}

/// `c` with an ASCII upper-case letter turned to lower case.
pub open spec fn lower(c: char) -> char {
    if 'A' <= c <= 'Z' {
        (c as u32 + 32) as char
    } else {
        c
    }
}

/// `s` with its ASCII letters in upper case.
pub open spec fn uppercase(s: Seq<char>) -> Seq<char> {
    s.map_values(|c: char| upper(c))
}

/// `s` with its ASCII letters in lower case.
pub open spec fn lowercase(s: Seq<char>) -> Seq<char> {
    s.map_values(|c: char| lower(c))
}

/// Whether `s` begins with `prefix`.
pub open spec fn begins_with(s: Seq<char>, prefix: Seq<char>) -> bool {
    prefix.len() <= s.len() && s.take(prefix.len() as int) == prefix
}

/// The position of the first `c` in `s`, or the length of `s` if there is none.
pub open spec fn position(s: Seq<char>, c: char) -> int
    decreases s.len(),
{
    if s.len() == 0 || s[0] == c {
        0
    } else {
        1 + position(s.drop_first(), c)
    }
}

/// The parts of `s` before and after its first `c`.
pub open spec fn cut(s: Seq<char>, c: char) -> Option<(Seq<char>, Seq<char>)> {
    let i = position(s, c);
    if i < s.len() {
        Some((s.take(i), s.skip(i + 1)))
    } else {
        None
    }
}

/// The parts of `s` between its occurrences of `c`.
pub open spec fn pieces(s: Seq<char>, c: char) -> Seq<Seq<char>>
    decreases s.len(),
{
    let i = position(s, c);
    if 0 <= i < s.len() {
        seq![s.take(i)] + pieces(s.skip(i + 1), c)
    } else {
        seq![s]
    }
}

/// The part of `s` before its first line feed, or all of it.
pub open spec fn first_line(s: Seq<char>) -> Seq<char> {
    s.take(position(s, '\n'))
}

/// `line` without the carriage return that ends it, if one does.
pub open spec fn without_return(line: Seq<char>) -> Seq<char> {
    if line.len() > 0 && line.last() == '\r' {
        line.drop_last()
    } else {
        line
    }
}

/// The lines of `s`: each ends in a line feed, with or without a carriage
/// return before it; the last one may end with the text.
pub open spec fn lines_of(s: Seq<char>) -> Seq<Seq<char>>
    decreases s.len(),
{
    let i = position(s, '\n');
    if s.len() == 0 {
        seq![]
    } else if 0 <= i < s.len() {
        seq![without_return(s.take(i))] + lines_of(s.skip(i + 1))
    } else {
        seq![s]
    }
}

/// What `parts` hold, each one seen as a sequence of characters.
pub open spec fn views(parts: Seq<&[char]>) -> Seq<Seq<char>> {
    parts.map_values(|p: &[char]| p@)
}

// ---------------------------------------------------------------------------
// Facts about the specification
// ---------------------------------------------------------------------------

/// `position` finds the first occurrence, and nothing before it matches.
pub proof fn lemma_position(s: Seq<char>, c: char)
    ensures
        0 <= position(s, c) <= s.len(),
        position(s, c) < s.len() ==> s[position(s, c)] == c,
        forall|j: int| 0 <= j < position(s, c) ==> s[j] != c,
    decreases s.len(),
{
    if s.len() != 0 && s[0] != c {
        lemma_position(s.drop_first(), c);
        assert forall|j: int| 0 <= j < position(s, c) implies s[j] != c by {
            if j > 0 {
                assert(s.drop_first()[j - 1] == s[j]);
            }
        }
    }
}

/// The first occurrence is where `position` says.
pub proof fn lemma_position_is(s: Seq<char>, c: char, i: int)
    requires
        0 <= i <= s.len(),
        i < s.len() ==> s[i] == c,
        forall|j: int| 0 <= j < i ==> s[j] != c,
    ensures
        position(s, c) == i,
{
    lemma_position(s, c);
    if position(s, c) < i {
        assert(s[position(s, c)] != c);
    } else if i < position(s, c) {
        assert(s[i] != c);
    }
}

/// A text that neither begins nor ends with white space is trimmed.
pub proof fn lemma_trimmed_already(s: Seq<char>)
    requires
        s.len() > 0 ==> !is_space(s[0]) && !is_space(s.last()),
    ensures
        trimmed(s) == s,
{
}

/// What trimming leaves neither begins nor ends with white space.
pub proof fn lemma_trimmed_ends(s: Seq<char>)
    ensures
        trimmed(s).len() > 0 ==> !is_space(trimmed(s)[0]) && !is_space(trimmed(s).last()),
{
    lemma_trimmed_start_head(s);
    lemma_trimmed_end_ends(trimmed_start(s));
}

/// What trimming the start leaves does not begin with white space.
proof fn lemma_trimmed_start_head(s: Seq<char>)
    ensures
        trimmed_start(s).len() > 0 ==> !is_space(trimmed_start(s)[0]),
    decreases s.len(),
{
    if s.len() > 0 && is_space(s[0]) {
        lemma_trimmed_start_head(s.drop_first());
    }
}

/// Trimming the end keeps a first character that is not white space.
proof fn lemma_trimmed_end_ends(s: Seq<char>)
    requires
        s.len() > 0 ==> !is_space(s[0]),
    ensures
        ({
            let t = trimmed_end(s);
            t.len() > 0 ==> t[0] == s[0] && !is_space(t.last())
        }),
        s.len() > 0 ==> trimmed_end(s).len() > 0,
    decreases s.len(),
{
    if s.len() > 0 && is_space(s.last()) {
        if s.len() == 1 {
            assert(s[0] == s.last());
        } else {
            lemma_trimmed_end_ends(s.drop_last());
        }
    }
}

/// Trimming twice is trimming once.
pub proof fn law_trimmed_twice(s: Seq<char>)
    ensures
        trimmed(trimmed(s)) == trimmed(s),
{
    lemma_trimmed_ends(s);
    lemma_trimmed_already(trimmed(s));
}

// ---------------------------------------------------------------------------
// Conversions
// ---------------------------------------------------------------------------

/// `String::push` appends one character.
pub assume_specification[ String::push ](s: &mut String, c: char)
    ensures
        final(s)@ == old(s)@.push(c),
;

/// The characters of `s`.
pub fn chars_of(s: &str) -> (r: Vec<char>)
    ensures
        r@ == s@,
{
    let mut r: Vec<char> = Vec::new();
    for c in iter: s.chars()
        invariant
            r@ == s@.take(iter.index()),
            iter.seq() == s@,
    {
        r.push(c);
        assert(s@.take(iter.index()).push(c) == s@.take(iter.index() + 1));
    }
    r
}

/// The text that `s` spells.
pub fn string_of(s: &[char]) -> (r: String)
    ensures
        r@ == s@,
{
    let mut r = String::new();
    let mut i: usize = 0;
    while i < s.len()
        invariant
            i <= s.len(),
            r@ == s@.take(i as int),
        decreases s.len() - i,
    {
        r.push(s[i]);
        assert(s@.take(i as int).push(s@[i as int]) == s@.take(i + 1));
        i += 1;
    }
    assert(s@.take(s@.len() as int) == s@);
    r
}

// ---------------------------------------------------------------------------
// Operations on characters
// ---------------------------------------------------------------------------

/// Whether `c` is white space.
pub fn space(c: char) -> (r: bool)
    ensures
        r == is_space(c),
{
    ('\u{9}' <= c && c <= '\u{d}') || c == '\u{20}' || c == '\u{85}' || c == '\u{a0}' || c
        == '\u{1680}' || ('\u{2000}' <= c && c <= '\u{200a}') || c == '\u{2028}' || c == '\u{2029}'
        || c == '\u{202f}' || c == '\u{205f}' || c == '\u{3000}'
}

/// `c` in ASCII upper case.
pub fn to_upper(c: char) -> (r: char)
    ensures
        r == upper(c),
{
    if 'a' <= c && c <= 'z' {
        (c as u8 - 32) as char
    } else {
        c
    }
}

/// `c` in ASCII lower case.
pub fn to_lower(c: char) -> (r: char)
    ensures
        r == lower(c),
{
    if 'A' <= c && c <= 'Z' {
        (c as u8 + 32) as char
    } else {
        c
    }
}

// ---------------------------------------------------------------------------
// Operations on text
// ---------------------------------------------------------------------------

/// Whether `s` spells the text `t`.
pub fn spells(s: &[char], t: &str) -> (r: bool)
    ensures
        r == (s@ == t@),
{
    let w = chars_of(t);
    if s.len() != w.len() {
        return false;
    }
    starts_with(s, t)
}

/// Whether `s` begins with the text `t`.
pub fn starts_with(s: &[char], t: &str) -> (r: bool)
    ensures
        r == begins_with(s@, t@),
        s@.len() == t@.len() ==> r == (s@ == t@),
{
    let w = chars_of(t);
    assert(s@.take(s@.len() as int) == s@);
    if s.len() < w.len() {
        return false;
    }
    let mut i: usize = 0;
    while i < w.len()
        invariant
            i <= w.len() <= s.len(),
            w@ == t@,
            forall|j: int| 0 <= j < i ==> s@[j] == w@[j],
        decreases w.len() - i,
    {
        if s[i] != w[i] {
            assert(s@.take(t@.len() as int)[i as int] != t@[i as int]);
            return false;
        }
        i += 1;
    }
    assert(s@.take(t@.len() as int) == t@);
    true
}

/// `s` without the white space at its two ends.
pub fn trim(s: &[char]) -> (r: &[char])
    ensures
        r@ == trimmed(s@),
{
    let mut i: usize = 0;
    assert(s@.skip(0) == s@);
    while i < s.len() && space(s[i])
        invariant
            i <= s.len(),
            trimmed_start(s@) == trimmed_start(s@.skip(i as int)),
        decreases s.len() - i,
    {
        assert(s@.skip(i as int).drop_first() == s@.skip(i + 1));
        i += 1;
    }
    let mut j: usize = s.len();
    assert(s@.subrange(i as int, j as int) == s@.skip(i as int));
    while i < j && space(s[j - 1])
        invariant
            i <= j <= s.len(),
            trimmed(s@) == trimmed_end(s@.subrange(i as int, j as int)),
        decreases j,
    {
        assert(s@.subrange(i as int, j as int).drop_last() == s@.subrange(i as int, j - 1));
        j -= 1;
    }
    slice_subrange(s, i, j)
}

/// `s` with its ASCII letters in upper case.
pub fn to_uppercase(s: &[char]) -> (r: Vec<char>)
    ensures
        r@ == uppercase(s@),
{
    let mut r: Vec<char> = Vec::new();
    let mut i: usize = 0;
    while i < s.len()
        invariant
            i <= s.len(),
            r@ == uppercase(s@.take(i as int)),
        decreases s.len() - i,
    {
        r.push(to_upper(s[i]));
        assert(uppercase(s@.take(i + 1)) == uppercase(s@.take(i as int)).push(
            upper(s@[i as int]),
        ));
        i += 1;
    }
    assert(s@.take(s@.len() as int) == s@);
    r
}

/// `s` with its ASCII letters in lower case.
pub fn to_lowercase(s: &[char]) -> (r: Vec<char>)
    ensures
        r@ == lowercase(s@),
{
    let mut r: Vec<char> = Vec::new();
    let mut i: usize = 0;
    while i < s.len()
        invariant
            i <= s.len(),
            r@ == lowercase(s@.take(i as int)),
        decreases s.len() - i,
    {
        r.push(to_lower(s[i]));
        assert(lowercase(s@.take(i + 1)) == lowercase(s@.take(i as int)).push(
            lower(s@[i as int]),
        ));
        i += 1;
    }
    assert(s@.take(s@.len() as int) == s@);
    r
}

/// The position of the first `c` in `s`, or the length of `s`.
pub fn find(s: &[char], c: char) -> (r: usize)
    ensures
        r == position(s@, c),
        r <= s@.len(),
{
    let mut i: usize = 0;
    while i < s.len() && s[i] != c
        invariant
            i <= s.len(),
            forall|j: int| 0 <= j < i ==> s@[j] != c,
        decreases s.len() - i,
    {
        i += 1;
    }
    proof {
        lemma_position_is(s@, c, i as int);
    }
    i
}

/// The parts of `s` before and after its first `c`.
pub fn split_once(s: &[char], c: char) -> (r: Option<(&[char], &[char])>)
    ensures
        match r {
            Some((a, b)) => cut(s@, c) == Some((a@, b@)),
            None => cut(s@, c) is None,
        },
{
    let i: usize = find(s, c);
    if i < s.len() {
        let a = slice_subrange(s, 0, i);
        let b = slice_subrange(s, i + 1, s.len());
        assert(a@ == s@.take(i as int));
        assert(b@ == s@.skip(i + 1));
        Some((a, b))
    } else {
        None
    }
}

/// The parts of `s` between its occurrences of `c`.
pub fn split(s: &[char], c: char) -> (r: Vec<&[char]>)
    ensures
        views(r@) == pieces(s@, c),
{
    let mut r: Vec<&[char]> = Vec::new();
    let mut rest: &[char] = s;
    let mut i: usize = find(rest, c);
    assert(views(r@) + pieces(rest@, c) == pieces(s@, c));
    while i < rest.len()
        invariant
            i <= rest@.len(),
            i == position(rest@, c),
            views(r@) + pieces(rest@, c) == pieces(s@, c),
        decreases rest@.len(),
    {
        let ghost before = views(r@);
        let head = slice_subrange(rest, 0, i);
        let tail = slice_subrange(rest, i + 1, rest.len());
        r.push(head);
        assert(head@ == rest@.take(i as int));
        assert(tail@ == rest@.skip(i + 1));
        assert(views(r@) == before.push(head@));
        assert(views(r@) + pieces(tail@, c) == before + pieces(rest@, c));
        rest = tail;
        i = find(rest, c);
    }
    let ghost before = views(r@);
    r.push(rest);
    assert(views(r@) == before.push(rest@));
    assert(views(r@) == before + pieces(rest@, c));
    r
}

/// The lines of `s`.
pub fn lines(s: &[char]) -> (r: Vec<&[char]>)
    ensures
        views(r@) == lines_of(s@),
{
    let mut r: Vec<&[char]> = Vec::new();
    let mut rest: &[char] = s;
    assert(views(r@) + lines_of(rest@) == lines_of(s@));
    while rest.len() > 0
        invariant
            views(r@) + lines_of(rest@) == lines_of(s@),
        decreases rest@.len(),
    {
        let ghost before = views(r@);
        let i: usize = find(rest, '\n');
        if i < rest.len() {
            let whole = slice_subrange(rest, 0, i);
            let tail = slice_subrange(rest, i + 1, rest.len());
            assert(whole@ == rest@.take(i as int));
            assert(tail@ == rest@.skip(i + 1));
            let line = if i > 0 && whole[i - 1] == '\r' {
                slice_subrange(whole, 0, i - 1)
            } else {
                whole
            };
            assert(line@ == without_return(whole@));
            r.push(line);
            assert(views(r@) == before.push(line@));
            assert(views(r@) + lines_of(tail@) == before + lines_of(rest@));
            rest = tail;
        } else {
            let tail = slice_subrange(rest, i, i);
            r.push(rest);
            assert(views(r@) == before.push(rest@));
            assert(views(r@) + lines_of(tail@) == before + lines_of(rest@));
            rest = tail;
        }
    }
    assert(views(r@) + lines_of(rest@) == views(r@));
    r
}

// ---------------------------------------------------------------------------
// Laws
// ---------------------------------------------------------------------------

/// White space is these twenty-five characters and no others.
pub proof fn law_space_characters(c: char)
    ensures
        is_space(c) <==> seq![
            '\t', '\n', '\u{b}', '\u{c}', '\r', ' ', '\u{85}', '\u{a0}', '\u{1680}', '\u{2000}',
            '\u{2001}', '\u{2002}', '\u{2003}', '\u{2004}', '\u{2005}', '\u{2006}', '\u{2007}',
            '\u{2008}', '\u{2009}', '\u{200a}', '\u{2028}', '\u{2029}', '\u{202f}', '\u{205f}',
            '\u{3000}',
        ].contains(c),
{
    let all = seq![
        '\t', '\n', '\u{b}', '\u{c}', '\r', ' ', '\u{85}', '\u{a0}', '\u{1680}', '\u{2000}',
        '\u{2001}', '\u{2002}', '\u{2003}', '\u{2004}', '\u{2005}', '\u{2006}', '\u{2007}',
        '\u{2008}', '\u{2009}', '\u{200a}', '\u{2028}', '\u{2029}', '\u{202f}', '\u{205f}',
        '\u{3000}',
    ];
    if is_space(c) {
        let i = if c <= '\r' {
            c as int - 9
        } else if c == ' ' {
            5
        } else if c == '\u{85}' {
            6
        } else if c == '\u{a0}' {
            7
        } else if c == '\u{1680}' {
            8
        } else if c <= '\u{200a}' {
            c as int - 0x2000 + 9
        } else if c == '\u{2028}' {
            20
        } else if c == '\u{2029}' {
            21
        } else if c == '\u{202f}' {
            22
        } else if c == '\u{205f}' {
            23
        } else {
            24
        };
        assert(all[i] == c);
    }
}

/// Upper and lower case differ by 32 code points on the ASCII letters, and
/// nowhere else.
pub proof fn law_ascii_case(c: char, k: int)
    ensures
        0 <= k < 26 ==> upper((97 + k) as char) == (65 + k) as char && lower((65 + k) as char) == (97
            + k) as char,
        !(97 <= c as int && c as int <= 122) ==> upper(c) == c,
        !(65 <= c as int && c as int <= 90) ==> lower(c) == c,
        lower(upper(c)) == lower(c),
        upper(lower(c)) == upper(c),
{
}

/// A change of case goes character by character.
pub proof fn law_case_by_character(s: Seq<char>, i: int)
    ensures
        uppercase(s).len() == s.len(),
        0 <= i < s.len() ==> uppercase(s)[i] == upper(s[i]),
        lowercase(s).len() == s.len(),
        0 <= i < s.len() ==> lowercase(s)[i] == lower(s[i]),
{
}

/// Where the first character is that is not white space.
proof fn lemma_start_at(s: Seq<char>) -> (i: int)
    ensures
        0 <= i <= s.len(),
        trimmed_start(s) == s.skip(i),
        forall|k: int| 0 <= k < i ==> is_space(#[trigger] s[k]),
        i < s.len() ==> !is_space(s[i]),
    decreases s.len(),
{
    if s.len() > 0 && is_space(s[0]) {
        let rest = s.drop_first();
        let i = lemma_start_at(rest);
        assert(rest.skip(i) == s.skip(i + 1));
        assert forall|k: int| 0 <= k < i + 1 implies is_space(#[trigger] s[k]) by {
            if k > 0 {
                assert(rest[k - 1] == s[k]);
            }
        }
        i + 1
    } else {
        assert(s.skip(0) == s);
        0
    }
}

/// Where the white space at the end begins.
proof fn lemma_end_at(s: Seq<char>) -> (j: int)
    ensures
        0 <= j <= s.len(),
        trimmed_end(s) == s.take(j),
        forall|k: int| j <= k < s.len() ==> is_space(#[trigger] s[k]),
        0 < j ==> !is_space(s[j - 1]),
    decreases s.len(),
{
    if s.len() > 0 && is_space(s.last()) {
        let rest = s.drop_last();
        let j = lemma_end_at(rest);
        assert(rest.take(j) == s.take(j));
        assert forall|k: int| j <= k < s.len() implies is_space(#[trigger] s[k]) by {
            if k < rest.len() {
                assert(rest[k] == s[k]);
            }
        }
        j
    } else {
        assert(s.take(s.len() as int) == s);
        s.len() as int
    }
}

/// Trimming takes away white space only, and all of it, at the two ends.
pub proof fn law_trimmed_part(s: Seq<char>)
    ensures
        exists|i: int, j: int|
            {
                &&& 0 <= i <= j <= s.len()
                &&& trimmed(s) == #[trigger] s.subrange(i, j)
                &&& forall|k: int| 0 <= k < i || j <= k < s.len() ==> is_space(#[trigger] s[k])
                &&& i < j ==> !is_space(s[i]) && !is_space(s[j - 1])
            },
{
    let i = lemma_start_at(s);
    let t = s.skip(i);
    let n = lemma_end_at(t);
    let j = i + n;
    assert(t.take(n) == s.subrange(i, j));
    assert forall|k: int| 0 <= k < i || j <= k < s.len() implies is_space(#[trigger] s[k]) by {
        if j <= k {
            assert(t[k - i] == s[k]);
        }
    }
    if i < j {
        assert(t[n - 1] == s[j - 1]);
    }
}

/// White space around a text that has none at its ends is all that trims away.
pub proof fn law_trimmed_parts(before: Seq<char>, s: Seq<char>, after: Seq<char>)
    requires
        forall|k: int| 0 <= k < before.len() ==> is_space(#[trigger] before[k]),
        forall|k: int| 0 <= k < after.len() ==> is_space(#[trigger] after[k]),
        s.len() > 0 ==> !is_space(s[0]) && !is_space(s.last()),
    ensures
        trimmed(before + s + after) == s,
{
    let w = before + s + after;
    law_trimmed_part(w);
    let (i, j) = choose|i: int, j: int|
        {
            &&& 0 <= i <= j <= w.len()
            &&& trimmed(w) == #[trigger] w.subrange(i, j)
            &&& forall|k: int| 0 <= k < i || j <= k < w.len() ==> is_space(#[trigger] w[k])
            &&& i < j ==> !is_space(w[i]) && !is_space(w[j - 1])
        };
    let (b, e) = (before.len() as int, (before.len() + s.len()) as int);
    assert forall|k: int| 0 <= k < b implies is_space(#[trigger] w[k]) by {
        assert(w[k] == before[k]);
    }
    assert forall|k: int| e <= k < w.len() implies is_space(#[trigger] w[k]) by {
        assert(w[k] == after[k - e]);
    }
    if s.len() > 0 {
        assert(w[b] == s[0] && w[e - 1] == s.last());
        assert(i == b && j == e);
        assert(w.subrange(b, e) == s);
    } else {
        assert(i == j);
        assert(w.subrange(i, j) == s);
    }
}

/// A text begins with what it can be split off from.
pub proof fn law_begins(prefix: Seq<char>, rest: Seq<char>, s: Seq<char>)
    ensures
        begins_with(prefix + rest, prefix),
        begins_with(s, prefix) ==> s == prefix + s.skip(prefix.len() as int),
{
    assert((prefix + rest).take(prefix.len() as int) == prefix);
    if begins_with(s, prefix) {
        assert(s.take(prefix.len() as int) + s.skip(prefix.len() as int) == s);
    }
}

/// A text without `c` before its first `c`.
proof fn lemma_first_of(a: Seq<char>, b: Seq<char>, c: char)
    requires
        !a.contains(c),
    ensures
        position(a, c) == a.len(),
        position(a + seq![c] + b, c) == a.len(),
        (a + seq![c] + b).take(a.len() as int) == a,
        (a + seq![c] + b).skip(a.len() as int + 1) == b,
{
    let s = a + seq![c] + b;
    assert forall|j: int| 0 <= j < a.len() implies a[j] != c && s[j] != c by {
        assert(a.contains(a[j]));
        assert(s[j] == a[j]);
    }
    lemma_position_is(a, c, a.len() as int);
    lemma_position_is(s, c, a.len() as int);
    assert(s.take(a.len() as int) == a);
    assert(s.skip(a.len() as int + 1) == b);
}

/// Cutting and splitting happen at the first occurrence, and leave it out.
pub proof fn law_split_at_first(a: Seq<char>, b: Seq<char>, c: char)
    requires
        !a.contains(c),
    ensures
        cut(a, c) is None,
        cut(a + seq![c] + b, c) == Some((a, b)),
        pieces(a, c) == seq![a],
        pieces(a + seq![c] + b, c) == seq![a] + pieces(b, c),
{
    lemma_first_of(a, b, c);
}

/// A text may be split on either side of any occurrence.
pub proof fn law_pieces_join(a: Seq<char>, b: Seq<char>, c: char)
    ensures
        pieces(a + seq![c] + b, c) == pieces(a, c) + pieces(b, c),
    decreases a.len(),
{
    let i = position(a, c);
    lemma_position(a, c);
    if i < a.len() {
        let (first, rest) = (a.take(i), a.skip(i + 1));
        assert(!first.contains(c)) by {
            if first.contains(c) {
                let j = first.index_of(c);
                assert(first[j] == a[j]);
            }
        }
        assert(a == first + seq![c] + rest);
        assert(a + seq![c] + b == first + seq![c] + (rest + seq![c] + b));
        law_split_at_first(first, rest, c);
        law_split_at_first(first, rest + seq![c] + b, c);
        law_pieces_join(rest, b, c);
        assert(seq![first] + (pieces(rest, c) + pieces(b, c)) == (seq![first] + pieces(rest, c))
            + pieces(b, c));
    } else {
        assert(!a.contains(c)) by {
            if a.contains(c) {
                assert(a[a.index_of(c)] == c);
            }
        }
        law_split_at_first(a, b, c);
    }
}

/// A line ends at the first line feed, with or without one carriage return
/// before it, or with the text.
pub proof fn law_first_of_lines(a: Seq<char>, b: Seq<char>)
    requires
        !a.contains('\n'),
    ensures
        lines_of(Seq::<char>::empty()) == Seq::<Seq<char>>::empty(),
        a.len() > 0 ==> lines_of(a) == seq![a],
        lines_of(a + seq!['\r', '\n'] + b) == seq![a] + lines_of(b),
        a.len() == 0 || a.last() != '\r' ==> lines_of(a + seq!['\n'] + b) == seq![a] + lines_of(b),
        first_line(a) == a,
        first_line(a + seq!['\n'] + b) == a,
{
    lemma_first_of(a, b, '\n');
    let r = a.push('\r');
    assert(!r.contains('\n')) by {
        if r.contains('\n') {
            let j = r.index_of('\n');
            assert(r[j] == a[j]);
            assert(a.contains(a[j]));
        }
    }
    lemma_first_of(r, b, '\n');
    assert(r + seq!['\n'] + b == a + seq!['\r', '\n'] + b);
    assert(without_return(r) == a);
    assert(a.take(a.len() as int) == a);
}

/// Parts are seen one by one, in their order.
pub proof fn law_views(parts: Seq<&[char]>, i: int)
    ensures
        views(parts).len() == parts.len(),
        0 <= i < parts.len() ==> views(parts)[i] == parts[i]@,
{
}

} // verus!
