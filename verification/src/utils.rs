//! Shared parsing primitives: the typed parse failure, character
//! classes, runs of characters, literal tags, and bounded decimal
//! numerals.  Every field parser of the crate is built from these.

use vstd::prelude::*;

verus! {

/// The two failure classes of the format: a literal or character class
/// that did not match where it was required, and a syntactically valid
/// numeral whose value lies outside its domain.
#[derive(Debug, PartialEq, Eq, Clone, Copy)]
pub enum ErrorKind {
    /// A required literal or character class did not match.
    Syntax,
    /// A numeral parsed but its value is out of range.
    Bounds,
}

/// A typed parse failure: the failure class and the character offset
/// into the parsed text at which the parser gave up.  No partial
/// result accompanies it.
#[derive(Debug, PartialEq, Eq, Clone, Copy)]
pub struct ParseError {
    pub kind: ErrorKind,
    pub offset: usize,
}

/// A type read off the input by matching one of a closed set of
/// literal tags.  Each implementation states its own tag grammar as
/// `spec_parse`, and its `parse` is held to it.
pub trait Parseable: Sized {
    /// The tag grammar: the value whose tag stands at `pos` of `s`,
    /// and the position after it.
    spec fn spec_parse(s: Seq<char>, pos: int) -> Option<(Self, int)>;

    /// Match a tag at the head of `s`, returning the rest of the
    /// input and the value.
    fn parse(s: &str) -> (r: Result<(&str, Self), ParseError>)
        ensures
            match r {
                Ok((rest, v)) => Self::spec_parse(s@, 0) matches Some((v2, e)) && v2 == v && 0 <= e
                    <= s@.len() && rest@ == s@.subrange(e, s@.len() as int),
                Err(_) => Self::spec_parse(s@, 0) is None,
            },
    ;
}

// ---------------------------------------------------------------------
// Character classes
// ---------------------------------------------------------------------

pub open spec fn is_digit_char(c: char) -> bool {
    '0' <= c && c <= '9'
}

pub open spec fn is_space_char(c: char) -> bool {
    c == ' ' || c == '\t' || c == '\n' || c == '\r'
}

pub open spec fn is_alpha_char(c: char) -> bool {
    ('A' <= c && c <= 'Z') || ('a' <= c && c <= 'z')
}

/// Numeric value of a decimal digit character.
pub open spec fn digit_value(c: char) -> int {
    c as u32 - '0' as u32
}

/// Every character of `s` in `[from, to)` is a decimal digit.
pub open spec fn digits_at(s: Seq<char>, from: int, to: int) -> bool {
    forall|k: int| from <= k < to ==> is_digit_char(#[trigger] s[k])
}

pub fn char_is_digit(c: char) -> (b: bool)
    ensures
        b == is_digit_char(c),
{
    '0' <= c && c <= '9'
}

pub fn char_is_space(c: char) -> (b: bool)
    ensures
        b == is_space_char(c),
{
    c == ' ' || c == '\t' || c == '\n' || c == '\r'
}

pub fn char_is_alpha(c: char) -> (b: bool)
    ensures
        b == is_alpha_char(c),
{
    ('A' <= c && c <= 'Z') || ('a' <= c && c <= 'z')
}

// ---------------------------------------------------------------------
// Runs of characters
// ---------------------------------------------------------------------

/// First position at or after `pos` that does not hold a whitespace
/// character (or the end of `s`).
pub open spec fn ws_end(s: Seq<char>, pos: int) -> int
    decreases s.len() - pos when 0 <= pos <= s.len()
{
    if pos < 0 || pos >= s.len() || !is_space_char(s[pos]) {
        pos
    } else {
        ws_end(s, pos + 1)
    }
}

/// First position at or after `pos` that does not hold a decimal digit
/// (or the end of `s`).
pub open spec fn digit_run_end(s: Seq<char>, pos: int) -> int
    decreases s.len() - pos when 0 <= pos <= s.len()
{
    if pos < 0 || pos >= s.len() || !is_digit_char(s[pos]) {
        pos
    } else {
        digit_run_end(s, pos + 1)
    }
}

/// First position at or after `pos` that does not hold an ASCII letter
/// (or the end of `s`).
pub open spec fn alpha_run_end(s: Seq<char>, pos: int) -> int
    decreases s.len() - pos when 0 <= pos <= s.len()
{
    if pos < 0 || pos >= s.len() || !is_alpha_char(s[pos]) {
        pos
    } else {
        alpha_run_end(s, pos + 1)
    }
}

pub proof fn lemma_ws_end(s: Seq<char>, pos: int)
    requires
        0 <= pos <= s.len(),
    ensures
        pos <= ws_end(s, pos) <= s.len(),
        forall|k: int| pos <= k < ws_end(s, pos) ==> is_space_char(#[trigger] s[k]),
        ws_end(s, pos) == s.len() || !is_space_char(s[ws_end(s, pos)]),
    decreases s.len() - pos,
{
    if pos < s.len() && is_space_char(s[pos]) {
        lemma_ws_end(s, pos + 1);
    }
}

/// `ws_end` lands exactly where the whitespace stops.
pub proof fn lemma_ws_end_is(s: Seq<char>, pos: int, e: int)
    requires
        0 <= pos <= e <= s.len(),
        forall|k: int| pos <= k < e ==> is_space_char(#[trigger] s[k]),
        e == s.len() || !is_space_char(s[e]),
    ensures
        ws_end(s, pos) == e,
    decreases e - pos,
{
    if pos < e {
        lemma_ws_end_is(s, pos + 1, e);
    }
}

pub proof fn lemma_digit_run_end(s: Seq<char>, pos: int)
    requires
        0 <= pos <= s.len(),
    ensures
        pos <= digit_run_end(s, pos) <= s.len(),
        digits_at(s, pos, digit_run_end(s, pos)),
        digit_run_end(s, pos) == s.len() || !is_digit_char(s[digit_run_end(s, pos)]),
    decreases s.len() - pos,
{
    if pos < s.len() && is_digit_char(s[pos]) {
        lemma_digit_run_end(s, pos + 1);
    }
}

/// `digit_run_end` lands exactly where the digits stop.
pub proof fn lemma_digit_run_end_is(s: Seq<char>, pos: int, e: int)
    requires
        0 <= pos <= e <= s.len(),
        digits_at(s, pos, e),
        e == s.len() || !is_digit_char(s[e]),
    ensures
        digit_run_end(s, pos) == e,
    decreases e - pos,
{
    if pos < e {
        lemma_digit_run_end_is(s, pos + 1, e);
    }
}

/// A digit run reaches at least as far as any stretch of digits.
pub proof fn lemma_digit_run_end_at_least(s: Seq<char>, pos: int, e: int)
    requires
        0 <= pos <= e <= s.len(),
        digits_at(s, pos, e),
    ensures
        digit_run_end(s, pos) >= e,
    decreases e - pos,
{
    if pos < e {
        assert(is_digit_char(s[pos]));
        lemma_digit_run_end_at_least(s, pos + 1, e);
    } else {
        lemma_digit_run_end(s, pos);
    }
}

pub proof fn lemma_alpha_run_end(s: Seq<char>, pos: int)
    requires
        0 <= pos <= s.len(),
    ensures
        pos <= alpha_run_end(s, pos) <= s.len(),
        forall|k: int| pos <= k < alpha_run_end(s, pos) ==> is_alpha_char(#[trigger] s[k]),
        alpha_run_end(s, pos) == s.len() || !is_alpha_char(s[alpha_run_end(s, pos)]),
    decreases s.len() - pos,
{
    if pos < s.len() && is_alpha_char(s[pos]) {
        lemma_alpha_run_end(s, pos + 1);
    }
}

/// `alpha_run_end` lands exactly where the letters stop.
pub proof fn lemma_alpha_run_end_is(s: Seq<char>, pos: int, e: int)
    requires
        0 <= pos <= e <= s.len(),
        forall|k: int| pos <= k < e ==> is_alpha_char(#[trigger] s[k]),
        e == s.len() || !is_alpha_char(s[e]),
    ensures
        alpha_run_end(s, pos) == e,
    decreases e - pos,
{
    if pos < e {
        lemma_alpha_run_end_is(s, pos + 1, e);
    }
}

pub fn skip_ws(s: &str, pos: usize) -> (r: usize)
    requires
        pos <= s@.len(),
    ensures
        r == ws_end(s@, pos as int),
        pos <= r <= s@.len(),
{
    let n = s.unicode_len();
    let mut i = pos;
    while i < n && char_is_space(s.get_char(i))
        invariant
            pos <= i <= n,
            n == s@.len(),
            ws_end(s@, pos as int) == ws_end(s@, i as int),
        decreases n - i,
    {
        i = i + 1;
    }
    proof {
        lemma_ws_end(s@, i as int);
    }
    i
}

pub fn scan_digits(s: &str, pos: usize) -> (r: usize)
    requires
        pos <= s@.len(),
    ensures
        r == digit_run_end(s@, pos as int),
        pos <= r <= s@.len(),
{
    let n = s.unicode_len();
    let mut i = pos;
    while i < n && char_is_digit(s.get_char(i))
        invariant
            pos <= i <= n,
            n == s@.len(),
            digit_run_end(s@, pos as int) == digit_run_end(s@, i as int),
        decreases n - i,
    {
        i = i + 1;
    }
    proof {
        lemma_digit_run_end(s@, i as int);
    }
    i
}

pub fn scan_alpha(s: &str, pos: usize) -> (r: usize)
    requires
        pos <= s@.len(),
    ensures
        r == alpha_run_end(s@, pos as int),
        pos <= r <= s@.len(),
{
    let n = s.unicode_len();
    let mut i = pos;
    while i < n && char_is_alpha(s.get_char(i))
        invariant
            pos <= i <= n,
            n == s@.len(),
            alpha_run_end(s@, pos as int) == alpha_run_end(s@, i as int),
        decreases n - i,
    {
        i = i + 1;
    }
    proof {
        lemma_alpha_run_end(s@, i as int);
    }
    i
}

/// The tail of `s` from character position `pos` on.
pub fn rest_of(s: &str, pos: usize) -> (r: &str)
    requires
        pos <= s@.len(),
    ensures
        r@ == s@.subrange(pos as int, s@.len() as int),
{
    let n = s.unicode_len();
    s.substring_char(pos, n)
}

// ---------------------------------------------------------------------
// Literal tags
// ---------------------------------------------------------------------

/// The literal `lit` stands in `s` at position `pos`.
pub open spec fn lit_at(s: Seq<char>, pos: int, lit: Seq<char>) -> bool {
    &&& 0 <= pos
    &&& pos + lit.len() <= s.len()
    &&& forall|k: int| 0 <= k < lit.len() ==> s[pos + k] == #[trigger] lit[k]
}

/// The single character `c` stands in `s` at position `pos`.
pub open spec fn lit1_at(s: Seq<char>, pos: int, c: char) -> bool {
    0 <= pos && pos + 1 <= s.len() && s[pos] == c
}

/// The two characters `c0 c1` stand in `s` at position `pos`.
pub open spec fn lit2_at(s: Seq<char>, pos: int, c0: char, c1: char) -> bool {
    0 <= pos && pos + 2 <= s.len() && s[pos] == c0 && s[pos + 1] == c1
}

pub fn match1(s: &str, pos: usize, c: char) -> (b: bool)
    ensures
        b == lit1_at(s@, pos as int, c),
{
    let n = s.unicode_len();
    pos < n && s.get_char(pos) == c
}

pub fn match2(s: &str, pos: usize, c0: char, c1: char) -> (b: bool)
    ensures
        b == lit2_at(s@, pos as int, c0, c1),
{
    let n = s.unicode_len();
    pos < n && pos + 1 < n && s.get_char(pos) == c0 && s.get_char(pos + 1) == c1
}

/// A one-character literal stands at `pos` exactly when that
/// character does.
pub proof fn lemma_lit1(s: Seq<char>, pos: int, c: char)
    ensures
        lit_at(s, pos, seq![c]) <==> (0 <= pos && pos + 1 <= s.len() && s[pos] == c),
{
    let t = seq![c];
    assert(t[0] == c);
    if 0 <= pos && pos + 1 <= s.len() && s[pos] == c {
        assert forall|k: int| 0 <= k < 1 implies s[pos + k] == #[trigger] t[k] by {
            assert(t[0] == c);
        }
    }
}

/// A two-character literal stands at `pos` exactly when its two
/// characters do.
pub proof fn lemma_lit2(s: Seq<char>, pos: int, c0: char, c1: char)
    ensures
        lit_at(s, pos, seq![c0, c1]) <==> (0 <= pos && pos + 2 <= s.len() && s[pos] == c0 && s[pos
            + 1] == c1),
{
    let t = seq![c0, c1];
    assert(t[0] == c0 && t[1] == c1);
    if 0 <= pos && pos + 2 <= s.len() && s[pos] == c0 && s[pos + 1] == c1 {
        assert forall|k: int| 0 <= k < 2 implies s[pos + k] == #[trigger] t[k] by {
            assert(t[0] == c0 && t[1] == c1);
        }
    }
}

/// Whether the characters `lit` stand in `s` at position `pos`;
/// the one tag matcher every categorical field parser goes through.
pub fn match_lit(s: &str, pos: usize, lit: &[char]) -> (b: bool)
    ensures
        b == lit_at(s@, pos as int, lit@),
{
    let n = s.unicode_len();
    if lit.len() > n || pos > n - lit.len() {
        return false;
    }
    let mut k: usize = 0;
    while k < lit.len()
        invariant
            0 <= k <= lit@.len(),
            pos + lit@.len() <= n,
            n == s@.len(),
            forall|j: int| 0 <= j < k ==> s@[pos + j] == #[trigger] lit@[j],
        decreases lit@.len() - k,
    {
        if s.get_char(pos + k) != lit[k] {
            return false;
        }
        k = k + 1;
    }
    true
}

/// `c` equals the upper-case letter `u`, ignoring ASCII case.
pub open spec fn char_eq_ci(c: char, u: char) -> bool {
    c == u || ('A' <= u && u <= 'Z' && c as u32 == u as u32 + 32)
}

/// `tok` equals the upper-case literal `lit`, ignoring ASCII case.
pub open spec fn eq_ci(tok: Seq<char>, lit: Seq<char>) -> bool {
    tok.len() == lit.len() && forall|k: int|
        0 <= k < lit.len() ==> char_eq_ci(tok[k], #[trigger] lit[k])
}

/// Whether `s` in `[from, to)` equals the upper-case literal `lit`,
/// ignoring ASCII case.
pub fn match_ci(s: &str, from: usize, to: usize, lit: &[char]) -> (b: bool)
    requires
        from <= to <= s@.len(),
    ensures
        b == eq_ci(s@.subrange(from as int, to as int), lit@),
{
    let ghost tok = s@.subrange(from as int, to as int);
    if to - from != lit.len() {
        return false;
    }
    let mut k: usize = 0;
    while k < lit.len()
        invariant
            0 <= k <= lit@.len(),
            from + lit@.len() == to <= s@.len(),
            tok == s@.subrange(from as int, to as int),
            forall|j: int| 0 <= j < k ==> char_eq_ci(tok[j], #[trigger] lit@[j]),
        decreases lit@.len() - k,
    {
        let c = s.get_char(from + k);
        let u = lit[k];
        assert(c == tok[k as int]);
        if !(c == u || ('A' <= u && u <= 'Z' && c as u32 == u as u32 + 32)) {
            return false;
        }
        k = k + 1;
    }
    true
}

// ---------------------------------------------------------------------
// Decimal numerals
// ---------------------------------------------------------------------

/// Value of a run of decimal digit characters, most significant first.
pub open spec fn digits_value(s: Seq<char>) -> int
    decreases s.len(),
{
    if s.len() == 0 {
        0
    } else {
        10 * digits_value(s.drop_last()) + digit_value(s.last())
    }
}

pub proof fn lemma_digits_value_nonneg(s: Seq<char>)
    requires
        digits_at(s, 0, s.len() as int),
    ensures
        digits_value(s) >= 0,
    decreases s.len(),
{
    if s.len() > 0 {
        assert(digits_at(s.drop_last(), 0, s.len() - 1));
        lemma_digits_value_nonneg(s.drop_last());
    }
}

/// Extending a digit run to the right cannot shrink its value.
pub proof fn lemma_digits_value_extend(s: Seq<char>, i: int, j: int, k: int)
    requires
        0 <= i <= j <= k <= s.len(),
        digits_at(s, i, k),
    ensures
        digits_value(s.subrange(i, j)) <= digits_value(s.subrange(i, k)),
    decreases k - j,
{
    if j < k {
        let a = s.subrange(i, k - 1);
        let b = s.subrange(i, k);
        assert(a =~= b.drop_last());
        assert(digits_at(a, 0, a.len() as int));
        lemma_digits_value_nonneg(a);
        assert(digits_value(b) == 10 * digits_value(a) + digit_value(b.last()));
        lemma_digits_value_extend(s, i, j, k - 1);
    }
}

/// Evaluate the digits of `s` in `[from, to)` as a decimal numeral,
/// failing exactly when the value exceeds `cap`.  An empty run
/// evaluates to zero.
pub fn eval_digits(s: &str, from: usize, to: usize, cap: u64) -> (r: Option<u64>)
    requires
        from <= to <= s@.len(),
        digits_at(s@, from as int, to as int),
        cap <= 0xFFFF_FFFF,
    ensures
        match r {
            Some(v) => v == digits_value(s@.subrange(from as int, to as int)) && v <= cap,
            None => digits_value(s@.subrange(from as int, to as int)) > cap,
        },
{
    let mut i = from;
    let mut acc: u64 = 0;
    proof {
        assert(s@.subrange(from as int, from as int) =~= Seq::<char>::empty());
    }
    while i < to
        invariant
            from <= i <= to <= s@.len(),
            digits_at(s@, from as int, to as int),
            cap <= 0xFFFF_FFFF,
            acc <= cap,
            acc == digits_value(s@.subrange(from as int, i as int)),
        decreases to - i,
    {
        let c = s.get_char(i);
        assert(is_digit_char(c));
        let d: u64 = (c as u32 - '0' as u32) as u64;
        let next: u64 = acc * 10 + d;
        proof {
            let a = s@.subrange(from as int, i as int);
            let b = s@.subrange(from as int, i + 1);
            assert(a =~= b.drop_last());
            assert(digits_value(b) == 10 * digits_value(a) + digit_value(b.last()));
        }
        if next > cap {
            proof {
                lemma_digits_value_extend(s@, from as int, i + 1, to as int);
            }
            return None;
        }
        acc = next;
        i = i + 1;
    }
    Some(acc)
}

// ---------------------------------------------------------------------
// Canonical decimal text
// ---------------------------------------------------------------------

/// The decimal digit character for `d`.
pub open spec fn digit_char(d: int) -> char {
    if d == 0 {
        '0'
    } else if d == 1 {
        '1'
    } else if d == 2 {
        '2'
    } else if d == 3 {
        '3'
    } else if d == 4 {
        '4'
    } else if d == 5 {
        '5'
    } else if d == 6 {
        '6'
    } else if d == 7 {
        '7'
    } else if d == 8 {
        '8'
    } else {
        '9'
    }
}

/// Minimal decimal text of a nonnegative number.
pub open spec fn dec(n: int) -> Seq<char>
    decreases n when n >= 0
{
    if n < 10 {
        seq![digit_char(n)]
    } else {
        dec(n / 10).push(digit_char(n % 10))
    }
}

/// Decimal text of `n`, zero-padded to two digits.
pub open spec fn pad2(n: int) -> Seq<char> {
    if 0 <= n < 10 {
        seq!['0'] + dec(n)
    } else {
        dec(n)
    }
}

/// Decimal text of `n`, zero-padded to three digits.
pub open spec fn pad3(n: int) -> Seq<char> {
    if 0 <= n < 10 {
        seq!['0', '0'] + dec(n)
    } else if 10 <= n < 100 {
        seq!['0'] + dec(n)
    } else {
        dec(n)
    }
}

/// The canonical decimal text is a nonempty digit run that evaluates
/// back to its number.
pub proof fn lemma_dec(n: int)
    requires
        n >= 0,
    ensures
        dec(n).len() >= 1,
        digits_at(dec(n), 0, dec(n).len() as int),
        digits_value(dec(n)) == n,
    decreases n,
{
    if n < 10 {
        assert(digits_value(dec(n)) == 10 * digits_value(Seq::<char>::empty()) + digit_value(
            digit_char(n),
        )) by {
            assert(dec(n).drop_last() =~= Seq::<char>::empty());
        }
    } else {
        vstd::arithmetic::div_mod::lemma_div_is_ordered_by_denominator(n, 1, 10);
        vstd::arithmetic::div_mod::lemma_fundamental_div_mod(n, 10);
        lemma_dec(n / 10);
        assert(dec(n).drop_last() =~= dec(n / 10));
        assert(dec(n).last() == digit_char(n % 10));
        assert(0 <= n % 10 < 10);
        assert(digits_value(dec(n)) == 10 * (n / 10) + (n % 10));
    }
}

/// Value of a one-digit text.
pub proof fn lemma_digits_value1(a: char)
    ensures
        digits_value(seq![a]) == digit_value(a),
{
    assert(seq![a].drop_last() =~= Seq::<char>::empty());
    assert(digits_value(Seq::<char>::empty()) == 0);
    assert(seq![a].last() == a);
}

/// Value of a two-digit text.
pub proof fn lemma_digits_value2(a: char, b: char)
    ensures
        digits_value(seq![a, b]) == 10 * digit_value(a) + digit_value(b),
{
    assert(seq![a, b].drop_last() =~= seq![a]);
    assert(seq![a, b].last() == b);
    lemma_digits_value1(a);
}

/// Value of a three-digit text.
pub proof fn lemma_digits_value3(a: char, b: char, c: char)
    ensures
        digits_value(seq![a, b, c]) == 100 * digit_value(a) + 10 * digit_value(b) + digit_value(c),
{
    assert(seq![a, b, c].drop_last() =~= seq![a, b]);
    assert(seq![a, b, c].last() == c);
    lemma_digits_value2(a, b);
}

pub proof fn lemma_pad2(n: int)
    requires
        0 <= n <= 99,
    ensures
        pad2(n).len() == 2,
        digits_at(pad2(n), 0, 2),
        digits_value(pad2(n)) == n,
{
    lemma_dec(n);
    if n < 10 {
        assert(pad2(n) =~= seq!['0', digit_char(n)]);
        lemma_digits_value2('0', digit_char(n));
    } else {
        assert(dec(n).len() == 2) by {
            assert(dec(n / 10).len() == 1) by {
                assert(n / 10 < 10);
            }
        }
    }
}

pub proof fn lemma_pad3(n: int)
    requires
        0 <= n <= 999,
    ensures
        pad3(n).len() == 3,
        digits_at(pad3(n), 0, 3),
        digits_value(pad3(n)) == n,
{
    lemma_dec(n);
    if n < 10 {
        assert(pad3(n) =~= seq!['0', '0', digit_char(n)]);
        lemma_digits_value3('0', '0', digit_char(n));
    } else if n < 100 {
        assert(dec(n).len() == 2) by {
            assert(dec(n / 10).len() == 1) by {
                assert(n / 10 < 10);
            }
        }
        assert(dec(n) =~= seq![dec(n)[0], dec(n)[1]]);
        lemma_digits_value2(dec(n)[0], dec(n)[1]);
        assert(pad3(n) =~= seq!['0', dec(n)[0], dec(n)[1]]);
        lemma_digits_value3('0', dec(n)[0], dec(n)[1]);
    } else {
        assert(dec(n).len() == 3) by {
            assert(10 <= n / 10 <= 99) by {
                vstd::arithmetic::div_mod::lemma_fundamental_div_mod(n, 10);
            }
            assert(dec(n / 10).len() == 2) by {
                assert(dec((n / 10) / 10).len() == 1) by {
                    assert((n / 10) / 10 < 10);
                }
            }
        }
    }
}

/// A stretch of `s` equal to a concatenation splits into stretches
/// equal to the two parts.
pub proof fn lemma_split_at(s: Seq<char>, q: int, c1: Seq<char>, c2: Seq<char>)
    requires
        0 <= q,
        q + c1.len() + c2.len() <= s.len(),
        s.subrange(q, q + c1.len() + c2.len()) == c1 + c2,
    ensures
        s.subrange(q, q + c1.len()) == c1,
        s.subrange(q + c1.len(), q + c1.len() + c2.len()) == c2,
{
    let whole = s.subrange(q, q + c1.len() + c2.len());
    assert(s.subrange(q, q + c1.len()) =~= c1) by {
        assert(forall|k: int|
            0 <= k < c1.len() ==> s.subrange(q, q + c1.len())[k] == whole[k] && whole[k]
                == #[trigger] c1[k]);
    }
    assert(s.subrange(q + c1.len(), q + c1.len() + c2.len()) =~= c2) by {
        assert(forall|k: int|
            0 <= k < c2.len() ==> s.subrange(q + c1.len(), q + c1.len() + c2.len())[k] == whole[k
                + c1.len()] && whole[k + c1.len()] == #[trigger] c2[k]);
    }
}

/// Digits of a stretch seen through its subrange are digits of `s`.
pub proof fn lemma_digits_at_transfer(s: Seq<char>, u: int, v: int)
    requires
        0 <= u <= v <= s.len(),
        digits_at(s.subrange(u, v), 0, v - u),
    ensures
        digits_at(s, u, v),
{
    assert forall|k: int| u <= k < v implies is_digit_char(#[trigger] s[k]) by {
        assert(s.subrange(u, v)[k - u] == s[k]);
        assert(is_digit_char(s.subrange(u, v)[k - u]));
    }
}

/// A digit run of `n` digits is worth less than `10^n`; stated for
/// the run lengths the fixed-width fields use.
pub proof fn lemma_digits_value_upper(s: Seq<char>)
    requires
        digits_at(s, 0, s.len() as int),
    ensures
        s.len() == 1 ==> digits_value(s) <= 9,
        s.len() == 2 ==> digits_value(s) <= 99,
        s.len() == 3 ==> digits_value(s) <= 999,
    decreases s.len(),
{
    if s.len() > 0 {
        assert(digits_at(s.drop_last(), 0, s.len() - 1));
        lemma_digits_value_upper(s.drop_last());
        assert(digits_value(s) == 10 * digits_value(s.drop_last()) + digit_value(s.last()));
        assert(is_digit_char(s.last()));
        assert(digit_value(s.last()) <= 9);
        if s.len() == 1 {
            assert(s.drop_last() =~= Seq::<char>::empty());
        }
    }
}

/// Append one decimal digit to `out`.
fn push_digit(out: &mut String, d: u8)
    requires
        d <= 9,
    ensures
        final(out)@ == old(out)@ + seq![digit_char(d as int)],
{
    proof {
        reveal_strlit("0");
        reveal_strlit("1");
        reveal_strlit("2");
        reveal_strlit("3");
        reveal_strlit("4");
        reveal_strlit("5");
        reveal_strlit("6");
        reveal_strlit("7");
        reveal_strlit("8");
        reveal_strlit("9");
    }
    let t: &str = match d {
        0 => "0",
        1 => "1",
        2 => "2",
        3 => "3",
        4 => "4",
        5 => "5",
        6 => "6",
        7 => "7",
        8 => "8",
        _ => "9",
    };
    proof {
        assert(t@ =~= seq![digit_char(d as int)]);
    }
    out.append(t);
}

/// Append the minimal decimal text of `v` to `out`.
pub fn append_dec(out: &mut String, v: u64)
    ensures
        final(out)@ == old(out)@ + dec(v as int),
    decreases v,
{
    if v < 10 {
        push_digit(out, v as u8);
    } else {
        append_dec(out, v / 10);
        push_digit(out, (v % 10) as u8);
        proof {
            assert(old(out)@ + dec((v / 10) as int) + seq![digit_char((v % 10) as int)] =~= old(
                out,
            )@ + dec(v as int));
        }
    }
}

/// Append the two-digit zero-padded text of `v` to `out`.
pub fn append_pad2(out: &mut String, v: u8)
    ensures
        final(out)@ == old(out)@ + pad2(v as int),
{
    if v < 10 {
        proof {
            reveal_strlit("0");
        }
        out.append("0");
        append_dec(out, v as u64);
        proof {
            assert(old(out)@ + "0"@ + dec(v as int) =~= old(out)@ + pad2(v as int));
        }
    } else {
        append_dec(out, v as u64);
    }
}

/// Append the three-digit zero-padded text of `v` to `out`.
pub fn append_pad3(out: &mut String, v: u16)
    ensures
        final(out)@ == old(out)@ + pad3(v as int),
{
    if v < 10 {
        proof {
            reveal_strlit("00");
        }
        out.append("00");
        append_dec(out, v as u64);
        proof {
            assert(old(out)@ + "00"@ + dec(v as int) =~= old(out)@ + pad3(v as int));
        }
    } else if v < 100 {
        proof {
            reveal_strlit("0");
        }
        out.append("0");
        append_dec(out, v as u64);
        proof {
            assert(old(out)@ + "0"@ + dec(v as int) =~= old(out)@ + pad3(v as int));
        }
    } else {
        append_dec(out, v as u64);
    }
}

} // verus!
