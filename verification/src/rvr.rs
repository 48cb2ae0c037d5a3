//! The runway visual range group: `R`, a signed runway number, an
//! optional position letter, `/`, an optional scale letter, a signed
//! distance in meters, and an optional status letter; repeated as a
//! space-separated list.

use vstd::prelude::*;

use crate::utils::{
    self, digit_run_end, digits_at, digits_value, is_digit_char, lit_at, ErrorKind, ParseError,
};

verus! {

/// Position of the runway among parallel runways.
#[derive(Debug, PartialEq, Eq, Clone, Copy)]
pub enum RunwayPosition {
    Left,
    Center,
    Right,
}

/// Whether the reported range lies beyond the instrument's scale.
#[derive(Debug, PartialEq, Eq, Clone, Copy)]
pub enum VisibilityScale {
    Plus,
    Minus,
}

/// Tendency of the reported range.
#[derive(Debug, PartialEq, Eq, Clone, Copy)]
pub enum VisibilityStatus {
    Down,
    Up,
    No,
}

/// One parsed runway visual range group.
#[derive(Debug, PartialEq, Eq, Clone, Copy)]
pub struct RunwayVisualRange {
    pub number: i8,
    pub position: Option<RunwayPosition>,
    pub visibility_meters: i32,
    pub visibility_scale: Option<VisibilityScale>,
    pub visibility_status: Option<VisibilityStatus>,
}

// ---------------------------------------------------------------------
// Token grammars
// ---------------------------------------------------------------------

/// Grammar of a signed decimal integer: an optional sign, then at
/// least one digit; yields the mathematical value and the position
/// after the digits.
pub open spec fn spec_int(s: Seq<char>, pos: int) -> Option<(int, int)> {
    if 0 <= pos < s.len() && (s[pos] == '+' || s[pos] == '-') {
        let e = digit_run_end(s, pos + 1);
        if pos + 1 < e {
            let v = digits_value(s.subrange(pos + 1, e));
            Some(((if s[pos] == '-' { -v } else { v }), e))
        } else {
            None
        }
    } else {
        let e = digit_run_end(s, pos);
        if 0 <= pos < e {
            Some((digits_value(s.subrange(pos, e)), e))
        } else {
            None
        }
    }
}

pub open spec fn spec_rvr_position(s: Seq<char>, pos: int) -> (Option<RunwayPosition>, int) {
    if lit_at(s, pos, seq!['L']) {
        (Some(RunwayPosition::Left), pos + 1)
    } else if lit_at(s, pos, seq!['C']) {
        (Some(RunwayPosition::Center), pos + 1)
    } else if lit_at(s, pos, seq!['R']) {
        (Some(RunwayPosition::Right), pos + 1)
    } else {
        (None, pos)
    }
}

pub open spec fn spec_rvr_scale(s: Seq<char>, pos: int) -> (Option<VisibilityScale>, int) {
    if lit_at(s, pos, seq!['P']) {
        (Some(VisibilityScale::Plus), pos + 1)
    } else if lit_at(s, pos, seq!['M']) {
        (Some(VisibilityScale::Minus), pos + 1)
    } else {
        (None, pos)
    }
}

pub open spec fn spec_rvr_status(s: Seq<char>, pos: int) -> (Option<VisibilityStatus>, int) {
    if lit_at(s, pos, seq!['D']) {
        (Some(VisibilityStatus::Down), pos + 1)
    } else if lit_at(s, pos, seq!['U']) {
        (Some(VisibilityStatus::Up), pos + 1)
    } else if lit_at(s, pos, seq!['N']) {
        (Some(VisibilityStatus::No), pos + 1)
    } else {
        (None, pos)
    }
}

/// Grammar of one runway visual range group at `pos`; the tags stand
/// back to back, with no whitespace inside a group.
pub open spec fn spec_rvr(s: Seq<char>, pos: int) -> Option<(RunwayVisualRange, int)> {
    if !lit_at(s, pos, seq!['R']) {
        None
    } else {
        match spec_int(s, pos + 1) {
            None => None,
            Some((num, e1)) => {
                if !(-128 <= num <= 127) {
                    None
                } else {
                    let (position, e2) = spec_rvr_position(s, e1);
                    if !lit_at(s, e2, seq!['/']) {
                        None
                    } else {
                        let (scale, e3) = spec_rvr_scale(s, e2 + 1);
                        match spec_int(s, e3) {
                            None => None,
                            Some((m, e4)) => {
                                if !(-0x8000_0000 <= m <= 0x7FFF_FFFF) {
                                    None
                                } else {
                                    let (status, e5) = spec_rvr_status(s, e4);
                                    Some(
                                        (
                                            RunwayVisualRange {
                                                number: num as i8,
                                                position,
                                                visibility_meters: m as i32,
                                                visibility_scale: scale,
                                                visibility_status: status,
                                            },
                                            e5,
                                        ),
                                    )
                                }
                            },
                        }
                    }
                }
            },
        }
    }
}

/// A parsed group ends strictly after where it began, inside `s`.
pub proof fn lemma_spec_rvr_bounds(s: Seq<char>, pos: int)
    requires
        spec_rvr(s, pos) is Some,
    ensures
        pos < spec_rvr(s, pos).unwrap().1 <= s.len(),
{
    let (r, e5) = spec_rvr(s, pos).unwrap();
    let (num, e1) = spec_int(s, pos + 1).unwrap();
    lemma_spec_int_bounds(s, pos + 1);
    let (_, e2) = spec_rvr_position(s, e1);
    let (_, e3) = spec_rvr_scale(s, e2 + 1);
    lemma_spec_int_bounds(s, e3);
}

pub proof fn lemma_spec_int_bounds(s: Seq<char>, pos: int)
    requires
        0 <= pos <= s.len(),
        spec_int(s, pos) is Some,
    ensures
        pos < spec_int(s, pos).unwrap().1 <= s.len(),
{
    if 0 <= pos < s.len() && (s[pos] == '+' || s[pos] == '-') {
        utils::lemma_digit_run_end(s, pos + 1);
    } else {
        utils::lemma_digit_run_end(s, pos);
    }
}

/// Grammar of a space-separated list of groups: zero or more, and
/// after any group a single space followed by a further group; the
/// list ends before the first position where no group matches, so an
/// empty list is valid and consumes nothing.
pub open spec fn spec_rvrs(s: Seq<char>, pos: int) -> (Seq<RunwayVisualRange>, int)
    decreases s.len() - pos when 0 <= pos <= s.len() via spec_rvrs_dec
{
    match spec_rvr(s, pos) {
        None => (Seq::empty(), pos),
        Some((r0, e)) => {
            if e < s.len() && s[e] == ' ' && spec_rvr(s, e + 1) is Some {
                let (tail, e2) = spec_rvrs(s, e + 1);
                (seq![r0] + tail, e2)
            } else {
                (seq![r0], e)
            }
        },
    }
}

#[via_fn]
proof fn spec_rvrs_dec(s: Seq<char>, pos: int) {
    if spec_rvr(s, pos) is Some {
        lemma_spec_rvr_bounds(s, pos);
    }
}

// ---------------------------------------------------------------------
// Field parsers
// ---------------------------------------------------------------------

/// Parse a signed integer at `pos`, bounded to `[lo, hi]`.
fn int_at(s: &str, pos: usize, lo: i64, hi: i64) -> (r: Option<(i64, usize)>)
    requires
        pos <= s@.len(),
        -0x8000_0000 <= lo <= 0,
        0 <= hi <= 0x7FFF_FFFF,
    ensures
        match r {
            Some((v, e)) => {
                &&& spec_int(s@, pos as int) == Some((v as int, e as int))
                &&& lo <= v <= hi
                &&& pos < e <= s@.len()
            },
            None => spec_int(s@, pos as int) is None || !(lo
                <= spec_int(s@, pos as int).unwrap().0 <= hi),
        },
{
    let n = s.unicode_len();
    let (neg, q) = if pos < n && s.get_char(pos) == '-' {
        (true, pos + 1)
    } else if pos < n && s.get_char(pos) == '+' {
        (false, pos + 1)
    } else {
        (false, pos)
    };
    let e = utils::scan_digits(s, q);
    proof {
        utils::lemma_digit_run_end(s@, q as int);
    }
    if e == q {
        return None;
    }
    let cap: u64 = if neg {
        (-(lo as i128)) as u64
    } else {
        hi as u64
    };
    match utils::eval_digits(s, q, e, cap) {
        Some(v) => {
            let iv: i64 = if neg {
                -(v as i64)
            } else {
                v as i64
            };
            Some((iv, e))
        },
        None => {
            proof {
                utils::lemma_digits_value_nonneg(s@.subrange(q as int, e as int));
            }
            None
        },
    }
}

/// Parse one runway visual range group at `pos`.
pub(crate) fn rvr_at(s: &str, pos: usize) -> (r: Result<(RunwayVisualRange, usize), ParseError>)
    requires
        pos <= s@.len(),
    ensures
        match r {
            Ok((v, e)) => spec_rvr(s@, pos as int) == Some((v, e as int)) && pos < e <= s@.len(),
            Err(e) => spec_rvr(s@, pos as int) is None && e.kind == ErrorKind::Syntax && e.offset
                <= s@.len(),
        },
{
    let n = s.unicode_len();
    let lr = ['R'];
    proof {
        assert(lr@ =~= seq!['R']);
    }
    if !utils::match_lit(s, pos, &lr) {
        return Err(ParseError { kind: ErrorKind::Syntax, offset: pos });
    }
    let (num, e1) = match int_at(s, pos + 1, -128, 127) {
        Some(r) => r,
        None => {
            return Err(ParseError { kind: ErrorKind::Syntax, offset: pos + 1 });
        },
    };
    let (position, e2) = position_at(s, e1);
    let lsl = ['/'];
    proof {
        assert(lsl@ =~= seq!['/']);
    }
    if !utils::match_lit(s, e2, &lsl) {
        return Err(ParseError { kind: ErrorKind::Syntax, offset: e2 });
    }
    let (scale, e3) = scale_at(s, e2 + 1);
    let (m, e4) = match int_at(s, e3, -0x8000_0000, 0x7FFF_FFFF) {
        Some(r) => r,
        None => {
            return Err(ParseError { kind: ErrorKind::Syntax, offset: e3 });
        },
    };
    let (status, e5) = status_at(s, e4);
    Ok(
        (
            RunwayVisualRange {
                number: num as i8,
                position,
                visibility_meters: m as i32,
                visibility_scale: scale,
                visibility_status: status,
            },
            e5,
        ),
    )
}

fn position_at(s: &str, pos: usize) -> (r: (Option<RunwayPosition>, usize))
    requires
        pos <= s@.len(),
    ensures
        spec_rvr_position(s@, pos as int) == (r.0, r.1 as int),
        pos <= r.1 <= s@.len(),
{
    let n = s.unicode_len();
    proof {
        utils::lemma_lit1(s@, pos as int, 'L');
        utils::lemma_lit1(s@, pos as int, 'C');
        utils::lemma_lit1(s@, pos as int, 'R');
    }
    if pos < n {
        let c = s.get_char(pos);
        if c == 'L' {
            return (Some(RunwayPosition::Left), pos + 1);
        }
        if c == 'C' {
            return (Some(RunwayPosition::Center), pos + 1);
        }
        if c == 'R' {
            return (Some(RunwayPosition::Right), pos + 1);
        }
    }
    (None, pos)
}

fn scale_at(s: &str, pos: usize) -> (r: (Option<VisibilityScale>, usize))
    requires
        pos <= s@.len(),
    ensures
        spec_rvr_scale(s@, pos as int) == (r.0, r.1 as int),
        pos <= r.1 <= s@.len(),
{
    let n = s.unicode_len();
    proof {
        utils::lemma_lit1(s@, pos as int, 'P');
        utils::lemma_lit1(s@, pos as int, 'M');
    }
    if pos < n {
        let c = s.get_char(pos);
        if c == 'P' {
            return (Some(VisibilityScale::Plus), pos + 1);
        }
        if c == 'M' {
            return (Some(VisibilityScale::Minus), pos + 1);
        }
    }
    (None, pos)
}

fn status_at(s: &str, pos: usize) -> (r: (Option<VisibilityStatus>, usize))
    requires
        pos <= s@.len(),
    ensures
        spec_rvr_status(s@, pos as int) == (r.0, r.1 as int),
        pos <= r.1 <= s@.len(),
{
    let n = s.unicode_len();
    proof {
        utils::lemma_lit1(s@, pos as int, 'D');
        utils::lemma_lit1(s@, pos as int, 'U');
        utils::lemma_lit1(s@, pos as int, 'N');
    }
    if pos < n {
        let c = s.get_char(pos);
        if c == 'D' {
            return (Some(VisibilityStatus::Down), pos + 1);
        }
        if c == 'U' {
            return (Some(VisibilityStatus::Up), pos + 1);
        }
        if c == 'N' {
            return (Some(VisibilityStatus::No), pos + 1);
        }
    }
    (None, pos)
}

/// What remains of the list grammar once a group has ended at `cur`.
pub open spec fn spec_rvrs_cont(s: Seq<char>, cur: int) -> (Seq<RunwayVisualRange>, int) {
    if cur < s.len() && s[cur] == ' ' && spec_rvr(s, cur + 1) is Some {
        spec_rvrs(s, cur + 1)
    } else {
        (Seq::empty(), cur)
    }
}

/// Parse the space-separated list of groups at `pos`; never fails.
pub(crate) fn rvrs_at(s: &str, pos: usize) -> (r: (Vec<RunwayVisualRange>, usize))
    requires
        pos <= s@.len(),
    ensures
        spec_rvrs(s@, pos as int) == (r.0@, r.1 as int),
        pos <= r.1 <= s@.len(),
{
    let n = s.unicode_len();
    let mut out: Vec<RunwayVisualRange> = Vec::new();
    let (r0, mut cur) = match rvr_at(s, pos) {
        Ok(r) => r,
        Err(_) => {
            proof {
                assert(spec_rvrs(s@, pos as int) == (Seq::<RunwayVisualRange>::empty(), pos as int));
                assert(out@ =~= Seq::<RunwayVisualRange>::empty());
            }
            return (out, pos);
        },
    };
    out.push(r0);
    proof {
        assert(spec_rvrs(s@, pos as int).0 =~= out@ + spec_rvrs_cont(s@, cur as int).0);
        assert(spec_rvrs(s@, pos as int).1 == spec_rvrs_cont(s@, cur as int).1);
    }
    loop
        invariant
            out@.len() >= 1,
            pos <= cur <= n,
            n == s@.len(),
            spec_rvrs(s@, pos as int).0 == out@ + spec_rvrs_cont(s@, cur as int).0,
            spec_rvrs(s@, pos as int).1 == spec_rvrs_cont(s@, cur as int).1,
        decreases n - cur,
    {
        if !(cur < n && s.get_char(cur) == ' ') {
            proof {
                assert(spec_rvrs(s@, pos as int).0 =~= out@);
            }
            return (out, cur);
        }
        match rvr_at(s, cur + 1) {
            Ok((r1, e1)) => {
                out.push(r1);
                proof {
                    assert(spec_rvrs(s@, cur + 1).0 =~= seq![r1] + spec_rvrs_cont(s@, e1 as int).0);
                    assert(spec_rvrs(s@, cur + 1).1 == spec_rvrs_cont(s@, e1 as int).1);
                    assert(spec_rvrs(s@, pos as int).0 =~= out@ + spec_rvrs_cont(s@, e1 as int).0);
                }
                cur = e1;
            },
            Err(_) => {
                proof {
                    assert(spec_rvrs(s@, pos as int).0 =~= out@);
                }
                return (out, cur);
            },
        }
    }
}

impl utils::Parseable for RunwayPosition {
    open spec fn spec_parse(s: Seq<char>, pos: int) -> Option<(RunwayPosition, int)> {
        match spec_rvr_position(s, pos).0 {
            Some(v) => Some((v, spec_rvr_position(s, pos).1)),
            None => None,
        }
    }

    fn parse(s: &str) -> (r: Result<(&str, RunwayPosition), ParseError>) {
        let (o, e) = position_at(s, 0);
        match o {
            Some(v) => Ok((utils::rest_of(s, e), v)),
            None => Err(ParseError { kind: ErrorKind::Syntax, offset: 0 }),
        }
    }
}

impl utils::Parseable for VisibilityScale {
    open spec fn spec_parse(s: Seq<char>, pos: int) -> Option<(VisibilityScale, int)> {
        match spec_rvr_scale(s, pos).0 {
            Some(v) => Some((v, spec_rvr_scale(s, pos).1)),
            None => None,
        }
    }

    fn parse(s: &str) -> (r: Result<(&str, VisibilityScale), ParseError>) {
        let (o, e) = scale_at(s, 0);
        match o {
            Some(v) => Ok((utils::rest_of(s, e), v)),
            None => Err(ParseError { kind: ErrorKind::Syntax, offset: 0 }),
        }
    }
}

impl utils::Parseable for VisibilityStatus {
    open spec fn spec_parse(s: Seq<char>, pos: int) -> Option<(VisibilityStatus, int)> {
        match spec_rvr_status(s, pos).0 {
            Some(v) => Some((v, spec_rvr_status(s, pos).1)),
            None => None,
        }
    }

    fn parse(s: &str) -> (r: Result<(&str, VisibilityStatus), ParseError>) {
        let (o, e) = status_at(s, 0);
        match o {
            Some(v) => Ok((utils::rest_of(s, e), v)),
            None => Err(ParseError { kind: ErrorKind::Syntax, offset: 0 }),
        }
    }
}

// ---------------------------------------------------------------------
// Canonical text
// ---------------------------------------------------------------------

/// Canonical decimal text of a possibly negative number.
pub open spec fn canon_int(v: int) -> Seq<char> {
    if v < 0 {
        seq!['-'] + utils::dec(-v)
    } else {
        utils::dec(v)
    }
}

pub open spec fn canon_position(p: Option<RunwayPosition>) -> Seq<char> {
    match p {
        Some(RunwayPosition::Left) => seq!['L'],
        Some(RunwayPosition::Center) => seq!['C'],
        Some(RunwayPosition::Right) => seq!['R'],
        None => Seq::<char>::empty(),
    }
}

pub open spec fn canon_scale(p: Option<VisibilityScale>) -> Seq<char> {
    match p {
        Some(VisibilityScale::Plus) => seq!['P'],
        Some(VisibilityScale::Minus) => seq!['M'],
        None => Seq::<char>::empty(),
    }
}

pub open spec fn canon_status(p: Option<VisibilityStatus>) -> Seq<char> {
    match p {
        Some(VisibilityStatus::Down) => seq!['D'],
        Some(VisibilityStatus::Up) => seq!['U'],
        Some(VisibilityStatus::No) => seq!['N'],
        None => Seq::<char>::empty(),
    }
}

/// Canonical text of one runway visual range group.
pub open spec fn canon_rvr(r: RunwayVisualRange) -> Seq<char> {
    seq!['R'] + canon_int(r.number as int) + canon_position(r.position) + seq!['/'] + canon_scale(
        r.visibility_scale,
    ) + canon_int(r.visibility_meters as int) + canon_status(r.visibility_status)
}

/// Canonical text of a list of groups, each preceded by one space, as
/// the groups stand in a report after the visibility field.
pub open spec fn canon_rvrs(rs: Seq<RunwayVisualRange>) -> Seq<char>
    decreases rs.len(),
{
    if rs.len() == 0 {
        Seq::<char>::empty()
    } else {
        seq![' '] + canon_rvr(rs[0]) + canon_rvrs(rs.drop_first())
    }
}

/// Append the canonical decimal text of `v` to `out`.
fn append_int(out: &mut String, v: i64)
    requires
        v > i64::MIN,
    ensures
        final(out)@ == old(out)@ + canon_int(v as int),
{
    proof {
        reveal_strlit("-");
    }
    if v < 0 {
        out.append("-");
        utils::append_dec(out, (-v) as u64);
        proof {
            assert(out@ =~= old(out)@ + canon_int(v as int));
        }
    } else {
        utils::append_dec(out, v as u64);
    }
}

/// Append the canonical text of `r` to `out`.
#[verifier::rlimit(100)]
pub(crate) fn append_rvr(out: &mut String, r: &RunwayVisualRange)
    ensures
        final(out)@ == old(out)@ + canon_rvr(*r),
{
    proof {
        reveal_strlit("R");
        reveal_strlit("L");
        reveal_strlit("C");
        reveal_strlit("/");
        reveal_strlit("P");
        reveal_strlit("M");
        reveal_strlit("D");
        reveal_strlit("U");
        reveal_strlit("N");
    }
    out.append("R");
    append_int(out, r.number as i64);
    let ghost mid1 = old(out)@ + seq!['R'] + canon_int(r.number as int);
    proof {
        assert(out@ =~= mid1);
    }
    match r.position {
        Some(RunwayPosition::Left) => out.append("L"),
        Some(RunwayPosition::Center) => out.append("C"),
        Some(RunwayPosition::Right) => out.append("R"),
        None => {},
    }
    out.append("/");
    let ghost mid2 = mid1 + canon_position(r.position) + seq!['/'];
    proof {
        assert(out@ =~= mid2);
    }
    match r.visibility_scale {
        Some(VisibilityScale::Plus) => out.append("P"),
        Some(VisibilityScale::Minus) => out.append("M"),
        None => {},
    }
    append_int(out, r.visibility_meters as i64);
    let ghost mid3 = mid2 + canon_scale(r.visibility_scale) + canon_int(r.visibility_meters as int);
    proof {
        assert(out@ =~= mid3);
    }
    match r.visibility_status {
        Some(VisibilityStatus::Down) => out.append("D"),
        Some(VisibilityStatus::Up) => out.append("U"),
        Some(VisibilityStatus::No) => out.append("N"),
        None => {},
    }
    proof {
        assert(out@ =~= mid3 + canon_status(r.visibility_status));
        assert(mid3 + canon_status(r.visibility_status) =~= old(out)@ + canon_rvr(*r));
    }
}

/// Append the canonical text of the whole list to `out`, one space
/// before each group.
pub(crate) fn append_rvrs(out: &mut String, rs: &Vec<RunwayVisualRange>)
    ensures
        final(out)@ == old(out)@ + canon_rvrs(rs@),
{
    proof {
        reveal_strlit(" ");
    }
    let mut i: usize = 0;
    proof {
        assert(old(out)@ + canon_rvrs(rs@.skip(0)) =~= old(out)@ + canon_rvrs(rs@)) by {
            assert(rs@.skip(0) =~= rs@);
        }
    }
    while i < rs.len()
        invariant
            0 <= i <= rs@.len(),
            out@ + canon_rvrs(rs@.skip(i as int)) == old(out)@ + canon_rvrs(rs@),
        decreases rs@.len() - i,
    {
        let ghost pre = out@;
        proof {
            reveal_strlit(" ");
        }
        out.append(" ");
        append_rvr(out, &rs[i]);
        proof {
            assert(rs@.skip(i as int).drop_first() =~= rs@.skip(i + 1));
            assert(rs@.skip(i as int)[0] == rs@[i as int]);
            assert(canon_rvrs(rs@.skip(i as int)) == seq![' '] + canon_rvr(rs@[i as int])
                + canon_rvrs(rs@.skip(i + 1)));
            assert(out@ + canon_rvrs(rs@.skip(i + 1)) =~= pre + canon_rvrs(rs@.skip(i as int)));
        }
        i = i + 1;
    }
    proof {
        assert(canon_rvrs(rs@.skip(i as int)) =~= Seq::<char>::empty());
        assert(out@ =~= out@ + canon_rvrs(rs@.skip(i as int)));
    }
}

// ---------------------------------------------------------------------
// Round trip of the canonical text
// ---------------------------------------------------------------------

/// No group can begin at `p`: no `R` followed by a signed numeral.
pub open spec fn rvr_cant_start(s: Seq<char>, p: int) -> bool {
    p >= s.len() || s[p] != 'R' || p + 1 >= s.len() || (!is_digit_char(s[p + 1]) && s[p + 1] != '+'
        && s[p + 1] != '-')
}

/// Where no `R` and numeral stand, the group parser fails.
pub proof fn lemma_rvr_none(s: Seq<char>, p: int)
    requires
        0 <= p <= s.len(),
        rvr_cant_start(s, p),
    ensures
        spec_rvr(s, p) is None,
{
    utils::lemma_lit1(s, p, 'R');
    if p < s.len() && s[p] == 'R' {
        utils::lemma_digit_run_end(s, p + 1);
        if p + 1 < s.len() {
            assert(digit_run_end(s, p + 1) == p + 1);
        }
    }
}

/// A signed canonical numeral parses back to its value.
proof fn lemma_int_canon(s: Seq<char>, q: int, v: int)
    requires
        0 <= q,
        q + canon_int(v).len() <= s.len(),
        s.subrange(q, q + canon_int(v).len()) == canon_int(v),
        ({
            let a = q + canon_int(v).len();
            a == s.len() || !is_digit_char(s[a])
        }),
    ensures
        spec_int(s, q) == Some((v, q + canon_int(v).len())),
{
    let c = canon_int(v);
    let a = q + c.len();
    assert(forall|k: int| 0 <= k < c.len() ==> s.subrange(q, a)[k] == s[q + k]);
    if v < 0 {
        utils::lemma_dec(-v);
        utils::lemma_split_at(s, q, seq!['-'], utils::dec(-v));
        assert(s[q] == '-') by {
            assert(s.subrange(q, q + 1)[0] == s[q]);
        }
        utils::lemma_digits_at_transfer(s, q + 1, a);
        utils::lemma_digit_run_end_is(s, q + 1, a);
        assert(digits_value(s.subrange(q + 1, a)) == -v);
    } else {
        utils::lemma_dec(v);
        assert(is_digit_char(s[q])) by {
            assert(c[0] == s[q]);
        }
        utils::lemma_digits_at_transfer(s, q, a);
        utils::lemma_digit_run_end_is(s, q, a);
        assert(digits_value(s.subrange(q, a)) == v);
    }
}

/// The canonical text of a group, followed by a space or the end of
/// the text, parses back to exactly that group.
#[verifier::rlimit(100)]
pub proof fn lemma_rvr_canon(s: Seq<char>, q: int, r: RunwayVisualRange)
    requires
        0 <= q,
        q + canon_rvr(r).len() <= s.len(),
        s.subrange(q, q + canon_rvr(r).len()) == canon_rvr(r),
        ({
            let a = q + canon_rvr(r).len();
            a == s.len() || s[a] == ' '
        }),
    ensures
        spec_rvr(s, q) == Some((r, q + canon_rvr(r).len())),
{
    let c = canon_rvr(r);
    let a = q + c.len();
    let ntext = canon_int(r.number as int);
    let ptext = canon_position(r.position);
    let sctext = canon_scale(r.visibility_scale);
    let mtext = canon_int(r.visibility_meters as int);
    let sttext = canon_status(r.visibility_status);
    let e1 = q + 1 + ntext.len();
    let e2 = e1 + ptext.len();
    let e3 = e2 + 1 + sctext.len();
    let e4 = e3 + mtext.len();
    utils::lemma_split_at(s, q, seq!['R'] + ntext + ptext + seq!['/'] + sctext + mtext, sttext);
    utils::lemma_split_at(s, q, seq!['R'] + ntext + ptext + seq!['/'] + sctext, mtext);
    utils::lemma_split_at(s, q, seq!['R'] + ntext + ptext + seq!['/'], sctext);
    utils::lemma_split_at(s, q, seq!['R'] + ntext + ptext, seq!['/']);
    utils::lemma_split_at(s, q, seq!['R'] + ntext, ptext);
    utils::lemma_split_at(s, q, seq!['R'], ntext);
    utils::lemma_lit1(s, q, 'R');
    assert(s[q] == 'R') by {
        assert(s.subrange(q, q + 1)[0] == s[q]);
    }
    // the runway number
    assert(s[e1] == (if r.position is Some {
        ptext[0]
    } else {
        '/'
    })) by {
        if r.position is Some {
            assert(s.subrange(e1, e2)[0] == s[e1]);
        } else {
            assert(s.subrange(e2, e2 + 1)[0] == s[e2]);
        }
    }
    assert(!is_digit_char(s[e1])) by {
        if r.position is Some {
            assert(ptext[0] == 'L' || ptext[0] == 'C' || ptext[0] == 'R');
        }
    }
    lemma_int_canon(s, q + 1, r.number as int);
    // the optional position letter and the slash
    utils::lemma_lit1(s, e1, 'L');
    utils::lemma_lit1(s, e1, 'C');
    utils::lemma_lit1(s, e1, 'R');
    assert(s[e2] == '/') by {
        assert(s.subrange(e2, e2 + 1)[0] == s[e2]);
    }
    assert(spec_rvr_position(s, e1) == (r.position, e2)) by {
        if r.position is Some {
            assert(s[e1] == ptext[0]);
        }
    }
    utils::lemma_lit1(s, e2, '/');
    // the optional scale letter
    assert(s[e2 + 1] == (if r.visibility_scale is Some {
        sctext[0]
    } else {
        mtext[0]
    })) by {
        if r.visibility_scale is Some {
            assert(s.subrange(e2 + 1, e3)[0] == s[e2 + 1]);
        } else {
            assert(s.subrange(e3, e4)[0] == s[e3]);
        }
    }
    utils::lemma_lit1(s, e2 + 1, 'P');
    utils::lemma_lit1(s, e2 + 1, 'M');
    assert(spec_rvr_scale(s, e2 + 1) == (r.visibility_scale, e3)) by {
        if r.visibility_scale is None {
            assert(mtext[0] == '-' || is_digit_char(mtext[0])) by {
                if r.visibility_meters >= 0 {
                    utils::lemma_dec(r.visibility_meters as int);
                }
            }
        }
    }
    // the meters value
    assert(e4 == s.len() || !is_digit_char(s[e4])) by {
        if r.visibility_status is Some {
            assert(s.subrange(e4, a)[0] == s[e4]);
            assert(sttext[0] == 'D' || sttext[0] == 'U' || sttext[0] == 'N');
        } else {
            assert(e4 == a);
        }
    }
    lemma_int_canon(s, e3, r.visibility_meters as int);
    // the optional status letter
    utils::lemma_lit1(s, e4, 'D');
    utils::lemma_lit1(s, e4, 'U');
    utils::lemma_lit1(s, e4, 'N');
    assert(spec_rvr_status(s, e4) == (r.visibility_status, a)) by {
        if r.visibility_status is Some {
            assert(s.subrange(e4, a)[0] == s[e4]);
        }
    }
}

/// The text of one group after another, as the groups stand in a
/// report: the group, then for each further group one space and that
/// group.
pub open spec fn rvrs_tail_text(rs: Seq<RunwayVisualRange>) -> Seq<char>
    recommends
        rs.len() >= 1,
{
    canon_rvr(rs[0]) + canon_rvrs(rs.drop_first())
}

/// The canonical text of a nonempty list parses back to exactly that
/// list, provided no further group follows it.
pub proof fn lemma_rvrs_canon(s: Seq<char>, q: int, rs: Seq<RunwayVisualRange>)
    requires
        rs.len() >= 1,
        0 <= q,
        q + rvrs_tail_text(rs).len() <= s.len(),
        s.subrange(q, q + rvrs_tail_text(rs).len()) == rvrs_tail_text(rs),
        ({
            let a = q + rvrs_tail_text(rs).len();
            a == s.len() || (s[a] == ' ' && spec_rvr(s, a + 1) is None)
        }),
    ensures
        spec_rvrs(s, q) == (rs, q + rvrs_tail_text(rs).len()),
    decreases rs.len(),
{
    let text = rvrs_tail_text(rs);
    let a = q + text.len();
    let r0 = rs[0];
    let rest = rs.drop_first();
    let e = q + canon_rvr(r0).len();
    utils::lemma_split_at(s, q, canon_rvr(r0), canon_rvrs(rest));
    if rest.len() == 0 {
        assert(canon_rvrs(rest) =~= Seq::<char>::empty());
        assert(e == a);
        lemma_rvr_canon(s, q, r0);
        if e < s.len() && s[e] == ' ' {
            assert(spec_rvr(s, e + 1) is None);
        }
        assert(rs =~= seq![r0]);
    } else {
        assert(canon_rvrs(rest) == seq![' '] + canon_rvr(rest[0]) + canon_rvrs(rest.drop_first()));
        assert(s.subrange(e, a) =~= seq![' '] + rvrs_tail_text(rest)) by {
            assert(seq![' '] + canon_rvr(rest[0]) + canon_rvrs(rest.drop_first()) =~= seq![' ']
                + rvrs_tail_text(rest));
        }
        utils::lemma_split_at(s, e, seq![' '], rvrs_tail_text(rest));
        assert(s[e] == ' ') by {
            assert(s.subrange(e, e + 1)[0] == s[e]);
        }
        lemma_rvr_canon(s, q, r0);
        lemma_rvrs_canon(s, e + 1, rest);
        assert(spec_rvr(s, e + 1) is Some) by {
            if spec_rvr(s, e + 1) is None {
                assert(spec_rvrs(s, e + 1).0 =~= Seq::<RunwayVisualRange>::empty());
            }
        }
        assert(spec_rvrs(s, q).0 == seq![r0] + rest);
        assert(seq![r0] + rest =~= rs);
    }
}

/// Parse one runway visual range group at the head of `s`, returning
/// the rest of the input and the group.
pub fn parse_rvr(s: &str) -> (r: Result<(&str, RunwayVisualRange), ParseError>)
    ensures
        match r {
            Ok((rest, v)) => spec_rvr(s@, 0) matches Some((v2, e)) && v2 == v && rest@
                == s@.subrange(e, s@.len() as int),
            Err(e) => spec_rvr(s@, 0) is None && e.kind == ErrorKind::Syntax,
        },
{
    match rvr_at(s, 0) {
        Ok((v, e)) => Ok((utils::rest_of(s, e), v)),
        Err(e) => Err(e),
    }
}

/// Parse a space-separated list of groups at the head of `s`,
/// returning the rest of the input and the groups in input order; an
/// input with no group at its head yields the empty list.  This
/// parser cannot fail.
pub fn parse_rvrs(s: &str) -> (r: Result<(&str, Vec<RunwayVisualRange>), ParseError>)
    ensures
        r matches Ok((rest, v)) && spec_rvrs(s@, 0) == (v@, s@.len() - rest@.len()) && rest@
            == s@.subrange(s@.len() - rest@.len(), s@.len() as int),
{
    let (v, e) = rvrs_at(s, 0);
    let rest = utils::rest_of(s, e);
    proof {
        assert(rest@.len() == s@.len() - e);
    }
    Ok((rest, v))
}

} // verus!
