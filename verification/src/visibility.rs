//! The visibility group: categorical tags, plain meters, statute-mile
//! fractions, and an optional second visibility with a compass
//! direction.

use vstd::prelude::*;

use crate::utils::{
    self, digit_run_end, digits_at, digits_value, is_digit_char, lit_at, ws_end, ErrorKind,
    ParseError,
};

verus! {

/// Compass direction of a directional visibility.  Two-letter tags
/// are matched before their one-letter prefixes, so `NW` never
/// resolves as `N` with a dangling `W`.
#[derive(Debug, PartialEq, Eq, Clone, Copy)]
pub enum VisibilityDirection {
    North,
    NorthEast,
    East,
    SouthEast,
    South,
    SouthWest,
    West,
    NorthWest,
}

/// A statute-mile visibility as the exact value
/// `whole + numerator / denominator`.  A plain whole-mile value
/// carries the fraction `0 / 1`.
#[derive(Debug, PartialEq, Eq, Clone, Copy)]
pub struct StatuteMiles {
    pub whole: u16,
    pub numerator: u16,
    pub denominator: u16,
}

impl StatuteMiles {
    /// The denominator is usable, and a zero numerator is always
    /// carried over the denominator one.
    pub open spec fn wf(self) -> bool {
        self.denominator >= 1 && (self.numerator == 0 ==> self.denominator == 1)
    }
}

/// A single visibility value: meters, statute miles, or one of the
/// categorical tags.
#[derive(Debug, PartialEq, Eq, Clone, Copy)]
pub enum VisibilityValue {
    Meters(u16),
    StatuteMiles(StatuteMiles),
    Cavok,
    Nsc,
    Skc,
}

impl VisibilityValue {
    pub open spec fn wf(self) -> bool {
        match self {
            VisibilityValue::StatuteMiles(m) => m.wf(),
            _ => true,
        }
    }
}

/// A visibility group: either one value, or a prevailing value with a
/// second, directional one.  The directional form owns two plain
/// values, so the nesting is one level deep by construction.
#[derive(Debug, PartialEq, Eq, Clone, Copy)]
pub enum Visibility {
    Single(VisibilityValue),
    CustomDirection(VisibilityValue, VisibilityValue, VisibilityDirection),
}

impl Visibility {
    pub open spec fn wf(self) -> bool {
        match self {
            Visibility::Single(v) => v.wf(),
            Visibility::CustomDirection(v1, v2, _) => v1.wf() && v2.wf(),
        }
    }
}

// ---------------------------------------------------------------------
// Token grammars
// ---------------------------------------------------------------------

pub open spec fn cavok_tag() -> Seq<char> {
    seq!['C', 'A', 'V', 'O', 'K']
}

pub open spec fn nsc_tag() -> Seq<char> {
    seq!['N', 'S', 'C']
}

pub open spec fn skc_tag() -> Seq<char> {
    seq!['S', 'K', 'C']
}

pub open spec fn sm_tag() -> Seq<char> {
    seq!['S', 'M']
}

/// Grammar of the statute-mile pattern at `pos` (no leading
/// whitespace): an optional whole-mile prefix set off by whitespace,
/// a digit run, an optional `/` fraction, and the literal `SM`.
/// A fraction with an empty or oversized part, or a zero denominator,
/// is a failure of the whole pattern, never a silent zero.
pub open spec fn spec_statute_miles(s: Seq<char>, pos: int) -> Option<(StatuteMiles, int)> {
    let d0e = digit_run_end(s, pos);
    let we = ws_end(s, d0e);
    let has_whole = pos < d0e && d0e < we;
    let p1 = if has_whole {
        we
    } else {
        pos
    };
    let d1e = digit_run_end(s, p1);
    if d1e < s.len() && s[d1e] == '/' {
        let d2e = digit_run_end(s, d1e + 1);
        if has_whole && digits_value(s.subrange(pos, d0e)) > u16::MAX {
            None
        } else if p1 < d1e && d1e + 1 < d2e && lit_at(s, d2e, sm_tag()) && digits_value(
            s.subrange(p1, d1e),
        ) <= u16::MAX && 1 <= digits_value(s.subrange(d1e + 1, d2e)) <= u16::MAX {
            let num = digits_value(s.subrange(p1, d1e));
            Some(
                (
                    StatuteMiles {
                        whole: if has_whole {
                            digits_value(s.subrange(pos, d0e)) as u16
                        } else {
                            0
                        },
                        numerator: num as u16,
                        denominator: if num == 0 {
                            1
                        } else {
                            digits_value(s.subrange(d1e + 1, d2e)) as u16
                        },
                    },
                    d2e + 2,
                ),
            )
        } else {
            None
        }
    } else {
        if p1 < d1e && lit_at(s, d1e, sm_tag()) && digits_value(s.subrange(p1, d1e)) <= u16::MAX {
            Some(
                (
                    StatuteMiles {
                        whole: digits_value(s.subrange(p1, d1e)) as u16,
                        numerator: 0,
                        denominator: 1,
                    },
                    d1e + 2,
                ),
            )
        } else {
            None
        }
    }
}

/// Grammar of a single visibility value: after leading whitespace,
/// one of the categorical tags, else the statute-mile pattern, else a
/// digit run read as meters.
pub open spec fn spec_visibility(s: Seq<char>, pos: int) -> Option<(VisibilityValue, int)> {
    let p = ws_end(s, pos);
    if lit_at(s, p, cavok_tag()) {
        Some((VisibilityValue::Cavok, p + 5))
    } else if lit_at(s, p, nsc_tag()) {
        Some((VisibilityValue::Nsc, p + 3))
    } else if lit_at(s, p, skc_tag()) {
        Some((VisibilityValue::Skc, p + 3))
    } else {
        match spec_statute_miles(s, p) {
            Some((m, e)) => Some((VisibilityValue::StatuteMiles(m), e)),
            None => {
                let de = digit_run_end(s, p);
                if p < de && digits_value(s.subrange(p, de)) <= u16::MAX {
                    Some((VisibilityValue::Meters(digits_value(s.subrange(p, de)) as u16), de))
                } else {
                    None
                }
            },
        }
    }
}

/// Whether a failed visibility value died on its one bounds check:
/// no tag and no statute-mile pattern stand there, digits do, but
/// their value does not fit the meters field.
pub open spec fn spec_visibility_bounds_err(s: Seq<char>, pos: int) -> bool {
    let p = ws_end(s, pos);
    &&& !lit_at(s, p, cavok_tag()) && !lit_at(s, p, nsc_tag()) && !lit_at(s, p, skc_tag())
    &&& spec_statute_miles(s, p) is None
    &&& p < digit_run_end(s, p)
    &&& digits_value(s.subrange(p, digit_run_end(s, p))) > u16::MAX
}

/// Grammar of a compass tag, two-letter tags before one-letter ones.
pub open spec fn spec_compass(s: Seq<char>, pos: int) -> Option<(VisibilityDirection, int)> {
    if lit_at(s, pos, seq!['N', 'W']) {
        Some((VisibilityDirection::NorthWest, pos + 2))
    } else if lit_at(s, pos, seq!['N', 'E']) {
        Some((VisibilityDirection::NorthEast, pos + 2))
    } else if lit_at(s, pos, seq!['S', 'E']) {
        Some((VisibilityDirection::SouthEast, pos + 2))
    } else if lit_at(s, pos, seq!['S', 'W']) {
        Some((VisibilityDirection::SouthWest, pos + 2))
    } else if lit_at(s, pos, seq!['N']) {
        Some((VisibilityDirection::North, pos + 1))
    } else if lit_at(s, pos, seq!['E']) {
        Some((VisibilityDirection::East, pos + 1))
    } else if lit_at(s, pos, seq!['S']) {
        Some((VisibilityDirection::South, pos + 1))
    } else if lit_at(s, pos, seq!['W']) {
        Some((VisibilityDirection::West, pos + 1))
    } else {
        None
    }
}

/// The explicit ordering contract of the compass table: wherever a
/// two-letter tag stands, it resolves as itself, never as its
/// one-letter prefix with a dangling second letter.
pub proof fn lemma_compass_longest_match(s: Seq<char>, pos: int)
    ensures
        lit_at(s, pos, seq!['N', 'W']) ==> spec_compass(s, pos) == Some(
            (VisibilityDirection::NorthWest, pos + 2),
        ),
        lit_at(s, pos, seq!['N', 'E']) ==> spec_compass(s, pos) == Some(
            (VisibilityDirection::NorthEast, pos + 2),
        ),
        lit_at(s, pos, seq!['S', 'E']) ==> spec_compass(s, pos) == Some(
            (VisibilityDirection::SouthEast, pos + 2),
        ),
        lit_at(s, pos, seq!['S', 'W']) ==> spec_compass(s, pos) == Some(
            (VisibilityDirection::SouthWest, pos + 2),
        ),
{
    utils::lemma_lit2(s, pos, 'N', 'W');
    utils::lemma_lit2(s, pos, 'N', 'E');
    utils::lemma_lit2(s, pos, 'S', 'E');
    utils::lemma_lit2(s, pos, 'S', 'W');
}

/// Grammar of the full visibility group: a first value, then, only
/// when a second value followed at once by a compass tag stands
/// there, the directional pair; otherwise the first value alone, with
/// the rest left unconsumed.
pub open spec fn spec_visibility_full(s: Seq<char>, pos: int) -> Option<(Visibility, int)> {
    match spec_visibility(s, pos) {
        None => None,
        Some((v1, e1)) => match spec_visibility(s, e1) {
            Some((v2, e2)) => match spec_compass(s, e2) {
                Some((d, e3)) => Some((Visibility::CustomDirection(v1, v2, d), e3)),
                None => Some((Visibility::Single(v1), e1)),
            },
            None => Some((Visibility::Single(v1), e1)),
        },
    }
}

// ---------------------------------------------------------------------
// Field parsers
// ---------------------------------------------------------------------

/// Parse the statute-mile pattern at `pos` (whitespace already
/// consumed by the caller).
fn statute_miles_at(s: &str, pos: usize) -> (r: Option<(StatuteMiles, usize)>)
    requires
        pos <= s@.len(),
    ensures
        match r {
            Some((m, e)) => spec_statute_miles(s@, pos as int) == Some((m, e as int)) && pos <= e
                <= s@.len() && m.wf(),
            None => spec_statute_miles(s@, pos as int) is None,
        },
{
    let n = s.unicode_len();
    let d0e = utils::scan_digits(s, pos);
    let we = utils::skip_ws(s, d0e);
    proof {
        utils::lemma_digit_run_end(s@, pos as int);
    }
    let has_whole = pos < d0e && d0e < we;
    let p1 = if has_whole {
        we
    } else {
        pos
    };
    let d1e = utils::scan_digits(s, p1);
    proof {
        utils::lemma_digit_run_end(s@, p1 as int);
    }
    if d1e < n && s.get_char(d1e) == '/' {
        let d2e = utils::scan_digits(s, d1e + 1);
        proof {
            utils::lemma_digit_run_end(s@, d1e + 1);
        }
        let whole: u16 = if has_whole {
            match utils::eval_digits(s, pos, d0e, 65535) {
                Some(v) => v as u16,
                None => {
                    return None;
                },
            }
        } else {
            0
        };
        if !(p1 < d1e && d1e + 1 < d2e && utils::match_lit(s, d2e, &['S', 'M'])) {
            return None;
        }
        let num: u16 = match utils::eval_digits(s, p1, d1e, 65535) {
            Some(v) => v as u16,
            None => {
                return None;
            },
        };
        let den: u16 = match utils::eval_digits(s, d1e + 1, d2e, 65535) {
            Some(v) => v as u16,
            None => {
                return None;
            },
        };
        if den == 0 {
            return None;
        }
        Some(
            (
                StatuteMiles {
                    whole,
                    numerator: num,
                    denominator: if num == 0 {
                        1
                    } else {
                        den
                    },
                },
                d2e + 2,
            ),
        )
    } else {
        if !(p1 < d1e && utils::match_lit(s, d1e, &['S', 'M'])) {
            return None;
        }
        let v: u16 = match utils::eval_digits(s, p1, d1e, 65535) {
            Some(v) => v as u16,
            None => {
                return None;
            },
        };
        Some((StatuteMiles { whole: v, numerator: 0, denominator: 1 }, d1e + 2))
    }
}

/// Parse a single visibility value at `pos`.
pub(crate) fn visibility_at(s: &str, pos: usize) -> (r: Result<
    (VisibilityValue, usize),
    ParseError,
>)
    requires
        pos <= s@.len(),
    ensures
        match r {
            Ok((v, e)) => spec_visibility(s@, pos as int) == Some((v, e as int)) && pos <= e
                <= s@.len() && v.wf(),
            Err(e) => {
                &&& spec_visibility(s@, pos as int) is None
                &&& e.kind == (if spec_visibility_bounds_err(s@, pos as int) {
                    ErrorKind::Bounds
                } else {
                    ErrorKind::Syntax
                })
                &&& e.offset <= s@.len()
            },
        },
{
    let n = s.unicode_len();
    let p = utils::skip_ws(s, pos);
    if utils::match_lit(s, p, &['C', 'A', 'V', 'O', 'K']) {
        return Ok((VisibilityValue::Cavok, p + 5));
    }
    if utils::match_lit(s, p, &['N', 'S', 'C']) {
        return Ok((VisibilityValue::Nsc, p + 3));
    }
    if utils::match_lit(s, p, &['S', 'K', 'C']) {
        return Ok((VisibilityValue::Skc, p + 3));
    }
    match statute_miles_at(s, p) {
        Some((m, e)) => Ok((VisibilityValue::StatuteMiles(m), e)),
        None => {
            let de = utils::scan_digits(s, p);
            proof {
                utils::lemma_digit_run_end(s@, p as int);
            }
            if p == de {
                return Err(ParseError { kind: ErrorKind::Syntax, offset: p });
            }
            match utils::eval_digits(s, p, de, 65535) {
                Some(v) => Ok((VisibilityValue::Meters(v as u16), de)),
                None => Err(ParseError { kind: ErrorKind::Bounds, offset: p }),
            }
        },
    }
}

/// Parse a compass tag at `pos` (no whitespace skipping: the tag must
/// follow the value it qualifies at once).
pub(crate) fn compass_at(s: &str, pos: usize) -> (r: Option<(VisibilityDirection, usize)>)
    ensures
        match r {
            Some((d, e)) => spec_compass(s@, pos as int) == Some((d, e as int)) && e <= s@.len(),
            None => spec_compass(s@, pos as int) is None,
        },
{
    let n = s.unicode_len();
    let nw = ['N', 'W'];
    let ne = ['N', 'E'];
    let se = ['S', 'E'];
    let sw = ['S', 'W'];
    let ln = ['N'];
    let le = ['E'];
    let ls = ['S'];
    let lw = ['W'];
    proof {
        assert(nw@ =~= seq!['N', 'W']);
        assert(ne@ =~= seq!['N', 'E']);
        assert(se@ =~= seq!['S', 'E']);
        assert(sw@ =~= seq!['S', 'W']);
        assert(ln@ =~= seq!['N']);
        assert(le@ =~= seq!['E']);
        assert(ls@ =~= seq!['S']);
        assert(lw@ =~= seq!['W']);
    }
    if utils::match_lit(s, pos, &nw) {
        Some((VisibilityDirection::NorthWest, pos + 2))
    } else if utils::match_lit(s, pos, &ne) {
        Some((VisibilityDirection::NorthEast, pos + 2))
    } else if utils::match_lit(s, pos, &se) {
        Some((VisibilityDirection::SouthEast, pos + 2))
    } else if utils::match_lit(s, pos, &sw) {
        Some((VisibilityDirection::SouthWest, pos + 2))
    } else if utils::match_lit(s, pos, &ln) {
        Some((VisibilityDirection::North, pos + 1))
    } else if utils::match_lit(s, pos, &le) {
        Some((VisibilityDirection::East, pos + 1))
    } else if utils::match_lit(s, pos, &ls) {
        Some((VisibilityDirection::South, pos + 1))
    } else if utils::match_lit(s, pos, &lw) {
        Some((VisibilityDirection::West, pos + 1))
    } else {
        None
    }
}

/// Parse the full visibility group at `pos`.
pub(crate) fn visibility_full_at(s: &str, pos: usize) -> (r: Result<
    (Visibility, usize),
    ParseError,
>)
    requires
        pos <= s@.len(),
    ensures
        match r {
            Ok((v, e)) => spec_visibility_full(s@, pos as int) == Some((v, e as int)) && pos <= e
                <= s@.len() && v.wf(),
            Err(e) => {
                &&& spec_visibility_full(s@, pos as int) is None
                &&& e.kind == (if spec_visibility_bounds_err(s@, pos as int) {
                    ErrorKind::Bounds
                } else {
                    ErrorKind::Syntax
                })
                &&& e.offset <= s@.len()
            },
        },
{
    let (v1, e1) = match visibility_at(s, pos) {
        Ok(r) => r,
        Err(e) => {
            return Err(e);
        },
    };
    match visibility_at(s, e1) {
        Ok((v2, e2)) => match compass_at(s, e2) {
            Some((d, e3)) => Ok((Visibility::CustomDirection(v1, v2, d), e3)),
            None => Ok((Visibility::Single(v1), e1)),
        },
        Err(_) => Ok((Visibility::Single(v1), e1)),
    }
}

// ---------------------------------------------------------------------
// Canonical text
// ---------------------------------------------------------------------

/// Canonical text of one visibility value.
pub open spec fn canon_visibility_value(v: VisibilityValue) -> Seq<char> {
    match v {
        VisibilityValue::Meters(m) => utils::dec(m as int),
        VisibilityValue::StatuteMiles(m) => {
            if m.numerator == 0 {
                utils::dec(m.whole as int) + sm_tag()
            } else if m.whole > 0 {
                utils::dec(m.whole as int) + seq![' '] + utils::dec(m.numerator as int) + seq!['/']
                    + utils::dec(m.denominator as int) + sm_tag()
            } else {
                utils::dec(m.numerator as int) + seq!['/'] + utils::dec(m.denominator as int)
                    + sm_tag()
            }
        },
        VisibilityValue::Cavok => cavok_tag(),
        VisibilityValue::Nsc => nsc_tag(),
        VisibilityValue::Skc => skc_tag(),
    }
}

pub open spec fn canon_compass(d: VisibilityDirection) -> Seq<char> {
    match d {
        VisibilityDirection::North => seq!['N'],
        VisibilityDirection::NorthEast => seq!['N', 'E'],
        VisibilityDirection::East => seq!['E'],
        VisibilityDirection::SouthEast => seq!['S', 'E'],
        VisibilityDirection::South => seq!['S'],
        VisibilityDirection::SouthWest => seq!['S', 'W'],
        VisibilityDirection::West => seq!['W'],
        VisibilityDirection::NorthWest => seq!['N', 'W'],
    }
}

/// The always-explicit spelling of a statute-mile value: whole part,
/// space, fraction, `SM`, all parts written out.  It is used for the
/// second value of a directional pair whose first value is in
/// meters, where the short spellings would let the statute-mile
/// pattern swallow the meters as its whole-mile prefix.
pub open spec fn canon_miles_explicit(m: StatuteMiles) -> Seq<char> {
    utils::dec(m.whole as int) + seq![' '] + utils::dec(m.numerator as int) + seq!['/']
        + utils::dec(m.denominator as int) + sm_tag()
}

/// Canonical text of the second value of a directional pair: the
/// explicit statute-mile spelling after a meters value, the plain one
/// otherwise.
pub open spec fn canon_second_value(a: VisibilityValue, b: VisibilityValue) -> Seq<char> {
    match (a, b) {
        (VisibilityValue::Meters(_), VisibilityValue::StatuteMiles(m)) => canon_miles_explicit(m),
        _ => canon_visibility_value(b),
    }
}

/// Canonical text of a visibility group.
pub open spec fn canon_visibility(v: Visibility) -> Seq<char> {
    match v {
        Visibility::Single(x) => canon_visibility_value(x),
        Visibility::CustomDirection(a, b, d) => canon_visibility_value(a) + seq![' ']
            + canon_second_value(a, b) + canon_compass(d),
    }
}

/// Append the canonical text of `v` to `out`.
pub(crate) fn append_visibility_value(out: &mut String, v: &VisibilityValue)
    ensures
        final(out)@ == old(out)@ + canon_visibility_value(*v),
{
    proof {
        reveal_strlit("SM");
        reveal_strlit(" ");
        reveal_strlit("/");
        reveal_strlit("CAVOK");
        reveal_strlit("NSC");
        reveal_strlit("SKC");
    }
    match v {
        VisibilityValue::Meters(m) => utils::append_dec(out, *m as u64),
        VisibilityValue::StatuteMiles(m) => {
            if m.numerator == 0 {
                utils::append_dec(out, m.whole as u64);
                out.append("SM");
                proof {
                    assert(out@ =~= old(out)@ + canon_visibility_value(*v));
                }
            } else if m.whole > 0 {
                utils::append_dec(out, m.whole as u64);
                out.append(" ");
                utils::append_dec(out, m.numerator as u64);
                out.append("/");
                utils::append_dec(out, m.denominator as u64);
                out.append("SM");
                proof {
                    assert(out@ =~= old(out)@ + canon_visibility_value(*v));
                }
            } else {
                utils::append_dec(out, m.numerator as u64);
                out.append("/");
                utils::append_dec(out, m.denominator as u64);
                out.append("SM");
                proof {
                    assert(out@ =~= old(out)@ + canon_visibility_value(*v));
                }
            }
        },
        VisibilityValue::Cavok => {
            out.append("CAVOK");
            proof {
                assert(out@ =~= old(out)@ + canon_visibility_value(*v));
            }
        },
        VisibilityValue::Nsc => {
            out.append("NSC");
            proof {
                assert(out@ =~= old(out)@ + canon_visibility_value(*v));
            }
        },
        VisibilityValue::Skc => {
            out.append("SKC");
            proof {
                assert(out@ =~= old(out)@ + canon_visibility_value(*v));
            }
        },
    }
}

/// Append the canonical text of `v` to `out`.
pub(crate) fn append_visibility(out: &mut String, v: &Visibility)
    ensures
        final(out)@ == old(out)@ + canon_visibility(*v),
{
    proof {
        reveal_strlit(" ");
        reveal_strlit("N");
        reveal_strlit("NE");
        reveal_strlit("E");
        reveal_strlit("SE");
        reveal_strlit("S");
        reveal_strlit("SW");
        reveal_strlit("W");
        reveal_strlit("NW");
    }
    match v {
        Visibility::Single(x) => append_visibility_value(out, x),
        Visibility::CustomDirection(a, b, d) => {
            append_visibility_value(out, a);
            out.append(" ");
            let meters_then_miles = matches!(a, VisibilityValue::Meters(_)) && matches!(
                b,
                VisibilityValue::StatuteMiles(_),
            );
            if meters_then_miles {
                let m = match b {
                    VisibilityValue::StatuteMiles(m) => *m,
                    _ => StatuteMiles { whole: 0, numerator: 0, denominator: 1 },
                };
                utils::append_dec(out, m.whole as u64);
                out.append(" ");
                utils::append_dec(out, m.numerator as u64);
                out.append("/");
                utils::append_dec(out, m.denominator as u64);
                out.append("SM");
                proof {
                    reveal_strlit("/");
                    reveal_strlit("SM");
                    assert(out@ =~= old(out)@ + canon_visibility_value(*a) + seq![' ']
                        + canon_second_value(*a, *b));
                }
            } else {
                append_visibility_value(out, b);
            }
            let ghost mid = old(out)@ + canon_visibility_value(*a) + seq![' '] + canon_second_value(
                *a,
                *b,
            );
            proof {
                assert(out@ =~= mid);
            }
            match d {
                VisibilityDirection::North => out.append("N"),
                VisibilityDirection::NorthEast => out.append("NE"),
                VisibilityDirection::East => out.append("E"),
                VisibilityDirection::SouthEast => out.append("SE"),
                VisibilityDirection::South => out.append("S"),
                VisibilityDirection::SouthWest => out.append("SW"),
                VisibilityDirection::West => out.append("W"),
                VisibilityDirection::NorthWest => out.append("NW"),
            }
            proof {
                assert(out@ =~= mid + canon_compass(*d));
                assert(mid + canon_compass(*d) =~= old(out)@ + canon_visibility(*v));
            }
        },
    }
}

// ---------------------------------------------------------------------
// Round trip of the canonical text
// ---------------------------------------------------------------------

/// What must stand after a meters value so that the digit run ends
/// and the statute-mile pattern cannot claim it as a whole-mile
/// prefix.
pub open spec fn meters_after_ok(s: Seq<char>, a: int) -> bool {
    &&& (a == s.len() || (!is_digit_char(s[a]) && s[a] != '/' && !lit_at(s, a, sm_tag())))
    &&& (ws_end(s, a) == s.len() || !is_digit_char(s[ws_end(s, a)]))
}

/// No visibility value can begin at `a` (after whitespace): neither
/// digits nor a categorical tag stand there.
pub open spec fn vis_cant_start(s: Seq<char>, a: int) -> bool {
    let k = ws_end(s, a);
    k == s.len() || (!is_digit_char(s[k]) && !lit_at(s, k, cavok_tag()) && !lit_at(
        s,
        k,
        nsc_tag(),
    ) && !lit_at(s, k, skc_tag()))
}

/// Where no digits and no tag stand, the visibility parser fails.
pub proof fn lemma_vis_none(s: Seq<char>, pos: int)
    requires
        0 <= pos <= s.len(),
        vis_cant_start(s, pos),
    ensures
        spec_visibility(s, pos) is None,
{
    let k = ws_end(s, pos);
    utils::lemma_ws_end(s, pos);
    utils::lemma_digit_run_end(s, k);
    assert(digit_run_end(s, k) == k);
    utils::lemma_ws_end_is(s, k, k);
}

/// The canonical text of a well-formed statute-mile value parses as
/// the statute-mile pattern back to exactly that value.
pub proof fn lemma_sm_canon(s: Seq<char>, q: int, m: StatuteMiles)
    requires
        0 <= q,
        m.wf(),
        q + canon_visibility_value(VisibilityValue::StatuteMiles(m)).len() <= s.len(),
        s.subrange(q, q + canon_visibility_value(VisibilityValue::StatuteMiles(m)).len())
            == canon_visibility_value(VisibilityValue::StatuteMiles(m)),
    ensures
        spec_statute_miles(s, q) == Some(
            (m, q + canon_visibility_value(VisibilityValue::StatuteMiles(m)).len()),
        ),
{
    let c = canon_visibility_value(VisibilityValue::StatuteMiles(m));
    let end = q + c.len();
    utils::lemma_dec(m.whole as int);
    utils::lemma_dec(m.numerator as int);
    utils::lemma_dec(m.denominator as int);
    if m.numerator == 0 {
        // the whole-mile form: digits then `SM`
        let w = utils::dec(m.whole as int);
        utils::lemma_split_at(s, q, w, sm_tag());
        utils::lemma_digits_at_transfer(s, q, q + w.len());
        let d0e = q + w.len();
        assert(s[d0e] == 'S') by {
            assert(s.subrange(d0e, end)[0] == s[d0e]);
        }
        utils::lemma_digit_run_end_is(s, q, d0e);
        utils::lemma_ws_end_is(s, d0e, d0e);
        assert(lit_at(s, d0e, sm_tag())) by {
            assert(forall|k: int|
                0 <= k < 2 ==> s.subrange(d0e, end)[k] == s[d0e + k] && s.subrange(d0e, end)[k]
                    == #[trigger] sm_tag()[k]);
        }
        assert(digits_value(s.subrange(q, d0e)) == m.whole);
    } else if m.whole > 0 {
        lemma_sm_both_form(s, q, m);
    } else {
        // the fraction-only form
        let nu = utils::dec(m.numerator as int);
        let de = utils::dec(m.denominator as int);
        utils::lemma_split_at(s, q, nu + seq!['/'] + de, sm_tag());
        utils::lemma_split_at(s, q, nu + seq!['/'], de);
        utils::lemma_split_at(s, q, nu, seq!['/']);
        let d1e = q + nu.len();
        let d2s = d1e + 1;
        let d2e = d2s + de.len();
        utils::lemma_digits_at_transfer(s, q, d1e);
        utils::lemma_digits_at_transfer(s, d2s, d2e);
        assert(s[d1e] == '/') by {
            assert(s.subrange(d1e, d2s)[0] == s[d1e]);
        }
        assert(s[d2e] == 'S') by {
            assert(s.subrange(d2e, end)[0] == s[d2e]);
        }
        utils::lemma_digit_run_end_is(s, q, d1e);
        utils::lemma_digit_run_end_is(s, d2s, d2e);
        utils::lemma_ws_end_is(s, d1e, d1e);
        assert(lit_at(s, d2e, sm_tag())) by {
            assert(forall|k: int|
                0 <= k < 2 ==> s.subrange(d2e, end)[k] == s[d2e + k] && s.subrange(d2e, end)[k]
                    == #[trigger] sm_tag()[k]);
        }
        assert(digits_value(s.subrange(q, d1e)) == m.numerator);
        assert(digits_value(s.subrange(d2s, d2e)) == m.denominator);
    }
}

/// The whole-and-fraction form `W N/DSM`, shared by the plain and the
/// always-explicit spellings.
proof fn lemma_sm_both_form(s: Seq<char>, q: int, m: StatuteMiles)
    requires
        0 <= q,
        m.wf(),
        m.numerator > 0 || m.whole >= 0,
        q + canon_miles_explicit(m).len() <= s.len(),
        s.subrange(q, q + canon_miles_explicit(m).len()) == canon_miles_explicit(m),
        m.numerator > 0 || m.denominator == 1,
    ensures
        spec_statute_miles(s, q) == Some((m, q + canon_miles_explicit(m).len())),
{
    let c = canon_miles_explicit(m);
    let end = q + c.len();
    utils::lemma_dec(m.whole as int);
    utils::lemma_dec(m.numerator as int);
    utils::lemma_dec(m.denominator as int);
    let w = utils::dec(m.whole as int);
    let nu = utils::dec(m.numerator as int);
    let de = utils::dec(m.denominator as int);
    utils::lemma_split_at(s, q, w + seq![' '] + nu + seq!['/'] + de, sm_tag());
    utils::lemma_split_at(s, q, w + seq![' '] + nu + seq!['/'], de);
    utils::lemma_split_at(s, q, w + seq![' '] + nu, seq!['/']);
    utils::lemma_split_at(s, q, w + seq![' '], nu);
    utils::lemma_split_at(s, q, w, seq![' ']);
    let d0e = q + w.len();
    let p1 = d0e + 1;
    let d1e = p1 + nu.len();
    let d2s = d1e + 1;
    let d2e = d2s + de.len();
    utils::lemma_digits_at_transfer(s, q, d0e);
    utils::lemma_digits_at_transfer(s, p1, d1e);
    utils::lemma_digits_at_transfer(s, d2s, d2e);
    assert(s[d0e] == ' ') by {
        assert(s.subrange(d0e, p1)[0] == s[d0e]);
    }
    assert(s[d1e] == '/') by {
        assert(s.subrange(d1e, d2s)[0] == s[d1e]);
    }
    assert(s[d2e] == 'S') by {
        assert(s.subrange(d2e, end)[0] == s[d2e]);
    }
    assert(is_digit_char(s[p1]) && !utils::is_space_char(s[p1])) by {
        assert(s.subrange(p1, d1e)[0] == s[p1]);
        assert(is_digit_char(nu[0]));
    }
    utils::lemma_digit_run_end_is(s, q, d0e);
    utils::lemma_ws_end_is(s, d0e, p1);
    utils::lemma_digit_run_end_is(s, p1, d1e);
    utils::lemma_digit_run_end_is(s, d2s, d2e);
    assert(lit_at(s, d2e, sm_tag())) by {
        assert(forall|k: int|
            0 <= k < 2 ==> s.subrange(d2e, end)[k] == s[d2e + k] && s.subrange(d2e, end)[k]
                == #[trigger] sm_tag()[k]);
    }
    assert(digits_value(s.subrange(q, d0e)) == m.whole);
    assert(digits_value(s.subrange(p1, d1e)) == m.numerator);
    assert(digits_value(s.subrange(d2s, d2e)) == m.denominator);
}

/// The always-explicit statute-mile spelling parses back to its
/// value wherever it stands.
pub proof fn lemma_sm_explicit_canon(s: Seq<char>, q: int, m: StatuteMiles)
    requires
        0 <= q,
        m.wf(),
        q + canon_miles_explicit(m).len() <= s.len(),
        s.subrange(q, q + canon_miles_explicit(m).len()) == canon_miles_explicit(m),
    ensures
        spec_statute_miles(s, q) == Some((m, q + canon_miles_explicit(m).len())),
{
    lemma_sm_both_form(s, q, m);
}

/// The canonical text of a well-formed visibility value, after any
/// whitespace, parses back to exactly that value.  A meters value
/// needs its fence: the text after it must close the digit run and
/// must not complete a statute-mile pattern.
pub proof fn lemma_vis_value_canon(s: Seq<char>, pos: int, v: VisibilityValue)
    requires
        0 <= pos <= s.len(),
        v.wf(),
        ws_end(s, pos) + canon_visibility_value(v).len() <= s.len(),
        s.subrange(ws_end(s, pos), ws_end(s, pos) + canon_visibility_value(v).len())
            == canon_visibility_value(v),
        v is Meters ==> meters_after_ok(s, ws_end(s, pos) + canon_visibility_value(v).len()),
    ensures
        spec_visibility(s, pos) == Some(
            (v, ws_end(s, pos) + canon_visibility_value(v).len()),
        ),
{
    let q = ws_end(s, pos);
    utils::lemma_ws_end(s, pos);
    let c = canon_visibility_value(v);
    let a = q + c.len();
    assert(forall|k: int| 0 <= k < c.len() ==> s.subrange(q, a)[k] == s[q + k]);
    match v {
        VisibilityValue::Cavok => {
            assert(lit_at(s, q, cavok_tag()));
        },
        VisibilityValue::Nsc => {
            assert(lit_at(s, q, nsc_tag()));
            assert(s[q] == 'N');
        },
        VisibilityValue::Skc => {
            assert(lit_at(s, q, skc_tag()));
            assert(s[q] == 'S');
        },
        VisibilityValue::StatuteMiles(m) => {
            utils::lemma_dec(if m.numerator == 0 {
                m.whole as int
            } else if m.whole > 0 {
                m.whole as int
            } else {
                m.numerator as int
            });
            assert(is_digit_char(s[q])) by {
                assert(c[0] == s[q]);
                assert(is_digit_char(c[0])) by {
                    utils::lemma_dec(m.whole as int);
                    utils::lemma_dec(m.numerator as int);
                }
            }
            lemma_sm_canon(s, q, m);
        },
        VisibilityValue::Meters(mv) => {
            utils::lemma_dec(mv as int);
            assert(is_digit_char(s[q])) by {
                assert(c[0] == s[q]);
            }
            utils::lemma_digits_at_transfer(s, q, a);
            utils::lemma_digit_run_end_is(s, q, a);
            assert(digits_value(s.subrange(q, a)) == mv);
            // the statute-mile pattern cannot claim the digits
            assert(spec_statute_miles(s, q) is None) by {
                let d0e = digit_run_end(s, q);
                assert(d0e == a);
                let we = ws_end(s, d0e);
                utils::lemma_ws_end(s, d0e);
                if a < s.len() && utils::is_space_char(s[a]) {
                    // a whole-mile prefix would need digits after the
                    // space, and the fence excludes them
                    let p1 = we;
                    utils::lemma_digit_run_end(s, p1);
                    assert(digit_run_end(s, p1) == p1);
                } else {
                    utils::lemma_ws_end_is(s, a, a);
                    utils::lemma_digit_run_end(s, q);
                }
            }
        },
    }
}

/// The canonical text of a well-formed visibility group, after any
/// whitespace and with no further visibility value after it, parses
/// back to exactly that group.
#[verifier::rlimit(100)]
pub proof fn lemma_vis_full_canon(s: Seq<char>, pos: int, v: Visibility)
    requires
        0 <= pos <= s.len(),
        v.wf(),
        ws_end(s, pos) + canon_visibility(v).len() <= s.len(),
        s.subrange(ws_end(s, pos), ws_end(s, pos) + canon_visibility(v).len())
            == canon_visibility(v),
        ({
            let a = ws_end(s, pos) + canon_visibility(v).len();
            &&& (a == s.len() || s[a] == ' ')
            &&& vis_cant_start(s, a)
        }),
    ensures
        spec_visibility_full(s, pos) == Some(
            (v, ws_end(s, pos) + canon_visibility(v).len()),
        ),
{
    let q = ws_end(s, pos);
    utils::lemma_ws_end(s, pos);
    let c = canon_visibility(v);
    let a = q + c.len();
    match v {
        Visibility::Single(x) => {
            assert(x is Meters ==> meters_after_ok(s, a)) by {
                if a < s.len() {
                    assert(s[a] == ' ');
                    assert(!lit_at(s, a, sm_tag())) by {
                        if lit_at(s, a, sm_tag()) {
                            assert(s[a] == sm_tag()[0]);
                        }
                    }
                }
            }
            lemma_vis_value_canon(s, pos, x);
            lemma_vis_none(s, a);
        },
        Visibility::CustomDirection(x, y, d) => {
            let cx = canon_visibility_value(x);
            let cy = canon_second_value(x, y);
            let cd = canon_compass(d);
            utils::lemma_split_at(s, q, cx + seq![' '] + cy, cd);
            utils::lemma_split_at(s, q, cx + seq![' '], cy);
            utils::lemma_split_at(s, q, cx, seq![' ']);
            let e1 = q + cx.len();
            let q2 = e1 + 1;
            let e2 = q2 + cy.len();
            assert(s[e1] == ' ') by {
                assert(s.subrange(e1, q2)[0] == s[e1]);
            }
            assert(s.subrange(e2, a) == cd);
            assert(forall|k: int| 0 <= k < cd.len() ==> s.subrange(e2, a)[k] == s[e2 + k]);
            assert(s[e2] == cd[0]);
            assert(cd[0] == 'N' || cd[0] == 'E' || cd[0] == 'S' || cd[0] == 'W');
            assert(!lit_at(s, e2, sm_tag())) by {
                if lit_at(s, e2, sm_tag()) {
                    assert(s[e2] == sm_tag()[0] && s[e2 + 1] == sm_tag()[1]);
                    assert(cd.len() == 2 ==> s[e2 + 1] == cd[1]);
                    if cd.len() == 1 {
                        assert(e2 + 1 == a);
                        assert(a < s.len() && s[a] == 'M');
                    }
                }
            }
            lemma_vis_pair_first(s, pos, x, y);
            lemma_vis_pair_second(s, e1, x, y, d, a);
            // the compass tag, two-letter tags before one-letter ones
            assert(spec_compass(s, e2) == Some((d, a))) by {
                utils::lemma_lit2(s, e2, 'N', 'W');
                utils::lemma_lit2(s, e2, 'N', 'E');
                utils::lemma_lit2(s, e2, 'S', 'E');
                utils::lemma_lit2(s, e2, 'S', 'W');
                utils::lemma_lit1(s, e2, 'N');
                utils::lemma_lit1(s, e2, 'E');
                utils::lemma_lit1(s, e2, 'S');
                utils::lemma_lit1(s, e2, 'W');
                if cd.len() == 1 {
                    assert(e2 + 1 == a);
                    if a < s.len() {
                        assert(s[a] == ' ');
                    }
                } else {
                    assert(s[e2 + 1] == cd[1]);
                }
            }
        },
    }
}

/// In a directional pair, the first value parses to exactly itself:
/// in particular a meters value is not swallowed as a whole-mile
/// prefix of the second value.
proof fn lemma_vis_pair_first(s: Seq<char>, pos: int, x: VisibilityValue, y: VisibilityValue)
    requires
        0 <= pos <= s.len(),
        x.wf(),
        y.wf(),
        ({
            let q = ws_end(s, pos);
            let e1 = q + canon_visibility_value(x).len();
            &&& e1 + 1 + canon_second_value(x, y).len() <= s.len()
            &&& s.subrange(q, e1) == canon_visibility_value(x)
            &&& s[e1] == ' '
            &&& s.subrange(e1 + 1, e1 + 1 + canon_second_value(x, y).len()) == canon_second_value(
                x,
                y,
            )
            &&& ({
                let a2 = e1 + 1 + canon_second_value(x, y).len();
                a2 == s.len() || (!is_digit_char(s[a2]) && !utils::is_space_char(s[a2]) && s[a2]
                    != '/' && !lit_at(s, a2, sm_tag()))
            })
        }),
    ensures
        spec_visibility(s, pos) == Some(
            (x, ws_end(s, pos) + canon_visibility_value(x).len()),
        ),
{
    let q = ws_end(s, pos);
    utils::lemma_ws_end(s, pos);
    let cx = canon_visibility_value(x);
    let e1 = q + cx.len();
    let q2 = e1 + 1;
    let cy = canon_second_value(x, y);
    let a2 = q2 + cy.len();
    if !(x is Meters) {
        assert(ws_end(s, pos) + canon_visibility_value(x).len() == e1);
        lemma_vis_value_canon(s, pos, x);
    } else {
        let mv = x->Meters_0;
        utils::lemma_dec(mv as int);
        assert(forall|k: int| 0 <= k < cx.len() ==> s.subrange(q, e1)[k] == s[q + k]);
        assert(is_digit_char(s[q])) by {
            assert(cx[0] == s[q]);
        }
        utils::lemma_digits_at_transfer(s, q, e1);
        utils::lemma_digit_run_end_is(s, q, e1);
        assert(digits_value(s.subrange(q, e1)) == mv);
        // the statute-mile pattern reads past the space and dies
        // before it finds `SM`
        assert(spec_statute_miles(s, q) is None) by {
            let d0e = digit_run_end(s, q);
            assert(d0e == e1);
            assert(!utils::is_space_char(s[q2])) by {
                lemma_second_value_head(s, q2, x, y);
            }
            utils::lemma_ws_end_is(s, e1, q2);
            let p1 = q2;
            let d1e = digit_run_end(s, p1);
            match y {
                VisibilityValue::Meters(m2) => {
                    utils::lemma_dec(m2 as int);
                    utils::lemma_digits_at_transfer(s, q2, a2);
                    utils::lemma_digit_run_end_is(s, q2, a2);
                    // after the digits stands the compass tag, never
                    // `/` and never `SM`
                    assert(d1e == a2);
                },
                VisibilityValue::StatuteMiles(m2) => {
                    // the explicit spelling puts a space after the
                    // whole part, where the pattern wants `/` or `SM`
                    utils::lemma_dec(m2.whole as int);
                    let w = utils::dec(m2.whole as int);
                    assert(s.subrange(q2, a2) =~= w + (seq![' '] + utils::dec(m2.numerator as int)
                        + seq!['/'] + utils::dec(m2.denominator as int) + sm_tag()));
                    utils::lemma_split_at(s, q2, w, seq![' '] + utils::dec(m2.numerator as int) + seq!['/'] + utils::dec(m2.denominator as int) + sm_tag());
                    utils::lemma_digits_at_transfer(s, q2, q2 + w.len());
                    assert(s[q2 + w.len()] == ' ') by {
                        assert(s.subrange(q2 + w.len(), a2)[0] == s[q2 + w.len()]);
                    }
                    utils::lemma_digit_run_end_is(s, q2, q2 + w.len());
                    assert(d1e == q2 + w.len());
                    assert(s[d1e] != '/');
                    assert(!lit_at(s, d1e, sm_tag())) by {
                        if lit_at(s, d1e, sm_tag()) {
                            assert(s[d1e] == sm_tag()[0]);
                        }
                    }
                },
                _ => {
                    // a categorical tag: no digits at all
                    assert(!is_digit_char(s[q2]) && s[q2] != '/') by {
                        lemma_second_value_head(s, q2, x, y);
                    }
                    utils::lemma_digit_run_end(s, p1);
                    assert(d1e == p1);
                },
            }
        }
    }
}

/// The first character of the second value of a pair: never a space,
/// and a digit exactly when the value is numeric.
proof fn lemma_second_value_head(s: Seq<char>, q2: int, x: VisibilityValue, y: VisibilityValue)
    requires
        0 <= q2,
        q2 + canon_second_value(x, y).len() <= s.len(),
        s.subrange(q2, q2 + canon_second_value(x, y).len()) == canon_second_value(x, y),
    ensures
        canon_second_value(x, y).len() >= 1,
        !utils::is_space_char(s[q2]),
        s[q2] != '/',
        (y is Meters || y is StatuteMiles) ==> is_digit_char(s[q2]),
        (y is Cavok || y is Nsc || y is Skc) ==> !is_digit_char(s[q2]),
    decreases 0int,
{
    let cy = canon_second_value(x, y);
    assert(s.subrange(q2, q2 + cy.len())[0] == s[q2]);
    match y {
        VisibilityValue::Meters(m2) => {
            utils::lemma_dec(m2 as int);
        },
        VisibilityValue::StatuteMiles(m2) => {
            utils::lemma_dec(m2.whole as int);
            utils::lemma_dec(m2.numerator as int);
            if !(x is Meters) {
                utils::lemma_dec(if m2.numerator == 0 {
                    m2.whole as int
                } else if m2.whole > 0 {
                    m2.whole as int
                } else {
                    m2.numerator as int
                });
            }
        },
        _ => {},
    }
}

/// In a directional pair, the second value parses to exactly itself.
proof fn lemma_vis_pair_second(
    s: Seq<char>,
    e1: int,
    x: VisibilityValue,
    y: VisibilityValue,
    d: VisibilityDirection,
    a: int,
)
    requires
        0 <= e1,
        x.wf(),
        y.wf(),
        ({
            let q2 = e1 + 1;
            let e2 = q2 + canon_second_value(x, y).len();
            &&& e2 + canon_compass(d).len() == a <= s.len()
            &&& s[e1] == ' '
            &&& s.subrange(q2, e2) == canon_second_value(x, y)
            &&& s.subrange(e2, a) == canon_compass(d)
            &&& (a == s.len() || s[a] == ' ')
        }),
    ensures
        spec_visibility(s, e1) == Some((y, e1 + 1 + canon_second_value(x, y).len())),
{
    let q2 = e1 + 1;
    let cy = canon_second_value(x, y);
    let e2 = q2 + cy.len();
    let cd = canon_compass(d);
    lemma_second_value_head(s, q2, x, y);
    utils::lemma_ws_end_is(s, e1, q2);
    assert(forall|k: int| 0 <= k < cd.len() ==> s.subrange(e2, a)[k] == s[e2 + k]);
    assert(s[e2] == cd[0]);
    assert(cd[0] == 'N' || cd[0] == 'E' || cd[0] == 'S' || cd[0] == 'W');
    assert(!is_digit_char(s[e2]) && s[e2] != '/' && !utils::is_space_char(s[e2]));
    assert(!lit_at(s, e2, sm_tag())) by {
        if s[e2] == 'S' {
            assert(cd[0] == 'S');
            if cd.len() == 2 {
                assert(s[e2 + 1] == 'E' || s[e2 + 1] == 'W');
            } else {
                assert(e2 + 1 == a);
                if a < s.len() {
                    assert(s[a] == ' ');
                }
            }
            assert(sm_tag()[1] == 'M');
        }
    }
    if x is Meters && y is StatuteMiles {
        let m2 = y->StatuteMiles_0;
        lemma_sm_explicit_canon(s, q2, m2);
        assert(spec_visibility(s, e1) == Some((y, e2)));
    } else {
        assert(ws_end(s, e1) == q2);
        assert(y is Meters ==> meters_after_ok(s, e2)) by {
            if y is Meters {
                utils::lemma_ws_end_is(s, e2, e2);
            }
        }
        assert(s.subrange(ws_end(s, e1), ws_end(s, e1) + canon_visibility_value(y).len())
            == canon_visibility_value(y));
        lemma_vis_value_canon(s, e1, y);
    }
}

/// Whatever the visibility parser accepts is well formed: fractions
/// come out with a usable denominator.
pub proof fn lemma_spec_visibility_wf(s: Seq<char>, pos: int)
    requires
        0 <= pos <= s.len(),
        spec_visibility(s, pos) is Some,
    ensures
        spec_visibility(s, pos).unwrap().0.wf(),
{
    let p = ws_end(s, pos);
    utils::lemma_ws_end(s, pos);
    match spec_statute_miles(s, p) {
        Some((m, e)) => {
            let d0e = digit_run_end(s, p);
            utils::lemma_digit_run_end(s, p);
            let we = ws_end(s, d0e);
            utils::lemma_ws_end(s, d0e);
            let has_whole = p < d0e && d0e < we;
            let p1 = if has_whole {
                we
            } else {
                p
            };
            utils::lemma_digit_run_end(s, p1);
            let d1e = digit_run_end(s, p1);
            let nu = s.subrange(p1, d1e);
            assert(digits_at(nu, 0, nu.len() as int)) by {
                assert(forall|k: int| 0 <= k < nu.len() ==> nu[k] == s[p1 + k]);
            }
            utils::lemma_digits_value_nonneg(nu);
            assert(m.wf());
        },
        None => {},
    }
}

/// A parsed statute-mile pattern ends after where it began, inside
/// the text.
pub proof fn lemma_spec_sm_bounds(s: Seq<char>, q: int)
    requires
        0 <= q <= s.len(),
        spec_statute_miles(s, q) is Some,
    ensures
        q < spec_statute_miles(s, q).unwrap().1 <= s.len(),
{
    let d0e = digit_run_end(s, q);
    utils::lemma_digit_run_end(s, q);
    let we = ws_end(s, d0e);
    utils::lemma_ws_end(s, d0e);
    let has_whole = q < d0e && d0e < we;
    let p1 = if has_whole {
        we
    } else {
        q
    };
    utils::lemma_digit_run_end(s, p1);
    let d1e = digit_run_end(s, p1);
    if d1e < s.len() && s[d1e] == '/' {
        utils::lemma_digit_run_end(s, d1e + 1);
    }
}

/// A parsed visibility value ends after where it began, inside the
/// text.
pub proof fn lemma_spec_visibility_bounds(s: Seq<char>, pos: int)
    requires
        0 <= pos <= s.len(),
        spec_visibility(s, pos) is Some,
    ensures
        pos < spec_visibility(s, pos).unwrap().1 <= s.len(),
{
    let p = ws_end(s, pos);
    utils::lemma_ws_end(s, pos);
    utils::lemma_digit_run_end(s, p);
    if spec_statute_miles(s, p) is Some {
        lemma_spec_sm_bounds(s, p);
    }
}

pub proof fn lemma_spec_visibility_full_wf(s: Seq<char>, pos: int)
    requires
        0 <= pos <= s.len(),
        spec_visibility_full(s, pos) is Some,
    ensures
        spec_visibility_full(s, pos).unwrap().0.wf(),
{
    match spec_visibility(s, pos) {
        None => {},
        Some((v1, e1)) => {
            lemma_spec_visibility_wf(s, pos);
            lemma_spec_visibility_bounds(s, pos);
            if spec_visibility(s, e1) is Some {
                lemma_spec_visibility_wf(s, e1);
            }
        },
    }
}

/// A visibility text is never empty and never opens with whitespace.
pub proof fn lemma_vis_canon_head(s: Seq<char>, qv: int, v: Visibility)
    requires
        0 <= qv,
        qv + canon_visibility(v).len() <= s.len(),
        s.subrange(qv, qv + canon_visibility(v).len()) == canon_visibility(v),
    ensures
        canon_visibility(v).len() >= 1,
        !utils::is_space_char(s[qv]),
{
    let c = canon_visibility(v);
    let first = match v {
        Visibility::Single(x) => x,
        Visibility::CustomDirection(x, _, _) => x,
    };
    match first {
        VisibilityValue::Meters(mv) => {
            utils::lemma_dec(mv as int);
        },
        VisibilityValue::StatuteMiles(m) => {
            utils::lemma_dec(m.whole as int);
            utils::lemma_dec(m.numerator as int);
        },
        _ => {},
    }
    assert(c[0] == canon_visibility_value(first)[0]);
    assert(s.subrange(qv, qv + c.len())[0] == s[qv]);
}

/// The digit run at the head of a visibility text never ends at a
/// `V`, so the wind parser's probe for a variable-direction suffix
/// cannot fire on it.
pub proof fn lemma_vis_head_no_v(s: Seq<char>, qv: int, v: Visibility)
    requires
        0 <= qv,
        v.wf(),
        qv + canon_visibility(v).len() <= s.len(),
        s.subrange(qv, qv + canon_visibility(v).len()) == canon_visibility(v),
        ({
            let av = qv + canon_visibility(v).len();
            av == s.len() || s[av] == ' '
        }),
    ensures
        digit_run_end(s, qv) == s.len() || s[digit_run_end(s, qv)] != 'V',
{
    let c = canon_visibility(v);
    let av = qv + c.len();
    assert(forall|k: int| 0 <= k < c.len() ==> s.subrange(qv, av)[k] == s[qv + k]);
    let first = match v {
        Visibility::Single(x) => x,
        Visibility::CustomDirection(x, _, _) => x,
    };
    let cx = canon_visibility_value(first);
    assert(forall|k: int| 0 <= k < cx.len() ==> cx[k] == c[k]);
    match first {
        VisibilityValue::Cavok | VisibilityValue::Nsc | VisibilityValue::Skc => {
            assert(s[qv] == 'C' || s[qv] == 'N' || s[qv] == 'S');
            utils::lemma_digit_run_end(s, qv);
            assert(digit_run_end(s, qv) == qv);
        },
        VisibilityValue::Meters(mv) => {
            utils::lemma_dec(mv as int);
            let w = utils::dec(mv as int);
            let e = qv + w.len();
            assert(forall|k: int| qv <= k < e ==> is_digit_char(#[trigger] s[k])) by {
                assert(forall|k: int| qv <= k < e ==> s[k] == w[k - qv]);
            }
            assert(e == s.len() || s[e] == ' ') by {
                if v is CustomDirection {
                    assert(s[e] == c[e - qv]);
                    assert(c[cx.len() as int] == ' ');
                } else {
                    assert(e == av);
                }
            }
            utils::lemma_digit_run_end_is(s, qv, e);
        },
        VisibilityValue::StatuteMiles(m) => {
            let first_run = if m.numerator == 0 || m.whole > 0 {
                utils::dec(m.whole as int)
            } else {
                utils::dec(m.numerator as int)
            };
            utils::lemma_dec(m.whole as int);
            utils::lemma_dec(m.numerator as int);
            let e = qv + first_run.len();
            assert(forall|k: int| qv <= k < e ==> is_digit_char(#[trigger] s[k])) by {
                assert(forall|k: int| qv <= k < e ==> s[k] == cx[k - qv] && cx[k - qv]
                    == first_run[k - qv]);
            }
            assert(s[e] == 'S' || s[e] == ' ' || s[e] == '/') by {
                assert(s[e] == cx[e - qv]);
                if m.numerator == 0 {
                    assert(cx[first_run.len() as int] == sm_tag()[0]);
                } else if m.whole > 0 {
                    assert(cx[first_run.len() as int] == ' ');
                } else {
                    assert(cx[first_run.len() as int] == '/');
                }
            }
            utils::lemma_digit_run_end_is(s, qv, e);
        },
    }
}

/// Parse a single visibility value at the head of `s`, returning the
/// rest of the input and the value.
pub fn parse_visibility(s: &str) -> (r: Result<(&str, VisibilityValue), ParseError>)
    ensures
        match r {
            Ok((rest, v)) => spec_visibility(s@, 0) matches Some((v2, e)) && v2 == v && rest@
                == s@.subrange(e, s@.len() as int) && v.wf(),
            Err(e) => spec_visibility(s@, 0) is None && e.kind == (if spec_visibility_bounds_err(
                s@,
                0,
            ) {
                ErrorKind::Bounds
            } else {
                ErrorKind::Syntax
            }),
        },
{
    match visibility_at(s, 0) {
        Ok((v, e)) => Ok((utils::rest_of(s, e), v)),
        Err(e) => Err(e),
    }
}

/// Parse the full visibility group at the head of `s`, returning the
/// rest of the input and the group.
pub fn parse_visibility_full(s: &str) -> (r: Result<(&str, Visibility), ParseError>)
    ensures
        match r {
            Ok((rest, v)) => spec_visibility_full(s@, 0) matches Some((v2, e)) && v2 == v && rest@
                == s@.subrange(e, s@.len() as int) && v.wf(),
            Err(e) => spec_visibility_full(s@, 0) is None && e.kind == (
            if spec_visibility_bounds_err(s@, 0) {
                ErrorKind::Bounds
            } else {
                ErrorKind::Syntax
            }),
        },
{
    match visibility_full_at(s, 0) {
        Ok((v, e)) => Ok((utils::rest_of(s, e), v)),
        Err(e) => Err(e),
    }
}

} // verus!
