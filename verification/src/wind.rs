//! The wind group: a three-character direction token, a speed, an
//! optional gust, a unit, and an optional variable-direction range.

use vstd::prelude::*;

use crate::utils::{
    self, alpha_run_end, digit_run_end, digits_at, digits_value, eq_ci, is_alpha_char,
    is_digit_char, is_space_char, ws_end, ErrorKind, ParseError,
};

verus! {

/// Unit of a wind speed, matched case-insensitively.
#[derive(Debug, PartialEq, Eq, Clone, Copy)]
pub enum WindUnit {
    Mps,
    Mph,
    Kt,
}

/// A fixed numeric heading, or the literal `VRB` for a variable one.
#[derive(Debug, PartialEq, Eq, Clone, Copy)]
pub enum WindDirection {
    Direct(u16),
    Variable,
}

/// The parsed wind group.
#[derive(Debug, PartialEq, Eq, Clone, Copy)]
pub struct Wind {
    pub direction: WindDirection,
    pub speed: u16,
    pub gust_speed: Option<u16>,
    pub unit: WindUnit,
    pub variable_direction: Option<(u16, u16)>,
}

// ---------------------------------------------------------------------
// Token grammars
// ---------------------------------------------------------------------

pub open spec fn vrb_tag() -> Seq<char> {
    seq!['V', 'R', 'B']
}

/// A direction token: a run of digits is a fixed heading, the literal
/// `VRB` a variable one, anything else malformed.
pub open spec fn spec_wind_direction(tok: Seq<char>) -> Option<WindDirection> {
    if tok.len() > 0 && digits_at(tok, 0, tok.len() as int) && digits_value(tok) <= u16::MAX {
        Some(WindDirection::Direct(digits_value(tok) as u16))
    } else if tok == vrb_tag() {
        Some(WindDirection::Variable)
    } else {
        None
    }
}

/// A unit token, compared case-insensitively against the three
/// accepted literals.
pub open spec fn spec_wind_unit(tok: Seq<char>) -> Option<WindUnit> {
    if eq_ci(tok, seq!['M', 'P', 'S']) {
        Some(WindUnit::Mps)
    } else if eq_ci(tok, seq!['M', 'P', 'H']) {
        Some(WindUnit::Mph)
    } else if eq_ci(tok, seq!['K', 'T']) {
        Some(WindUnit::Kt)
    } else {
        None
    }
}

/// Grammar of the variable-direction suffix `<digits>V<digits>`.  The
/// suffix is genuinely optional: when the pattern does not stand at
/// `pos` (after whitespace), the field is absent and nothing is
/// consumed, rather than the wind group failing.
pub open spec fn spec_variable_wind(s: Seq<char>, pos: int) -> (Option<(u16, u16)>, int) {
    let p = ws_end(s, pos);
    let d1 = digit_run_end(s, p);
    if p < d1 < s.len() && s[d1] == 'V' && digits_value(s.subrange(p, d1)) <= u16::MAX {
        let d2 = digit_run_end(s, d1 + 1);
        if d1 + 1 < d2 && digits_value(s.subrange(d1 + 1, d2)) <= u16::MAX {
            (
                Some(
                    (
                        digits_value(s.subrange(p, d1)) as u16,
                        digits_value(s.subrange(d1 + 1, d2)) as u16,
                    ),
                ),
                d2,
            )
        } else {
            (None, pos)
        }
    } else {
        (None, pos)
    }
}

/// Grammar of the whole wind group: direction token, speed digits,
/// optional `G` plus gust digits, unit letters, optional
/// variable-direction suffix.
pub open spec fn spec_wind(s: Seq<char>, pos: int) -> Option<(Wind, int)> {
    let p = ws_end(s, pos);
    if p + 3 > s.len() {
        None
    } else {
        match spec_wind_direction(s.subrange(p, p + 3)) {
            None => None,
            Some(direction) => {
                let se = digit_run_end(s, p + 3);
                if se == p + 3 || digits_value(s.subrange(p + 3, se)) > u16::MAX {
                    None
                } else {
                    let speed = digits_value(s.subrange(p + 3, se)) as u16;
                    let after = spec_gust_end(s, se);
                    let gust = spec_gust_value(s, se);
                    let ue = alpha_run_end(s, after);
                    match spec_wind_unit(s.subrange(after, ue)) {
                        None => None,
                        Some(unit) => {
                            let (vd, end) = spec_variable_wind(s, ue);
                            Some(
                                (
                                    Wind {
                                        direction,
                                        speed,
                                        gust_speed: gust,
                                        unit,
                                        variable_direction: vd,
                                    },
                                    if vd is Some {
                                        end
                                    } else {
                                        ue
                                    },
                                ),
                            )
                        },
                    }
                }
            },
        }
    }
}

/// Whether a failed wind group died on its one bounds check: the
/// direction token is good and speed digits follow, but their value
/// does not fit the speed type.
pub open spec fn spec_wind_bounds_err(s: Seq<char>, pos: int) -> bool {
    let p = ws_end(s, pos);
    &&& p + 3 <= s.len()
    &&& spec_wind_direction(s.subrange(p, p + 3)) is Some
    &&& p + 3 < digit_run_end(s, p + 3)
    &&& digits_value(s.subrange(p + 3, digit_run_end(s, p + 3))) > u16::MAX
}

/// Position after the optional gust part that begins at `se`.
pub open spec fn spec_gust_end(s: Seq<char>, se: int) -> int {
    if se < s.len() && s[se] == 'G' {
        digit_run_end(s, se + 1)
    } else {
        se
    }
}

/// Value of the optional gust part: present only when `G` stands at
/// `se` and is followed by digits that fit the speed type; a `G` whose
/// digits do not is consumed but yields no gust.
pub open spec fn spec_gust_value(s: Seq<char>, se: int) -> Option<u16> {
    if se < s.len() && s[se] == 'G' {
        let ge = digit_run_end(s, se + 1);
        if se + 1 < ge && digits_value(s.subrange(se + 1, ge)) <= u16::MAX {
            Some(digits_value(s.subrange(se + 1, ge)) as u16)
        } else {
            None
        }
    } else {
        None
    }
}

// ---------------------------------------------------------------------
// Constructors
// ---------------------------------------------------------------------

impl Wind {
    /// Assemble a wind group from already-typed parts; never fails.
    pub fn new(
        direction: WindDirection,
        speed: u16,
        gust_speed: Option<u16>,
        unit: WindUnit,
        variable_direction: Option<(u16, u16)>,
    ) -> (r: Result<Wind, ParseError>)
        ensures
            r matches Ok(w) && w == (Wind { direction, speed, gust_speed, unit, variable_direction }),
    {
        Ok(Wind { direction, speed, gust_speed, unit, variable_direction })
    }

    /// Assemble a wind group from raw tokens: the direction and unit
    /// tokens must match their grammars and the speed must be a digit
    /// run that fits; a gust token that does not parse is dropped, as
    /// the gust is optional.
    pub fn from_str(
        direction: &str,
        speed: &str,
        gust_speed: Option<&str>,
        unit: &str,
        variable_direction: Option<(u16, u16)>,
    ) -> (r: Result<Wind, ParseError>)
        ensures
            match r {
                Ok(w) => {
                    &&& spec_wind_direction(direction@) == Some(w.direction)
                    &&& spec_speed_ok(speed@)
                    &&& w.speed == digits_value(speed@)
                    &&& w.gust_speed == spec_gust_token(gust_speed)
                    &&& spec_wind_unit(unit@) == Some(w.unit)
                    &&& w.variable_direction == variable_direction
                },
                Err(e) => {
                    &&& {
                        ||| spec_wind_direction(direction@) is None
                        ||| !spec_speed_ok(speed@)
                        ||| spec_wind_unit(unit@) is None
                    }
                    &&& e.kind == ErrorKind::Syntax
                },
            },
    {
        let dir = match wind_direction_token(direction) {
            Some(d) => d,
            None => {
                return Err(ParseError { kind: ErrorKind::Syntax, offset: 0 });
            },
        };
        let sp = match speed_token(speed) {
            Some(v) => v,
            None => {
                return Err(ParseError { kind: ErrorKind::Syntax, offset: 0 });
            },
        };
        let gs = match gust_speed {
            Some(g) => speed_token(g),
            None => None,
        };
        let n = unit.unicode_len();
        let un = if utils::match_ci(unit, 0, n, &['M', 'P', 'S']) {
            WindUnit::Mps
        } else if utils::match_ci(unit, 0, n, &['M', 'P', 'H']) {
            WindUnit::Mph
        } else if utils::match_ci(unit, 0, n, &['K', 'T']) {
            WindUnit::Kt
        } else {
            proof {
                assert(unit@.subrange(0, n as int) =~= unit@);
            }
            return Err(ParseError { kind: ErrorKind::Syntax, offset: 0 });
        };
        proof {
            assert(unit@.subrange(0, n as int) =~= unit@);
        }
        Wind::new(dir, sp, gs, un, variable_direction)
    }
}

/// `tok` is a digit run whose value fits the speed type.
pub open spec fn spec_speed_ok(tok: Seq<char>) -> bool {
    tok.len() > 0 && digits_at(tok, 0, tok.len() as int) && digits_value(tok) <= u16::MAX
}

/// The gust carried by an optional raw token: a token that is no
/// well-formed speed yields no gust rather than a failure.
pub open spec fn spec_gust_token(tok: Option<&str>) -> Option<u16> {
    match tok {
        Some(g) => if spec_speed_ok(g@) {
            Some(digits_value(g@) as u16)
        } else {
            None
        },
        None => None,
    }
}

/// Parse a whole token as a speed numeral.
fn speed_token(s: &str) -> (r: Option<u16>)
    ensures
        match r {
            Some(v) => spec_speed_ok(s@) && v == digits_value(s@),
            None => !spec_speed_ok(s@),
        },
{
    let n = s.unicode_len();
    let e = utils::scan_digits(s, 0);
    proof {
        utils::lemma_digit_run_end(s@, 0);
        if digits_at(s@, 0, n as int) {
            utils::lemma_digit_run_end_at_least(s@, 0, n as int);
        }
    }
    if n == 0 || e < n {
        return None;
    }
    proof {
        assert(s@.subrange(0, n as int) =~= s@);
    }
    match utils::eval_digits(s, 0, n, 65535) {
        Some(v) => Some(v as u16),
        None => None,
    }
}

/// Parse a whole token as a wind direction.
fn wind_direction_token(s: &str) -> (r: Option<WindDirection>)
    ensures
        r == spec_wind_direction(s@),
{
    let n = s.unicode_len();
    let e = utils::scan_digits(s, 0);
    proof {
        utils::lemma_digit_run_end(s@, 0);
        if digits_at(s@, 0, n as int) {
            utils::lemma_digit_run_end_at_least(s@, 0, n as int);
        }
        assert(s@.subrange(0, n as int) =~= s@);
    }
    if n > 0 && e == n {
        match utils::eval_digits(s, 0, n, 65535) {
            Some(v) => Some(WindDirection::Direct(v as u16)),
            None => None,
        }
    } else if n == 3 && utils::match_lit(s, 0, &['V', 'R', 'B']) {
        proof {
            assert(s@ =~= vrb_tag());
        }
        Some(WindDirection::Variable)
    } else {
        proof {
            // the token is not the variable literal either
            if s@ == vrb_tag() {
                assert(s@[0] == 'V' && s@[1] == 'R' && s@[2] == 'B');
            }
        }
        None
    }
}

// ---------------------------------------------------------------------
// Field parsers
// ---------------------------------------------------------------------

/// Parse the optional variable-direction suffix at `pos`; consumes
/// nothing when the pattern is absent.  This parser cannot fail.
pub(crate) fn variable_wind_at(s: &str, pos: usize) -> (r: (Option<(u16, u16)>, usize))
    requires
        pos <= s@.len(),
    ensures
        spec_variable_wind(s@, pos as int) == (r.0, r.1 as int),
        pos <= r.1 <= s@.len(),
{
    let n = s.unicode_len();
    let p = utils::skip_ws(s, pos);
    let d1 = utils::scan_digits(s, p);
    proof {
        utils::lemma_digit_run_end(s@, p as int);
    }
    if !(p < d1 && d1 < n && s.get_char(d1) == 'V') {
        return (None, pos);
    }
    let v1 = match utils::eval_digits(s, p, d1, 65535) {
        Some(v) => v,
        None => {
            return (None, pos);
        },
    };
    let d2 = utils::scan_digits(s, d1 + 1);
    proof {
        utils::lemma_digit_run_end(s@, d1 + 1);
    }
    if !(d1 + 1 < d2) {
        return (None, pos);
    }
    let v2 = match utils::eval_digits(s, d1 + 1, d2, 65535) {
        Some(v) => v,
        None => {
            return (None, pos);
        },
    };
    (Some((v1 as u16, v2 as u16)), d2)
}

/// Parse the wind group at `pos`.
pub(crate) fn wind_at(s: &str, pos: usize) -> (r: Result<(Wind, usize), ParseError>)
    requires
        pos <= s@.len(),
    ensures
        match r {
            Ok((w, p)) => spec_wind(s@, pos as int) == Some((w, p as int)) && pos <= p <= s@.len(),
            Err(e) => {
                &&& spec_wind(s@, pos as int) is None
                &&& e.kind == (if spec_wind_bounds_err(s@, pos as int) {
                    ErrorKind::Bounds
                } else {
                    ErrorKind::Syntax
                })
                &&& e.offset <= s@.len()
            },
        },
{
    let n = s.unicode_len();
    let p = utils::skip_ws(s, pos);
    if n - p < 3 {
        return Err(ParseError { kind: ErrorKind::Syntax, offset: p });
    }
    let ghost dir_tok = s@.subrange(p as int, p + 3);
    let dr = utils::scan_digits(s, p);
    proof {
        utils::lemma_digit_run_end(s@, p as int);
    }
    let direction: WindDirection = if dr >= p + 3 {
        proof {
            assert(digits_at(dir_tok, 0, 3)) by {
                assert(forall|k: int| 0 <= k < 3 ==> dir_tok[k] == s@[p + k]);
            }
            assert(dir_tok != vrb_tag()) by {
                assert(is_digit_char(dir_tok[0]));
            }
        }
        match utils::eval_digits(s, p, p + 3, 65535) {
            Some(v) => WindDirection::Direct(v as u16),
            None => {
                return Err(ParseError { kind: ErrorKind::Syntax, offset: p });
            },
        }
    } else if utils::match_lit(s, p, &['V', 'R', 'B']) {
        proof {
            assert(dir_tok =~= vrb_tag());
            assert(!is_digit_char(dir_tok[0]));
        }
        WindDirection::Variable
    } else {
        proof {
            assert(spec_wind_direction(dir_tok) is None) by {
                if dir_tok.len() > 0 && digits_at(dir_tok, 0, 3) {
                    assert forall|k: int| p <= k < p + 3 implies is_digit_char(#[trigger] s@[k]) by {
                        assert(dir_tok[k - p] == s@[k]);
                        assert(is_digit_char(dir_tok[k - p]));
                    }
                    utils::lemma_digit_run_end_at_least(s@, p as int, p + 3);
                }
                if dir_tok == vrb_tag() {
                    assert(dir_tok[0] == 'V' && dir_tok[1] == 'R' && dir_tok[2] == 'B');
                    assert(s@[p as int] == 'V' && s@[p + 1] == 'R' && s@[p + 2] == 'B');
                }
            }
        }
        return Err(ParseError { kind: ErrorKind::Syntax, offset: p });
    };
    let se = utils::scan_digits(s, p + 3);
    proof {
        utils::lemma_digit_run_end(s@, p + 3);
    }
    if se == p + 3 {
        return Err(ParseError { kind: ErrorKind::Syntax, offset: se });
    }
    let speed: u16 = match utils::eval_digits(s, p + 3, se, 65535) {
        Some(v) => v as u16,
        None => {
            return Err(ParseError { kind: ErrorKind::Bounds, offset: p + 3 });
        },
    };
    let (gust, after) = if se < n && s.get_char(se) == 'G' {
        let ge = utils::scan_digits(s, se + 1);
        proof {
            utils::lemma_digit_run_end(s@, se + 1);
        }
        if se + 1 < ge {
            match utils::eval_digits(s, se + 1, ge, 65535) {
                Some(v) => (Some(v as u16), ge),
                None => (None, ge),
            }
        } else {
            (None, ge)
        }
    } else {
        (None, se)
    };
    let ue = utils::scan_alpha(s, after);
    let unit = if utils::match_ci(s, after, ue, &['M', 'P', 'S']) {
        WindUnit::Mps
    } else if utils::match_ci(s, after, ue, &['M', 'P', 'H']) {
        WindUnit::Mph
    } else if utils::match_ci(s, after, ue, &['K', 'T']) {
        WindUnit::Kt
    } else {
        return Err(ParseError { kind: ErrorKind::Syntax, offset: after });
    };
    let (vd, vend) = variable_wind_at(s, ue);
    let end = if vd.is_some() {
        vend
    } else {
        ue
    };
    Ok(
        (
            Wind {
                direction,
                speed,
                gust_speed: gust,
                unit,
                variable_direction: vd,
            },
            end,
        ),
    )
}

// ---------------------------------------------------------------------
// Canonical text
// ---------------------------------------------------------------------

pub open spec fn canon_direction(d: WindDirection) -> Seq<char> {
    match d {
        WindDirection::Direct(n) => utils::pad3(n as int),
        WindDirection::Variable => vrb_tag(),
    }
}

pub open spec fn canon_unit(u: WindUnit) -> Seq<char> {
    match u {
        WindUnit::Mps => seq!['M', 'P', 'S'],
        WindUnit::Mph => seq!['M', 'P', 'H'],
        WindUnit::Kt => seq!['K', 'T'],
    }
}

pub open spec fn canon_gust(g: Option<u16>) -> Seq<char> {
    match g {
        Some(g) => seq!['G'] + utils::dec(g as int),
        None => Seq::<char>::empty(),
    }
}

pub open spec fn canon_variable(vd: Option<(u16, u16)>) -> Seq<char> {
    match vd {
        Some((a, b)) => seq![' '] + utils::dec(a as int) + seq!['V'] + utils::dec(b as int),
        None => Seq::<char>::empty(),
    }
}

/// Canonical text of a wind group.
pub open spec fn canon_wind(w: Wind) -> Seq<char> {
    canon_direction(w.direction) + utils::dec(w.speed as int) + canon_gust(w.gust_speed)
        + canon_unit(w.unit) + canon_variable(w.variable_direction)
}

fn append_direction(out: &mut String, d: WindDirection)
    ensures
        final(out)@ == old(out)@ + canon_direction(d),
{
    proof {
        reveal_strlit("VRB");
    }
    match d {
        WindDirection::Direct(n) => utils::append_pad3(out, n),
        WindDirection::Variable => out.append("VRB"),
    }
    proof {
        assert(out@ =~= old(out)@ + canon_direction(d));
    }
}

fn append_gust(out: &mut String, g: Option<u16>)
    ensures
        final(out)@ == old(out)@ + canon_gust(g),
{
    proof {
        reveal_strlit("G");
    }
    match g {
        Some(g) => {
            out.append("G");
            utils::append_dec(out, g as u64);
        },
        None => {},
    }
    proof {
        assert(out@ =~= old(out)@ + canon_gust(g));
    }
}

fn append_unit(out: &mut String, u: WindUnit)
    ensures
        final(out)@ == old(out)@ + canon_unit(u),
{
    proof {
        reveal_strlit("MPS");
        reveal_strlit("MPH");
        reveal_strlit("KT");
    }
    match u {
        WindUnit::Mps => out.append("MPS"),
        WindUnit::Mph => out.append("MPH"),
        WindUnit::Kt => out.append("KT"),
    }
    proof {
        assert(out@ =~= old(out)@ + canon_unit(u));
    }
}

fn append_variable(out: &mut String, vd: Option<(u16, u16)>)
    ensures
        final(out)@ == old(out)@ + canon_variable(vd),
{
    proof {
        reveal_strlit(" ");
        reveal_strlit("V");
    }
    match vd {
        Some((a, b)) => {
            out.append(" ");
            utils::append_dec(out, a as u64);
            out.append("V");
            utils::append_dec(out, b as u64);
        },
        None => {},
    }
    proof {
        assert(out@ =~= old(out)@ + canon_variable(vd));
    }
}

/// Append the canonical text of `w` to `out`.
pub(crate) fn append_wind(out: &mut String, w: &Wind)
    ensures
        final(out)@ == old(out)@ + canon_wind(*w),
{
    let ghost a = canon_direction(w.direction);
    let ghost b = utils::dec(w.speed as int);
    let ghost c = canon_gust(w.gust_speed);
    let ghost d = canon_unit(w.unit);
    let ghost e = canon_variable(w.variable_direction);
    append_direction(out, w.direction);
    utils::append_dec(out, w.speed as u64);
    append_gust(out, w.gust_speed);
    append_unit(out, w.unit);
    append_variable(out, w.variable_direction);
    proof {
        assert(out@ == old(out)@ + a + b + c + d + e);
        assert(canon_wind(*w) == a + b + c + d + e);
        assert(old(out)@ + a + b + c + d + e =~= old(out)@ + (a + b + c + d + e));
    }
}

/// What must hold of a wind group for its canonical text to parse
/// back: a fixed heading must fit the three-digit token.
pub open spec fn wf_wind(w: Wind) -> bool {
    match w.direction {
        WindDirection::Direct(n) => n <= 999,
        WindDirection::Variable => true,
    }
}

/// No `<digits>V` pattern stands after `a` (whitespace skipped), so
/// an absent variable-direction suffix stays absent.
pub open spec fn no_variable_pattern(s: Seq<char>, a: int) -> bool {
    let k = ws_end(s, a);
    let e = digit_run_end(s, k);
    e == s.len() || s[e] != 'V'
}

/// Whatever the wind parser accepts is well formed: a fixed heading
/// read from the three-character token fits it again.
pub proof fn lemma_spec_wind_wf(s: Seq<char>, pos: int)
    requires
        0 <= pos <= s.len(),
        spec_wind(s, pos) is Some,
    ensures
        wf_wind(spec_wind(s, pos).unwrap().0),
{
    let p = ws_end(s, pos);
    utils::lemma_ws_end(s, pos);
    let tok = s.subrange(p, p + 3);
    if spec_wind_direction(tok) matches Some(WindDirection::Direct(n)) {
        assert(tok.len() == 3);
        utils::lemma_digits_value_nonneg(tok);
        utils::lemma_digits_value_upper(tok);
    }
}

/// A parsed wind group ends inside the text, at or after where it
/// began.
pub proof fn lemma_spec_wind_bounds(s: Seq<char>, pos: int)
    requires
        0 <= pos <= s.len(),
        spec_wind(s, pos) is Some,
    ensures
        pos <= spec_wind(s, pos).unwrap().1 <= s.len(),
{
    let p = ws_end(s, pos);
    utils::lemma_ws_end(s, pos);
    let se = digit_run_end(s, p + 3);
    utils::lemma_digit_run_end(s, p + 3);
    let after = spec_gust_end(s, se);
    if se < s.len() && s[se] == 'G' {
        utils::lemma_digit_run_end(s, se + 1);
    }
    let ue = alpha_run_end(s, after);
    utils::lemma_alpha_run_end(s, after);
    let (vd, end) = spec_variable_wind(s, ue);
    if vd is Some {
        let p2 = ws_end(s, ue);
        utils::lemma_ws_end(s, ue);
        let d1 = digit_run_end(s, p2);
        utils::lemma_digit_run_end(s, p2);
        utils::lemma_digit_run_end(s, d1 + 1);
    }
}

/// The canonical text of a well-formed wind group, after any
/// whitespace and followed by a space or the end of the text, parses
/// back to exactly that group.
#[verifier::rlimit(100)]
pub proof fn lemma_wind_canon(s: Seq<char>, pos: int, w: Wind)
    requires
        0 <= pos <= s.len(),
        wf_wind(w),
        ws_end(s, pos) + canon_wind(w).len() <= s.len(),
        s.subrange(ws_end(s, pos), ws_end(s, pos) + canon_wind(w).len()) == canon_wind(w),
        ({
            let a = ws_end(s, pos) + canon_wind(w).len();
            a == s.len() || s[a] == ' '
        }),
        w.variable_direction is None ==> no_variable_pattern(
            s,
            ws_end(s, pos) + canon_wind(w).len(),
        ),
    ensures
        spec_wind(s, pos) == Some((w, ws_end(s, pos) + canon_wind(w).len())),
{
    let q = ws_end(s, pos);
    utils::lemma_ws_end(s, pos);
    let dtext = canon_direction(w.direction);
    let sptext = utils::dec(w.speed as int);
    let gtext = canon_gust(w.gust_speed);
    let utext = canon_unit(w.unit);
    let vtext = canon_variable(w.variable_direction);
    let lw = canon_wind(w).len() as int;
    let end = q + lw;
    utils::lemma_dec(w.speed as int);
    if w.direction is Direct {
        utils::lemma_pad3(w.direction->Direct_0 as int);
    }
    assert(dtext.len() == 3);
    let q3 = q + 3;
    let sp_end = q3 + sptext.len();
    let g_end = sp_end + gtext.len();
    let u_end = g_end + utext.len();
    assert(end == u_end + vtext.len());
    utils::lemma_split_at(s, q, dtext + sptext + gtext + utext, vtext);
    utils::lemma_split_at(s, q, dtext + sptext + gtext, utext);
    utils::lemma_split_at(s, q, dtext + sptext, gtext);
    utils::lemma_split_at(s, q, dtext, sptext);
    // the direction token
    assert(s.subrange(q, q3) == dtext);
    match w.direction {
        WindDirection::Direct(n) => {
            utils::lemma_digits_at_transfer(s, q, q3);
            assert(digits_value(s.subrange(q, q3)) == n);
            assert(spec_wind_direction(s.subrange(q, q3)) == Some(WindDirection::Direct(n)));
        },
        WindDirection::Variable => {
            assert(s.subrange(q, q3) == vrb_tag());
            assert(!is_digit_char(vrb_tag()[0]));
            assert(spec_wind_direction(s.subrange(q, q3)) == Some(WindDirection::Variable));
        },
    }
    // the speed digits
    utils::lemma_digits_at_transfer(s, q3, sp_end);
    let after_speed_char = if w.gust_speed is Some {
        'G'
    } else {
        utext[0]
    };
    assert(utext.len() >= 2);
    assert(s[sp_end] == after_speed_char) by {
        if w.gust_speed is Some {
            assert(s.subrange(sp_end, g_end)[0] == s[sp_end]);
            assert(gtext[0] == 'G');
        } else {
            assert(g_end == sp_end);
            assert(s.subrange(g_end, u_end)[0] == s[g_end]);
        }
    }
    assert(!is_digit_char(after_speed_char)) by {
        if w.gust_speed is None {
            assert(utext[0] == 'M' || utext[0] == 'K');
        }
    }
    utils::lemma_digit_run_end_is(s, q3, sp_end);
    assert(digits_value(s.subrange(q3, sp_end)) == w.speed);
    // the gust part
    match w.gust_speed {
        Some(g) => {
            utils::lemma_dec(g as int);
            utils::lemma_split_at(s, sp_end, seq!['G'], utils::dec(g as int));
            utils::lemma_digits_at_transfer(s, sp_end + 1, g_end);
            assert(s[g_end] == utext[0]) by {
                assert(s.subrange(g_end, u_end)[0] == s[g_end]);
            }
            assert(!is_digit_char(utext[0])) by {
                assert(utext[0] == 'M' || utext[0] == 'K');
            }
            utils::lemma_digit_run_end_is(s, sp_end + 1, g_end);
            assert(digits_value(s.subrange(sp_end + 1, g_end)) == g);
            assert(spec_gust_value(s, sp_end as int) == Some(g));
            assert(spec_gust_end(s, sp_end as int) == g_end);
        },
        None => {
            assert(s[sp_end] != 'G');
            assert(spec_gust_value(s, sp_end as int) == None::<u16>);
            assert(spec_gust_end(s, sp_end as int) == sp_end);
        },
    }
    // the unit letters
    assert(forall|k: int| g_end <= k < u_end ==> is_alpha_char(#[trigger] s[k])) by {
        assert(forall|k: int|
            0 <= k < utext.len() ==> s.subrange(g_end, u_end)[k] == s[g_end + k]);
        assert(forall|k: int| 0 <= k < utext.len() ==> is_alpha_char(#[trigger] utext[k]));
    }
    assert(u_end == s.len() || !is_alpha_char(s[u_end])) by {
        if w.variable_direction is Some {
            assert(s.subrange(u_end, end)[0] == s[u_end]);
            assert(vtext[0] == ' ');
        } else {
            assert(u_end == end);
        }
    }
    utils::lemma_alpha_run_end_is(s, g_end, u_end);
    assert(s.subrange(g_end, u_end) == utext);
    assert(spec_wind_unit(utext) == Some(w.unit));
    // the variable-direction suffix
    match w.variable_direction {
        Some((va, vb)) => {
            utils::lemma_dec(va as int);
            utils::lemma_dec(vb as int);
            let a1 = u_end + 1;
            let a2 = a1 + utils::dec(va as int).len();
            let b1 = a2 + 1;
            utils::lemma_split_at(s, u_end, seq![' '] + utils::dec(va as int) + seq!['V'], utils::dec(vb as int));
            utils::lemma_split_at(s, u_end, seq![' '] + utils::dec(va as int), seq!['V']);
            utils::lemma_split_at(s, u_end, seq![' '], utils::dec(va as int));
            assert(s[u_end] == ' ') by {
                assert(s.subrange(u_end, u_end + 1)[0] == s[u_end]);
            }
            utils::lemma_digits_at_transfer(s, a1, a2);
            assert(s[a2] == 'V') by {
                assert(s.subrange(a2, a2 + 1)[0] == s[a2]);
            }
            assert(!is_space_char(s[a1]) && is_digit_char(s[a1])) by {
                assert(s.subrange(a1, a2)[0] == s[a1]);
                assert(is_digit_char(utils::dec(va as int)[0]));
            }
            utils::lemma_ws_end_is(s, u_end, a1);
            utils::lemma_digit_run_end_is(s, a1, a2);
            utils::lemma_digits_at_transfer(s, b1, end);
            assert(end == s.len() || !is_digit_char(s[end]));
            utils::lemma_digit_run_end_is(s, b1, end);
            assert(digits_value(s.subrange(a1, a2)) == va);
            assert(digits_value(s.subrange(b1, end)) == vb);
            assert(spec_variable_wind(s, u_end) == (Some((va, vb)), end));
        },
        None => {
            assert(u_end == end);
            assert(spec_variable_wind(s, u_end).0 is None) by {
                let k = ws_end(s, u_end);
                let e = digit_run_end(s, k);
                utils::lemma_ws_end(s, u_end);
                utils::lemma_digit_run_end(s, k);
            }
        },
    }
    assert(spec_wind(s, pos) == Some((w, end)));
}

/// Parse the optional variable-direction suffix at the head of `s`,
/// returning the rest of the input and the range when present.  This
/// parser cannot fail.
pub fn parse_variable_wind_direction(s: &str) -> (r: Result<
    (&str, Option<(u16, u16)>),
    ParseError,
>)
    ensures
        r matches Ok((rest, vd)) && ({
            let (vd2, p) = spec_variable_wind(s@, 0);
            vd == vd2 && rest@ == s@.subrange(if vd2 is Some { p } else { 0 }, s@.len() as int)
        }),
{
    let (vd, p) = variable_wind_at(s, 0);
    let cut = if vd.is_some() {
        p
    } else {
        0
    };
    proof {
        if !(spec_variable_wind(s@, 0).0 is Some) {
            assert(s@.subrange(0, s@.len() as int) =~= s@);
        }
    }
    Ok((utils::rest_of(s, cut), vd))
}

/// Parse the wind group at the head of `s`, returning the rest of the
/// input and the wind.
pub fn parse_wind(s: &str) -> (r: Result<(&str, Wind), ParseError>)
    ensures
        match r {
            Ok((rest, w)) => spec_wind(s@, 0) matches Some((w2, p)) && w2 == w && rest@
                == s@.subrange(p, s@.len() as int),
            Err(e) => spec_wind(s@, 0) is None && e.kind == (if spec_wind_bounds_err(s@, 0) {
                ErrorKind::Bounds
            } else {
                ErrorKind::Syntax
            }),
        },
{
    match wind_at(s, 0) {
        Ok((w, p)) => Ok((utils::rest_of(s, p), w)),
        Err(e) => Err(e),
    }
}

} // verus!
