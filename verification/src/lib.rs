//! Parser for METAR surface weather reports.
//!
//! A METAR report is a single line of position- and tag-encoded text:
//! a station identifier, an observation time, an optional report-type
//! flag, a wind group, a visibility group, and optional runway visual
//! range and present-weather groups.  Each group has its own
//! micro-grammar; this crate parses them with verified parsers whose
//! contracts tie the executable code to declarative grammar functions
//! over sequences of characters.

pub mod laws;
pub mod present_weather;
pub mod rvr;
pub mod utils;
pub mod visibility;
pub mod wind;

use vstd::prelude::*;

use crate::utils::{digits_at, digits_value, is_space_char, lit_at, ws_end, ErrorKind, ParseError};

verus! {

// ---------------------------------------------------------------------
// Observation time
// ---------------------------------------------------------------------

/// Day of month, hour and minute of an observation.  The parser only
/// builds values inside the ranges below; out-of-range numerals are a
/// bounds failure, never clamped.
#[derive(Debug, PartialEq, Eq, Clone, Copy)]
pub struct Time {
    /// Day of month, 1 to 31.
    pub day: u8,
    /// Hour, 0 to 23.
    pub hour: u8,
    /// Minute, 0 to 59.
    pub minute: u8,
}

impl Time {
    /// All three fields lie in their calendar ranges.
    pub open spec fn wf(self) -> bool {
        1 <= self.day <= 31 && self.hour <= 23 && self.minute <= 59
    }
}

/// How the report was produced: the default manual form, or one of the
/// literal flags `AUTO` and `NIL`.
#[derive(Debug, PartialEq, Eq, Clone, Copy)]
pub enum ReportType {
    Manual,
    Auto,
    Nil,
}

// ---------------------------------------------------------------------
// Bounded numeral
// ---------------------------------------------------------------------

/// `s` is a run of decimal digits whose value lies in `[min, max]`.
pub open spec fn spec_bounded_ok(s: Seq<char>, min: int, max: int) -> bool {
    s.len() > 0 && digits_at(s, 0, s.len() as int) && min <= digits_value(s) <= max
}

/// Failure class of a rejected bounded numeral: a well-formed numeral
/// out of range is a bounds failure, anything else a syntax failure.
pub open spec fn spec_bounded_err(s: Seq<char>) -> ErrorKind {
    if s.len() > 0 && digits_at(s, 0, s.len() as int) {
        ErrorKind::Bounds
    } else {
        ErrorKind::Syntax
    }
}

/// Parse all of `s` as a decimal numeral and require its value to lie
/// in `[min, max]`; out-of-range values are rejected, not clamped.
pub fn parse_with_bounds(min: u8, max: u8, s: &str) -> (r: Result<u8, ParseError>)
    ensures
        match r {
            Ok(v) => spec_bounded_ok(s@, min as int, max as int) && v == digits_value(s@),
            Err(e) => {
                &&& !spec_bounded_ok(s@, min as int, max as int)
                &&& e.kind == spec_bounded_err(s@)
                &&& e.offset <= s@.len()
            },
        },
{
    let n = s.unicode_len();
    let e = utils::scan_digits(s, 0);
    proof {
        utils::lemma_digit_run_end(s@, 0);
    }
    if n == 0 || e < n {
        proof {
            // a non-digit inside the text contradicts an all-digit run
            if digits_at(s@, 0, n as int) && n > 0 {
                assert(utils::is_digit_char(s@[e as int]));
                assert(false);
            }
        }
        return Err(ParseError { kind: ErrorKind::Syntax, offset: e });
    }
    proof {
        assert(s@.subrange(0, n as int) =~= s@);
    }
    match utils::eval_digits(s, 0, n, 255) {
        Some(v) => {
            if min as u64 <= v && v <= max as u64 {
                Ok(v as u8)
            } else {
                Err(ParseError { kind: ErrorKind::Bounds, offset: 0 })
            }
        },
        None => Err(ParseError { kind: ErrorKind::Bounds, offset: 0 }),
    }
}

impl Time {
    /// Build a `Time` from the three 2-digit groups of the time field,
    /// holding each to its calendar range.
    pub fn from_vec(v: Vec<&str>) -> (r: Result<Time, ParseError>)
        requires
            v@.len() == 3,
        ensures
            match r {
                Ok(t) => {
                    &&& spec_bounded_ok(v@[0]@, 1, 31)
                    &&& spec_bounded_ok(v@[1]@, 0, 23)
                    &&& spec_bounded_ok(v@[2]@, 0, 59)
                    &&& t.day == digits_value(v@[0]@)
                    &&& t.hour == digits_value(v@[1]@)
                    &&& t.minute == digits_value(v@[2]@)
                    &&& t.wf()
                },
                Err(e) => {
                    ||| !spec_bounded_ok(v@[0]@, 1, 31)
                    ||| !spec_bounded_ok(v@[1]@, 0, 23)
                    ||| !spec_bounded_ok(v@[2]@, 0, 59)
                },
            },
    {
        let day = parse_with_bounds(1, 31, v[0])?;
        let hour = parse_with_bounds(0, 23, v[1])?;
        let minute = parse_with_bounds(0, 59, v[2])?;
        Ok(Time { day, hour, minute })
    }
}

// ---------------------------------------------------------------------
// Time field
// ---------------------------------------------------------------------

/// Grammar of the time field: leading whitespace, six digits forming
/// bounded day/hour/minute groups, and the literal terminator `Z`.
pub open spec fn spec_time(s: Seq<char>, pos: int) -> Option<(Time, int)> {
    let p = ws_end(s, pos);
    if p + 7 <= s.len() && digits_at(s, p, p + 6) && spec_time_in_bounds(s, p) && s[p + 6] == 'Z' {
        Some((spec_time_value(s, p), p + 7))
    } else {
        None
    }
}

/// The three 2-digit groups at `p` lie in their calendar ranges.
pub open spec fn spec_time_in_bounds(s: Seq<char>, p: int) -> bool {
    &&& 1 <= digits_value(s.subrange(p, p + 2)) <= 31
    &&& 0 <= digits_value(s.subrange(p + 2, p + 4)) <= 23
    &&& 0 <= digits_value(s.subrange(p + 4, p + 6)) <= 59
}

/// The `Time` encoded by the six digits at `p`.
pub open spec fn spec_time_value(s: Seq<char>, p: int) -> Time {
    Time {
        day: digits_value(s.subrange(p, p + 2)) as u8,
        hour: digits_value(s.subrange(p + 2, p + 4)) as u8,
        minute: digits_value(s.subrange(p + 4, p + 6)) as u8,
    }
}

/// Whether a failed time field died on a bounds check: the six digits
/// are there but one group is out of range.
pub open spec fn spec_time_bounds_err(s: Seq<char>, pos: int) -> bool {
    let p = ws_end(s, pos);
    p + 6 <= s.len() && digits_at(s, p, p + 6) && !spec_time_in_bounds(s, p)
}

/// Parse the time field at `pos`.
pub(crate) fn time_at(s: &str, pos: usize) -> (r: Result<(Time, usize), ParseError>)
    requires
        pos <= s@.len(),
    ensures
        match r {
            Ok((t, p)) => spec_time(s@, pos as int) == Some((t, p as int)) && pos <= p <= s@.len()
                && t.wf(),
            Err(e) => {
                &&& spec_time(s@, pos as int) is None
                &&& e.kind == (if spec_time_bounds_err(s@, pos as int) {
                    ErrorKind::Bounds
                } else {
                    ErrorKind::Syntax
                })
                &&& e.offset <= s@.len()
            },
        },
{
    let n = s.unicode_len();
    let p = utils::skip_ws(s, pos);
    let d = utils::scan_digits(s, p);
    proof {
        utils::lemma_digit_run_end(s@, p as int);
    }
    if n - p < 6 || d - p < 6 {
        proof {
            if p + 6 <= n && digits_at(s@, p as int, p + 6) {
                utils::lemma_digit_run_end_at_least(s@, p as int, p + 6);
            }
        }
        return Err(ParseError { kind: ErrorKind::Syntax, offset: d });
    }
    let v: Vec<&str> = vec![
        s.substring_char(p, p + 2),
        s.substring_char(p + 2, p + 4),
        s.substring_char(p + 4, p + 6),
    ];
    let t = match Time::from_vec(v) {
        Ok(t) => t,
        Err(_) => {
            return Err(ParseError { kind: ErrorKind::Bounds, offset: p });
        },
    };
    if p + 6 < n && s.get_char(p + 6) == 'Z' {
        Ok((t, p + 7))
    } else {
        Err(ParseError { kind: ErrorKind::Syntax, offset: p + 6 })
    }
}

/// Parse the time field at the head of `s`, returning the rest of the
/// input and the time.
pub fn time(s: &str) -> (r: Result<(&str, Time), ParseError>)
    ensures
        match r {
            Ok((rest, t)) => {
                &&& spec_time(s@, 0) matches Some((t2, p)) && t2 == t && rest@ == s@.subrange(
                    p,
                    s@.len() as int,
                )
                &&& t.wf()
            },
            Err(e) => spec_time(s@, 0) is None,
        },
{
    match time_at(s, 0) {
        Ok((t, p)) => Ok((utils::rest_of(s, p), t)),
        Err(e) => Err(e),
    }
}

// ---------------------------------------------------------------------
// The report record
// ---------------------------------------------------------------------

/// One parsed METAR report.  The runway-visual-range and
/// present-weather groups are optional in the format: a report
/// without them carries an empty list and an empty group.
#[derive(Debug, PartialEq, Clone)]
pub struct METAR {
    pub report_type: ReportType,
    pub station: String,
    pub time: Time,
    pub wind: wind::Wind,
    pub visibility: visibility::Visibility,
    pub rvrs: Vec<rvr::RunwayVisualRange>,
    pub weather: present_weather::PresentWeather,
}

/// The mathematical content of a report, used by the contracts.
pub struct MetarView {
    pub report_type: ReportType,
    pub station: Seq<char>,
    pub time: Time,
    pub wind: wind::Wind,
    pub visibility: visibility::Visibility,
    pub rvrs: Seq<rvr::RunwayVisualRange>,
    pub weather: present_weather::PresentWeather,
}

impl View for METAR {
    type V = MetarView;

    open spec fn view(&self) -> MetarView {
        MetarView {
            report_type: self.report_type,
            station: self.station@,
            time: self.time,
            wind: self.wind,
            visibility: self.visibility,
            rvrs: self.rvrs@,
            weather: self.weather,
        }
    }
}

// ---------------------------------------------------------------------
// Report type field
// ---------------------------------------------------------------------

pub open spec fn auto_tag() -> Seq<char> {
    seq!['A', 'U', 'T', 'O']
}

pub open spec fn nil_tag() -> Seq<char> {
    seq!['N', 'I', 'L']
}

/// Grammar of the report-type field: after leading whitespace, an
/// optional literal flag.  The field never fails; when neither flag
/// stands there it yields `Manual` and consumes only the whitespace.
pub open spec fn spec_report_type(s: Seq<char>, pos: int) -> (ReportType, int) {
    let p = ws_end(s, pos);
    if lit_at(s, p, auto_tag()) {
        (ReportType::Auto, p + 4)
    } else if lit_at(s, p, nil_tag()) {
        (ReportType::Nil, p + 3)
    } else {
        (ReportType::Manual, p)
    }
}

/// Parse the report-type field at `pos`; always succeeds.
pub(crate) fn report_type_at(s: &str, pos: usize) -> (r: (ReportType, usize))
    requires
        pos <= s@.len(),
    ensures
        spec_report_type(s@, pos as int) == (r.0, r.1 as int),
        pos <= r.1 <= s@.len(),
{
    let n = s.unicode_len();
    let p = utils::skip_ws(s, pos);
    if utils::match_lit(s, p, &['A', 'U', 'T', 'O']) {
        (ReportType::Auto, p + 4)
    } else if utils::match_lit(s, p, &['N', 'I', 'L']) {
        (ReportType::Nil, p + 3)
    } else {
        (ReportType::Manual, p)
    }
}

/// Parse the report-type field at the head of `s`, returning the rest
/// of the input and the flag.  This parser cannot fail.
pub fn report_type(s: &str) -> (r: Result<(&str, ReportType), ParseError>)
    ensures
        r matches Ok((rest, t)) && spec_report_type(s@, 0) == (
            t,
            s@.len() - rest@.len(),
        ) && rest@ == s@.subrange(s@.len() - rest@.len(), s@.len() as int),
{
    let (t, p) = report_type_at(s, 0);
    let rest = utils::rest_of(s, p);
    proof {
        assert(rest@.len() == s@.len() - p);
    }
    Ok((rest, t))
}

// ---------------------------------------------------------------------
// Record assembly
// ---------------------------------------------------------------------

pub open spec fn metar_tag() -> Seq<char> {
    seq!['M', 'E', 'T', 'A', 'R']
}

/// Position after the repeated leading `METAR` keyword literals.
pub open spec fn strip_metar_from(s: Seq<char>, pos: int) -> int
    decreases s.len() - pos when 0 <= pos <= s.len()
{
    if lit_at(s, pos, metar_tag()) {
        strip_metar_from(s, pos + 5)
    } else {
        pos
    }
}

pub proof fn lemma_strip_metar_from(s: Seq<char>, pos: int)
    requires
        0 <= pos <= s.len(),
    ensures
        pos <= strip_metar_from(s, pos) <= s.len(),
    decreases s.len() - pos,
{
    if lit_at(s, pos, metar_tag()) {
        lemma_strip_metar_from(s, pos + 5);
    }
}

/// Grammar of a whole report: the leading keyword and whitespace are
/// stripped, then station (exactly four characters), time,
/// report-type, wind and visibility stand in fixed order; the runway
/// visual ranges and the present-weather group follow when present
/// and default to empty when not.  Trailing text (cloud layers,
/// temperature, pressure, remarks) is left unparsed.
pub open spec fn spec_report(s: Seq<char>) -> Option<MetarView> {
    let b = strip_metar_from(s, 0);
    let t = ws_end(s, b);
    if t + 4 > s.len() {
        None
    } else {
        let station = s.subrange(t, t + 4);
        match spec_time(s, t + 4) {
            None => None,
            Some((time, p1)) => {
                let (report_type, p2) = spec_report_type(s, p1);
                match wind::spec_wind(s, p2) {
                    None => None,
                    Some((w, p3)) => match visibility::spec_visibility_full(s, p3) {
                        None => None,
                        Some((vis, p4)) => {
                            let (rvrs, p5) = rvr::spec_rvrs(s, ws_end(s, p4));
                            let (weather, _p6) = present_weather::spec_present_weather(s, p5);
                            Some(
                                MetarView {
                                    report_type,
                                    station,
                                    time,
                                    wind: w,
                                    visibility: vis,
                                    rvrs,
                                    weather,
                                },
                            )
                        },
                    },
                }
            },
        }
    }
}

// ---------------------------------------------------------------------
// Canonical text
// ---------------------------------------------------------------------

/// Canonical text of the time field, `Z` terminator included.
pub open spec fn canon_time(t: Time) -> Seq<char> {
    utils::pad2(t.day as int) + utils::pad2(t.hour as int) + utils::pad2(t.minute as int)
        + seq!['Z']
}

/// Canonical text of the report-type field: the default `Manual` is
/// written as nothing at all.
pub open spec fn canon_report_type(t: ReportType) -> Seq<char> {
    match t {
        ReportType::Manual => Seq::<char>::empty(),
        ReportType::Auto => seq![' '] + auto_tag(),
        ReportType::Nil => seq![' '] + nil_tag(),
    }
}

/// Canonical text of a whole report: keyword, station, time,
/// report-type flag, wind, visibility, then the runway visual ranges
/// and the present-weather group when they are not empty.
pub open spec fn canon_report(m: MetarView) -> Seq<char> {
    metar_tag() + seq![' '] + m.station + seq![' '] + canon_time(m.time) + canon_report_type(
        m.report_type,
    ) + seq![' '] + wind::canon_wind(m.wind) + seq![' '] + visibility::canon_visibility(
        m.visibility,
    ) + rvr::canon_rvrs(m.rvrs) + (if m.weather == present_weather::PresentWeather::spec_empty() {
        Seq::<char>::empty()
    } else {
        seq![' '] + present_weather::canon_weather(m.weather)
    })
}

impl METAR {
    /// The canonical text of this report: the one spelling that the
    /// parser maps back to the same record.
    pub fn canonical_text(&self) -> (out: String)
        ensures
            out@ == canon_report(self@),
    {
        proof {
            reveal_strlit("METAR ");
            reveal_strlit(" ");
            reveal_strlit("Z");
            reveal_strlit(" AUTO");
            reveal_strlit(" NIL");
        }
        let mut out = String::new();
        out.append("METAR ");
        out.append(self.station.as_str());
        out.append(" ");
        let ghost mid1 = metar_tag() + seq![' '] + self.station@ + seq![' '];
        proof {
            assert(out@ =~= mid1);
        }
        utils::append_pad2(&mut out, self.time.day);
        utils::append_pad2(&mut out, self.time.hour);
        utils::append_pad2(&mut out, self.time.minute);
        out.append("Z");
        let ghost mid2 = mid1 + canon_time(self.time);
        proof {
            assert(out@ =~= mid2);
        }
        match self.report_type {
            ReportType::Manual => {},
            ReportType::Auto => out.append(" AUTO"),
            ReportType::Nil => out.append(" NIL"),
        }
        out.append(" ");
        let ghost mid3 = mid2 + canon_report_type(self.report_type) + seq![' '];
        proof {
            assert(out@ =~= mid3);
        }
        wind::append_wind(&mut out, &self.wind);
        out.append(" ");
        let ghost mid4 = mid3 + wind::canon_wind(self.wind) + seq![' '];
        proof {
            assert(out@ =~= mid4);
        }
        visibility::append_visibility(&mut out, &self.visibility);
        rvr::append_rvrs(&mut out, &self.rvrs);
        let ghost mid5 = mid4 + visibility::canon_visibility(self.visibility) + rvr::canon_rvrs(
            self.rvrs@,
        );
        let weather_empty = self.weather.intensity.is_none() && self.weather.characteristic.is_none()
            && self.weather.precipitation.is_none() && self.weather.obscuration.is_none()
            && self.weather.other_phenomena.is_none();
        proof {
            assert(weather_empty == (self.weather
                == present_weather::PresentWeather::spec_empty()));
        }
        if !weather_empty {
            out.append(" ");
            present_weather::append_weather(&mut out, &self.weather);
        }
        proof {
            assert(out@ =~= canon_report(self@));
        }
        out
    }
}

/// The canonical text of a well-formed time, after any whitespace,
/// parses back to exactly that time.
pub proof fn lemma_time_canon(s: Seq<char>, pos: int, t: Time)
    requires
        0 <= pos <= s.len(),
        t.wf(),
        ws_end(s, pos) + 7 <= s.len(),
        s.subrange(ws_end(s, pos), ws_end(s, pos) + 7) == canon_time(t),
    ensures
        spec_time(s, pos) == Some((t, ws_end(s, pos) + 7)),
{
    let q = ws_end(s, pos);
    utils::lemma_ws_end(s, pos);
    utils::lemma_pad2(t.day as int);
    utils::lemma_pad2(t.hour as int);
    utils::lemma_pad2(t.minute as int);
    let d = utils::pad2(t.day as int);
    let h = utils::pad2(t.hour as int);
    let mi = utils::pad2(t.minute as int);
    utils::lemma_split_at(s, q, d + h + mi, seq!['Z']);
    utils::lemma_split_at(s, q, d + h, mi);
    utils::lemma_split_at(s, q, d, h);
    assert(s[q + 6] == 'Z') by {
        assert(s.subrange(q + 6, q + 7)[0] == s[q + 6]);
    }
    assert(digits_at(s, q, q + 2)) by {
        utils::lemma_digits_at_transfer(s, q, q + 2);
    }
    assert(digits_at(s, q + 2, q + 4)) by {
        utils::lemma_digits_at_transfer(s, q + 2, q + 4);
    }
    assert(digits_at(s, q + 4, q + 6)) by {
        utils::lemma_digits_at_transfer(s, q + 4, q + 6);
    }
    assert(digits_at(s, q, q + 6));
    assert(spec_time_value(s, q) == t);
}

impl METAR {
    /// Parse one report line.  Any sub-parser failure aborts the
    /// whole parse with that failure; no partial record is returned.
    pub fn parse(s: &str) -> (r: Result<METAR, ParseError>)
        ensures
            match r {
                Ok(m) => spec_report(s@) == Some(m@),
                Err(e) => spec_report(s@) is None && e.offset <= s@.len(),
            },
    {
        let n = s.unicode_len();
        let mt = ['M', 'E', 'T', 'A', 'R'];
        proof {
            assert(mt@ =~= metar_tag());
        }
        let mut b: usize = 0;
        while utils::match_lit(s, b, &mt)
            invariant
                0 <= b <= s@.len(),
                n == s@.len(),
                mt@ == metar_tag(),
                strip_metar_from(s@, 0) == strip_metar_from(s@, b as int),
            decreases s@.len() - b,
        {
            b = b + 5;
        }
        let t = utils::skip_ws(s, b);
        if n - t < 4 {
            return Err(ParseError { kind: ErrorKind::Syntax, offset: t });
        }
        let station = String::from_str(s.substring_char(t, t + 4));
        let (time, p1) = match time_at(s, t + 4) {
            Ok(r) => r,
            Err(e) => {
                return Err(e);
            },
        };
        let (report_type, p2) = report_type_at(s, p1);
        let (w, p3) = match wind::wind_at(s, p2) {
            Ok(r) => r,
            Err(e) => {
                return Err(e);
            },
        };
        let (vis, p4) = match visibility::visibility_full_at(s, p3) {
            Ok(r) => r,
            Err(e) => {
                return Err(e);
            },
        };
        let q = utils::skip_ws(s, p4);
        let (rvrs, p5) = rvr::rvrs_at(s, q);
        let (weather, _p6) = present_weather::weather_at(s, p5);
        Ok(METAR { report_type, station, time, wind: w, visibility: vis, rvrs, weather })
    }
}

} // verus!
