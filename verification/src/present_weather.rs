//! The present-weather group: five independently optional categories
//! of two-letter codes (plus the one-character intensity signs),
//! combined from the space-delimited tokens at the head of the input.
//!
//! Combining rule.  The intensity is read once, at the very start of
//! the group.  After that the parser repeatedly skips whitespace and
//! tries the remaining categories in the fixed order characteristic,
//! obscuration, precipitation, other phenomena; the first code that
//! matches is consumed, and fills its category when that category is
//! still empty — a second code of an already-filled category is
//! consumed and dropped.  The group ends at the first position where
//! no code matches; an empty group (all five categories absent) is
//! valid.

use vstd::prelude::*;

use crate::utils::{self, lit1_at, lit2_at, ws_end, ParseError};

verus! {

#[derive(Debug, PartialEq, Eq, Clone, Copy)]
pub enum Intensity {
    Light,
    Heavy,
    Vicinity,
}

#[derive(Debug, PartialEq, Eq, Clone, Copy)]
pub enum Characteristic {
    Thunderstorm,
    Shower,
    Freezing,
    Blowing,
    LowDrifting,
    Shallow,
    Patches,
    Partial,
}

#[derive(Debug, PartialEq, Eq, Clone, Copy)]
pub enum Obscuration {
    Fog,
    Mist,
    Sand,
    Dust,
    Haze,
    Smoke,
    VolcanicAsh,
}

#[derive(Debug, PartialEq, Eq, Clone, Copy)]
pub enum Precipitation {
    Drizzle,
    Rain,
    Snow,
    SnowGrains,
    IcePellets,
    IceCrystals,
    Hail,
    SmallHailSnowPellets,
    UnknownPrecipitation,
}

#[derive(Debug, PartialEq, Eq, Clone, Copy)]
pub enum OtherPhenomena {
    DustSandWhirls,
    Squall,
    FunnelCloud,
    Duststorm,
    Sandstorm,
}

/// One present-weather group; every category is independently
/// optional, and a group with all five absent means "no phenomenon
/// coded".
#[derive(Debug, PartialEq, Eq, Clone, Copy)]
pub struct PresentWeather {
    pub intensity: Option<Intensity>,
    pub characteristic: Option<Characteristic>,
    pub precipitation: Option<Precipitation>,
    pub obscuration: Option<Obscuration>,
    pub other_phenomena: Option<OtherPhenomena>,
}

impl PresentWeather {
    /// The group with every category absent.
    pub open spec fn spec_empty() -> PresentWeather {
        PresentWeather {
            intensity: None,
            characteristic: None,
            precipitation: None,
            obscuration: None,
            other_phenomena: None,
        }
    }
}

// ---------------------------------------------------------------------
// Code tables
// ---------------------------------------------------------------------

pub open spec fn spec_intensity(s: Seq<char>, pos: int) -> Option<(Intensity, int)> {
    if lit1_at(s, pos, '-') {
        Some((Intensity::Light, pos + 1))
    } else if lit1_at(s, pos, '+') {
        Some((Intensity::Heavy, pos + 1))
    } else if lit2_at(s, pos, 'V', 'C') {
        Some((Intensity::Vicinity, pos + 2))
    } else {
        None
    }
}

pub open spec fn spec_characteristic(s: Seq<char>, pos: int) -> Option<(Characteristic, int)> {
    if lit2_at(s, pos, 'T', 'S') {
        Some((Characteristic::Thunderstorm, pos + 2))
    } else if lit2_at(s, pos, 'S', 'H') {
        Some((Characteristic::Shower, pos + 2))
    } else if lit2_at(s, pos, 'F', 'Z') {
        Some((Characteristic::Freezing, pos + 2))
    } else if lit2_at(s, pos, 'B', 'L') {
        Some((Characteristic::Blowing, pos + 2))
    } else if lit2_at(s, pos, 'D', 'R') {
        Some((Characteristic::LowDrifting, pos + 2))
    } else if lit2_at(s, pos, 'M', 'I') {
        Some((Characteristic::Shallow, pos + 2))
    } else if lit2_at(s, pos, 'B', 'C') {
        Some((Characteristic::Patches, pos + 2))
    } else if lit2_at(s, pos, 'P', 'R') {
        Some((Characteristic::Partial, pos + 2))
    } else {
        None
    }
}

pub open spec fn spec_obscuration(s: Seq<char>, pos: int) -> Option<(Obscuration, int)> {
    if lit2_at(s, pos, 'F', 'G') {
        Some((Obscuration::Fog, pos + 2))
    } else if lit2_at(s, pos, 'B', 'R') {
        Some((Obscuration::Mist, pos + 2))
    } else if lit2_at(s, pos, 'S', 'A') {
        Some((Obscuration::Sand, pos + 2))
    } else if lit2_at(s, pos, 'D', 'U') {
        Some((Obscuration::Dust, pos + 2))
    } else if lit2_at(s, pos, 'H', 'Z') {
        Some((Obscuration::Haze, pos + 2))
    } else if lit2_at(s, pos, 'F', 'U') {
        Some((Obscuration::Smoke, pos + 2))
    } else if lit2_at(s, pos, 'V', 'A') {
        Some((Obscuration::VolcanicAsh, pos + 2))
    } else {
        None
    }
}

pub open spec fn spec_precipitation(s: Seq<char>, pos: int) -> Option<(Precipitation, int)> {
    if lit2_at(s, pos, 'D', 'Z') {
        Some((Precipitation::Drizzle, pos + 2))
    } else if lit2_at(s, pos, 'R', 'A') {
        Some((Precipitation::Rain, pos + 2))
    } else if lit2_at(s, pos, 'S', 'N') {
        Some((Precipitation::Snow, pos + 2))
    } else if lit2_at(s, pos, 'S', 'G') {
        Some((Precipitation::SnowGrains, pos + 2))
    } else if lit2_at(s, pos, 'P', 'L') {
        Some((Precipitation::IcePellets, pos + 2))
    } else if lit2_at(s, pos, 'I', 'C') {
        Some((Precipitation::IceCrystals, pos + 2))
    } else if lit2_at(s, pos, 'G', 'R') {
        Some((Precipitation::Hail, pos + 2))
    } else if lit2_at(s, pos, 'G', 'S') {
        Some((Precipitation::SmallHailSnowPellets, pos + 2))
    } else if lit2_at(s, pos, 'U', 'P') {
        Some((Precipitation::UnknownPrecipitation, pos + 2))
    } else {
        None
    }
}

pub open spec fn spec_other_phenomena(s: Seq<char>, pos: int) -> Option<(OtherPhenomena, int)> {
    if lit2_at(s, pos, 'P', 'O') {
        Some((OtherPhenomena::DustSandWhirls, pos + 2))
    } else if lit2_at(s, pos, 'S', 'Q') {
        Some((OtherPhenomena::Squall, pos + 2))
    } else if lit2_at(s, pos, 'F', 'C') {
        Some((OtherPhenomena::FunnelCloud, pos + 2))
    } else if lit2_at(s, pos, 'D', 'S') {
        Some((OtherPhenomena::Duststorm, pos + 2))
    } else if lit2_at(s, pos, 'S', 'S') {
        Some((OtherPhenomena::Sandstorm, pos + 2))
    } else {
        None
    }
}

// ---------------------------------------------------------------------
// Group grammar
// ---------------------------------------------------------------------

/// One turn of the combining loop: after whitespace, the first code
/// of the four later categories fills its category when still empty;
/// the loop stops at the first position with no code, consuming
/// nothing there.
pub open spec fn spec_weather_loop(s: Seq<char>, pos: int, w: PresentWeather) -> (
    PresentWeather,
    int,
)
    decreases s.len() - pos when 0 <= pos <= s.len() via spec_weather_loop_dec
{
    let p = ws_end(s, pos);
    if spec_characteristic(s, p) is Some {
        let (c, e) = spec_characteristic(s, p).unwrap();
        spec_weather_loop(
            s,
            e,
            PresentWeather {
                characteristic: if w.characteristic is None {
                    Some(c)
                } else {
                    w.characteristic
                },
                ..w
            },
        )
    } else if spec_obscuration(s, p) is Some {
        let (o, e) = spec_obscuration(s, p).unwrap();
        spec_weather_loop(
            s,
            e,
            PresentWeather {
                obscuration: if w.obscuration is None {
                    Some(o)
                } else {
                    w.obscuration
                },
                ..w
            },
        )
    } else if spec_precipitation(s, p) is Some {
        let (pr, e) = spec_precipitation(s, p).unwrap();
        spec_weather_loop(
            s,
            e,
            PresentWeather {
                precipitation: if w.precipitation is None {
                    Some(pr)
                } else {
                    w.precipitation
                },
                ..w
            },
        )
    } else if spec_other_phenomena(s, p) is Some {
        let (ot, e) = spec_other_phenomena(s, p).unwrap();
        spec_weather_loop(
            s,
            e,
            PresentWeather {
                other_phenomena: if w.other_phenomena is None {
                    Some(ot)
                } else {
                    w.other_phenomena
                },
                ..w
            },
        )
    } else {
        (w, pos)
    }
}

#[via_fn]
proof fn spec_weather_loop_dec(s: Seq<char>, pos: int, w: PresentWeather) {
    utils::lemma_ws_end(s, pos);
}

/// Grammar of a whole present-weather group at `pos`: an optional
/// leading intensity sign, then the combining loop.  The group never
/// fails; at worst it is empty and consumes nothing.
pub open spec fn spec_present_weather(s: Seq<char>, pos: int) -> (PresentWeather, int) {
    let p = ws_end(s, pos);
    match spec_intensity(s, p) {
        Some((i, e)) => spec_weather_loop(
            s,
            e,
            PresentWeather { intensity: Some(i), ..PresentWeather::spec_empty() },
        ),
        None => spec_weather_loop(s, pos, PresentWeather::spec_empty()),
    }
}

// ---------------------------------------------------------------------
// Field parsers
// ---------------------------------------------------------------------

fn intensity_at(s: &str, pos: usize) -> (r: Option<(Intensity, usize)>)
    ensures
        match r {
            Some((v, e)) => spec_intensity(s@, pos as int) == Some((v, e as int)) && pos < e
                <= s@.len(),
            None => spec_intensity(s@, pos as int) is None,
        },
{
    let _n: usize = s.unicode_len();
    if utils::match1(s, pos, '-') {
        Some((Intensity::Light, pos + 1))
    } else if utils::match1(s, pos, '+') {
        Some((Intensity::Heavy, pos + 1))
    } else if utils::match2(s, pos, 'V', 'C') {
        Some((Intensity::Vicinity, pos + 2))
    } else {
        None
    }
}

fn characteristic_at(s: &str, pos: usize) -> (r: Option<(Characteristic, usize)>)
    ensures
        match r {
            Some((v, e)) => spec_characteristic(s@, pos as int) == Some((v, e as int)) && pos < e
                <= s@.len(),
            None => spec_characteristic(s@, pos as int) is None,
        },
{
    let _n: usize = s.unicode_len();
    if utils::match2(s, pos, 'T', 'S') {
        Some((Characteristic::Thunderstorm, pos + 2))
    } else if utils::match2(s, pos, 'S', 'H') {
        Some((Characteristic::Shower, pos + 2))
    } else if utils::match2(s, pos, 'F', 'Z') {
        Some((Characteristic::Freezing, pos + 2))
    } else if utils::match2(s, pos, 'B', 'L') {
        Some((Characteristic::Blowing, pos + 2))
    } else if utils::match2(s, pos, 'D', 'R') {
        Some((Characteristic::LowDrifting, pos + 2))
    } else if utils::match2(s, pos, 'M', 'I') {
        Some((Characteristic::Shallow, pos + 2))
    } else if utils::match2(s, pos, 'B', 'C') {
        Some((Characteristic::Patches, pos + 2))
    } else if utils::match2(s, pos, 'P', 'R') {
        Some((Characteristic::Partial, pos + 2))
    } else {
        None
    }
}

fn obscuration_at(s: &str, pos: usize) -> (r: Option<(Obscuration, usize)>)
    ensures
        match r {
            Some((v, e)) => spec_obscuration(s@, pos as int) == Some((v, e as int)) && pos < e
                <= s@.len(),
            None => spec_obscuration(s@, pos as int) is None,
        },
{
    let _n: usize = s.unicode_len();
    if utils::match2(s, pos, 'F', 'G') {
        Some((Obscuration::Fog, pos + 2))
    } else if utils::match2(s, pos, 'B', 'R') {
        Some((Obscuration::Mist, pos + 2))
    } else if utils::match2(s, pos, 'S', 'A') {
        Some((Obscuration::Sand, pos + 2))
    } else if utils::match2(s, pos, 'D', 'U') {
        Some((Obscuration::Dust, pos + 2))
    } else if utils::match2(s, pos, 'H', 'Z') {
        Some((Obscuration::Haze, pos + 2))
    } else if utils::match2(s, pos, 'F', 'U') {
        Some((Obscuration::Smoke, pos + 2))
    } else if utils::match2(s, pos, 'V', 'A') {
        Some((Obscuration::VolcanicAsh, pos + 2))
    } else {
        None
    }
}

fn precipitation_at(s: &str, pos: usize) -> (r: Option<(Precipitation, usize)>)
    ensures
        match r {
            Some((v, e)) => spec_precipitation(s@, pos as int) == Some((v, e as int)) && pos < e
                <= s@.len(),
            None => spec_precipitation(s@, pos as int) is None,
        },
{
    let _n: usize = s.unicode_len();
    if utils::match2(s, pos, 'D', 'Z') {
        Some((Precipitation::Drizzle, pos + 2))
    } else if utils::match2(s, pos, 'R', 'A') {
        Some((Precipitation::Rain, pos + 2))
    } else if utils::match2(s, pos, 'S', 'N') {
        Some((Precipitation::Snow, pos + 2))
    } else if utils::match2(s, pos, 'S', 'G') {
        Some((Precipitation::SnowGrains, pos + 2))
    } else if utils::match2(s, pos, 'P', 'L') {
        Some((Precipitation::IcePellets, pos + 2))
    } else if utils::match2(s, pos, 'I', 'C') {
        Some((Precipitation::IceCrystals, pos + 2))
    } else if utils::match2(s, pos, 'G', 'R') {
        Some((Precipitation::Hail, pos + 2))
    } else if utils::match2(s, pos, 'G', 'S') {
        Some((Precipitation::SmallHailSnowPellets, pos + 2))
    } else if utils::match2(s, pos, 'U', 'P') {
        Some((Precipitation::UnknownPrecipitation, pos + 2))
    } else {
        None
    }
}

fn other_phenomena_at(s: &str, pos: usize) -> (r: Option<(OtherPhenomena, usize)>)
    ensures
        match r {
            Some((v, e)) => spec_other_phenomena(s@, pos as int) == Some((v, e as int)) && pos < e
                <= s@.len(),
            None => spec_other_phenomena(s@, pos as int) is None,
        },
{
    let _n: usize = s.unicode_len();
    if utils::match2(s, pos, 'P', 'O') {
        Some((OtherPhenomena::DustSandWhirls, pos + 2))
    } else if utils::match2(s, pos, 'S', 'Q') {
        Some((OtherPhenomena::Squall, pos + 2))
    } else if utils::match2(s, pos, 'F', 'C') {
        Some((OtherPhenomena::FunnelCloud, pos + 2))
    } else if utils::match2(s, pos, 'D', 'S') {
        Some((OtherPhenomena::Duststorm, pos + 2))
    } else if utils::match2(s, pos, 'S', 'S') {
        Some((OtherPhenomena::Sandstorm, pos + 2))
    } else {
        None
    }
}

impl utils::Parseable for Intensity {
    open spec fn spec_parse(s: Seq<char>, pos: int) -> Option<(Intensity, int)> {
        spec_intensity(s, pos)
    }

    fn parse(s: &str) -> (r: Result<(&str, Intensity), ParseError>) {
        match intensity_at(s, 0) {
            Some((v, e)) => Ok((utils::rest_of(s, e), v)),
            None => Err(ParseError { kind: crate::utils::ErrorKind::Syntax, offset: 0 }),
        }
    }
}

impl utils::Parseable for Characteristic {
    open spec fn spec_parse(s: Seq<char>, pos: int) -> Option<(Characteristic, int)> {
        spec_characteristic(s, pos)
    }

    fn parse(s: &str) -> (r: Result<(&str, Characteristic), ParseError>) {
        match characteristic_at(s, 0) {
            Some((v, e)) => Ok((utils::rest_of(s, e), v)),
            None => Err(ParseError { kind: crate::utils::ErrorKind::Syntax, offset: 0 }),
        }
    }
}

impl utils::Parseable for Obscuration {
    open spec fn spec_parse(s: Seq<char>, pos: int) -> Option<(Obscuration, int)> {
        spec_obscuration(s, pos)
    }

    fn parse(s: &str) -> (r: Result<(&str, Obscuration), ParseError>) {
        match obscuration_at(s, 0) {
            Some((v, e)) => Ok((utils::rest_of(s, e), v)),
            None => Err(ParseError { kind: crate::utils::ErrorKind::Syntax, offset: 0 }),
        }
    }
}

impl utils::Parseable for Precipitation {
    open spec fn spec_parse(s: Seq<char>, pos: int) -> Option<(Precipitation, int)> {
        spec_precipitation(s, pos)
    }

    fn parse(s: &str) -> (r: Result<(&str, Precipitation), ParseError>) {
        match precipitation_at(s, 0) {
            Some((v, e)) => Ok((utils::rest_of(s, e), v)),
            None => Err(ParseError { kind: crate::utils::ErrorKind::Syntax, offset: 0 }),
        }
    }
}

impl utils::Parseable for OtherPhenomena {
    open spec fn spec_parse(s: Seq<char>, pos: int) -> Option<(OtherPhenomena, int)> {
        spec_other_phenomena(s, pos)
    }

    fn parse(s: &str) -> (r: Result<(&str, OtherPhenomena), ParseError>) {
        match other_phenomena_at(s, 0) {
            Some((v, e)) => Ok((utils::rest_of(s, e), v)),
            None => Err(ParseError { kind: crate::utils::ErrorKind::Syntax, offset: 0 }),
        }
    }
}

/// Parse the present-weather group at `pos`; never fails.
pub(crate) fn weather_at(s: &str, pos: usize) -> (r: (PresentWeather, usize))
    requires
        pos <= s@.len(),
    ensures
        spec_present_weather(s@, pos as int) == (r.0, r.1 as int),
        pos <= r.1 <= s@.len(),
{
    let p = utils::skip_ws(s, pos);
    let (mut w, mut cur) = match intensity_at(s, p) {
        Some((i, e)) => (
            PresentWeather {
                intensity: Some(i),
                characteristic: None,
                precipitation: None,
                obscuration: None,
                other_phenomena: None,
            },
            e,
        ),
        None => (
            PresentWeather {
                intensity: None,
                characteristic: None,
                precipitation: None,
                obscuration: None,
                other_phenomena: None,
            },
            pos,
        ),
    };
    loop
        invariant
            pos <= cur <= s@.len(),
            spec_present_weather(s@, pos as int) == spec_weather_loop(s@, cur as int, w),
        decreases s@.len() - cur,
    {
        let p2 = utils::skip_ws(s, cur);
        if let Some((c, e)) = characteristic_at(s, p2) {
            if w.characteristic.is_none() {
                w.characteristic = Some(c);
            }
            cur = e;
        } else if let Some((o, e)) = obscuration_at(s, p2) {
            if w.obscuration.is_none() {
                w.obscuration = Some(o);
            }
            cur = e;
        } else if let Some((pr, e)) = precipitation_at(s, p2) {
            if w.precipitation.is_none() {
                w.precipitation = Some(pr);
            }
            cur = e;
        } else if let Some((ot, e)) = other_phenomena_at(s, p2) {
            if w.other_phenomena.is_none() {
                w.other_phenomena = Some(ot);
            }
            cur = e;
        } else {
            return (w, cur);
        }
    }
}

// ---------------------------------------------------------------------
// Canonical text
// ---------------------------------------------------------------------

pub open spec fn intensity_tag(i: Intensity) -> Seq<char> {
    match i {
        Intensity::Light => seq!['-'],
        Intensity::Heavy => seq!['+'],
        Intensity::Vicinity => seq!['V', 'C'],
    }
}

pub open spec fn characteristic_tag(c: Characteristic) -> Seq<char> {
    match c {
        Characteristic::Thunderstorm => seq!['T', 'S'],
        Characteristic::Shower => seq!['S', 'H'],
        Characteristic::Freezing => seq!['F', 'Z'],
        Characteristic::Blowing => seq!['B', 'L'],
        Characteristic::LowDrifting => seq!['D', 'R'],
        Characteristic::Shallow => seq!['M', 'I'],
        Characteristic::Patches => seq!['B', 'C'],
        Characteristic::Partial => seq!['P', 'R'],
    }
}

pub open spec fn obscuration_tag(o: Obscuration) -> Seq<char> {
    match o {
        Obscuration::Fog => seq!['F', 'G'],
        Obscuration::Mist => seq!['B', 'R'],
        Obscuration::Sand => seq!['S', 'A'],
        Obscuration::Dust => seq!['D', 'U'],
        Obscuration::Haze => seq!['H', 'Z'],
        Obscuration::Smoke => seq!['F', 'U'],
        Obscuration::VolcanicAsh => seq!['V', 'A'],
    }
}

pub open spec fn precipitation_tag(p: Precipitation) -> Seq<char> {
    match p {
        Precipitation::Drizzle => seq!['D', 'Z'],
        Precipitation::Rain => seq!['R', 'A'],
        Precipitation::Snow => seq!['S', 'N'],
        Precipitation::SnowGrains => seq!['S', 'G'],
        Precipitation::IcePellets => seq!['P', 'L'],
        Precipitation::IceCrystals => seq!['I', 'C'],
        Precipitation::Hail => seq!['G', 'R'],
        Precipitation::SmallHailSnowPellets => seq!['G', 'S'],
        Precipitation::UnknownPrecipitation => seq!['U', 'P'],
    }
}

pub open spec fn other_phenomena_tag(x: OtherPhenomena) -> Seq<char> {
    match x {
        OtherPhenomena::DustSandWhirls => seq!['P', 'O'],
        OtherPhenomena::Squall => seq!['S', 'Q'],
        OtherPhenomena::FunnelCloud => seq!['F', 'C'],
        OtherPhenomena::Duststorm => seq!['D', 'S'],
        OtherPhenomena::Sandstorm => seq!['S', 'S'],
    }
}

pub open spec fn canon_intensity_opt(o: Option<Intensity>) -> Seq<char> {
    match o {
        Some(i) => intensity_tag(i),
        None => Seq::<char>::empty(),
    }
}

pub open spec fn canon_characteristic_opt(o: Option<Characteristic>) -> Seq<char> {
    match o {
        Some(c) => characteristic_tag(c),
        None => Seq::<char>::empty(),
    }
}

pub open spec fn canon_obscuration_opt(o: Option<Obscuration>) -> Seq<char> {
    match o {
        Some(x) => obscuration_tag(x),
        None => Seq::<char>::empty(),
    }
}

pub open spec fn canon_precipitation_opt(o: Option<Precipitation>) -> Seq<char> {
    match o {
        Some(p) => precipitation_tag(p),
        None => Seq::<char>::empty(),
    }
}

pub open spec fn canon_other_phenomena_opt(o: Option<OtherPhenomena>) -> Seq<char> {
    match o {
        Some(x) => other_phenomena_tag(x),
        None => Seq::<char>::empty(),
    }
}

/// Canonical text of a group: the category codes back to back, in
/// the order the parser tries them.
pub open spec fn canon_weather(w: PresentWeather) -> Seq<char> {
    canon_intensity_opt(w.intensity) + canon_characteristic_opt(w.characteristic)
        + canon_obscuration_opt(w.obscuration) + canon_precipitation_opt(w.precipitation)
        + canon_other_phenomena_opt(w.other_phenomena)
}

fn append_intensity_opt(out: &mut String, o: Option<Intensity>)
    ensures
        final(out)@ == old(out)@ + canon_intensity_opt(o),
{
    proof {
        reveal_strlit("-");
        reveal_strlit("+");
        reveal_strlit("VC");
    }
    match o {
        Some(Intensity::Light) => out.append("-"),
        Some(Intensity::Heavy) => out.append("+"),
        Some(Intensity::Vicinity) => out.append("VC"),
        None => {},
    }
    proof {
        assert(out@ =~= old(out)@ + canon_intensity_opt(o));
    }
}

fn append_characteristic_opt(out: &mut String, o: Option<Characteristic>)
    ensures
        final(out)@ == old(out)@ + canon_characteristic_opt(o),
{
    proof {
        reveal_strlit("TS");
        reveal_strlit("SH");
        reveal_strlit("FZ");
        reveal_strlit("BL");
        reveal_strlit("DR");
        reveal_strlit("MI");
        reveal_strlit("BC");
        reveal_strlit("PR");
    }
    match o {
        Some(Characteristic::Thunderstorm) => out.append("TS"),
        Some(Characteristic::Shower) => out.append("SH"),
        Some(Characteristic::Freezing) => out.append("FZ"),
        Some(Characteristic::Blowing) => out.append("BL"),
        Some(Characteristic::LowDrifting) => out.append("DR"),
        Some(Characteristic::Shallow) => out.append("MI"),
        Some(Characteristic::Patches) => out.append("BC"),
        Some(Characteristic::Partial) => out.append("PR"),
        None => {},
    }
    proof {
        assert(out@ =~= old(out)@ + canon_characteristic_opt(o));
    }
}

fn append_obscuration_opt(out: &mut String, o: Option<Obscuration>)
    ensures
        final(out)@ == old(out)@ + canon_obscuration_opt(o),
{
    proof {
        reveal_strlit("FG");
        reveal_strlit("BR");
        reveal_strlit("SA");
        reveal_strlit("DU");
        reveal_strlit("HZ");
        reveal_strlit("FU");
        reveal_strlit("VA");
    }
    match o {
        Some(Obscuration::Fog) => out.append("FG"),
        Some(Obscuration::Mist) => out.append("BR"),
        Some(Obscuration::Sand) => out.append("SA"),
        Some(Obscuration::Dust) => out.append("DU"),
        Some(Obscuration::Haze) => out.append("HZ"),
        Some(Obscuration::Smoke) => out.append("FU"),
        Some(Obscuration::VolcanicAsh) => out.append("VA"),
        None => {},
    }
    proof {
        assert(out@ =~= old(out)@ + canon_obscuration_opt(o));
    }
}

fn append_precipitation_opt(out: &mut String, o: Option<Precipitation>)
    ensures
        final(out)@ == old(out)@ + canon_precipitation_opt(o),
{
    proof {
        reveal_strlit("DZ");
        reveal_strlit("RA");
        reveal_strlit("SN");
        reveal_strlit("SG");
        reveal_strlit("PL");
        reveal_strlit("IC");
        reveal_strlit("GR");
        reveal_strlit("GS");
        reveal_strlit("UP");
    }
    match o {
        Some(Precipitation::Drizzle) => out.append("DZ"),
        Some(Precipitation::Rain) => out.append("RA"),
        Some(Precipitation::Snow) => out.append("SN"),
        Some(Precipitation::SnowGrains) => out.append("SG"),
        Some(Precipitation::IcePellets) => out.append("PL"),
        Some(Precipitation::IceCrystals) => out.append("IC"),
        Some(Precipitation::Hail) => out.append("GR"),
        Some(Precipitation::SmallHailSnowPellets) => out.append("GS"),
        Some(Precipitation::UnknownPrecipitation) => out.append("UP"),
        None => {},
    }
    proof {
        assert(out@ =~= old(out)@ + canon_precipitation_opt(o));
    }
}

fn append_other_phenomena_opt(out: &mut String, o: Option<OtherPhenomena>)
    ensures
        final(out)@ == old(out)@ + canon_other_phenomena_opt(o),
{
    proof {
        reveal_strlit("PO");
        reveal_strlit("SQ");
        reveal_strlit("FC");
        reveal_strlit("DS");
        reveal_strlit("SS");
    }
    match o {
        Some(OtherPhenomena::DustSandWhirls) => out.append("PO"),
        Some(OtherPhenomena::Squall) => out.append("SQ"),
        Some(OtherPhenomena::FunnelCloud) => out.append("FC"),
        Some(OtherPhenomena::Duststorm) => out.append("DS"),
        Some(OtherPhenomena::Sandstorm) => out.append("SS"),
        None => {},
    }
    proof {
        assert(out@ =~= old(out)@ + canon_other_phenomena_opt(o));
    }
}

/// Append the canonical text of `w` to `out`.
pub(crate) fn append_weather(out: &mut String, w: &PresentWeather)
    ensures
        final(out)@ == old(out)@ + canon_weather(*w),
{
    let ghost a = canon_intensity_opt(w.intensity);
    let ghost b = canon_characteristic_opt(w.characteristic);
    let ghost c = canon_obscuration_opt(w.obscuration);
    let ghost d = canon_precipitation_opt(w.precipitation);
    let ghost e = canon_other_phenomena_opt(w.other_phenomena);
    append_intensity_opt(out, w.intensity);
    proof {
        assert(out@ == old(out)@ + a);
    }
    append_characteristic_opt(out, w.characteristic);
    proof {
        assert(out@ == old(out)@ + a + b);
    }
    append_obscuration_opt(out, w.obscuration);
    proof {
        assert(out@ == old(out)@ + a + b + c);
    }
    append_precipitation_opt(out, w.precipitation);
    proof {
        assert(out@ == old(out)@ + a + b + c + d);
    }
    append_other_phenomena_opt(out, w.other_phenomena);
    proof {
        assert(out@ == old(out)@ + a + b + c + d + e);
        assert(canon_weather(*w) == a + b + c + d + e);
        assert(old(out)@ + a + b + c + d + e =~= old(out)@ + (a + b + c + d + e));
    }
}

// ---------------------------------------------------------------------
// Round trip of the canonical text
// ---------------------------------------------------------------------

/// The codes of a group from the characteristic on.
pub open spec fn weather_tail2(w: PresentWeather) -> Seq<char> {
    canon_obscuration_opt(w.obscuration) + canon_precipitation_opt(w.precipitation)
        + canon_other_phenomena_opt(w.other_phenomena)
}

pub open spec fn weather_tail1(w: PresentWeather) -> Seq<char> {
    canon_characteristic_opt(w.characteristic) + weather_tail2(w)
}

/// A characteristic code at `p` is read as such: no intensity code
/// stands there, and the table resolves it to its own variant.
proof fn lemma_at_char(s: Seq<char>, p: int, c: Characteristic)
    requires
        0 <= p,
        p + 2 <= s.len(),
        s.subrange(p, p + 2) == characteristic_tag(c),
    ensures
        spec_intensity(s, p) is None,
        spec_characteristic(s, p) == Some((c, p + 2)),
{
    assert(s[p] == characteristic_tag(c)[0] && s[p + 1] == characteristic_tag(c)[1]) by {
        assert(s.subrange(p, p + 2)[0] == s[p] && s.subrange(p, p + 2)[1] == s[p + 1]);
    }
}

proof fn lemma_at_obsc(s: Seq<char>, p: int, o: Obscuration)
    requires
        0 <= p,
        p + 2 <= s.len(),
        s.subrange(p, p + 2) == obscuration_tag(o),
    ensures
        spec_intensity(s, p) is None,
        spec_characteristic(s, p) is None,
        spec_obscuration(s, p) == Some((o, p + 2)),
{
    assert(s[p] == obscuration_tag(o)[0] && s[p + 1] == obscuration_tag(o)[1]) by {
        assert(s.subrange(p, p + 2)[0] == s[p] && s.subrange(p, p + 2)[1] == s[p + 1]);
    }
}

proof fn lemma_at_precip(s: Seq<char>, p: int, pr: Precipitation)
    requires
        0 <= p,
        p + 2 <= s.len(),
        s.subrange(p, p + 2) == precipitation_tag(pr),
    ensures
        spec_intensity(s, p) is None,
        spec_characteristic(s, p) is None,
        spec_obscuration(s, p) is None,
        spec_precipitation(s, p) == Some((pr, p + 2)),
{
    assert(s[p] == precipitation_tag(pr)[0] && s[p + 1] == precipitation_tag(pr)[1]) by {
        assert(s.subrange(p, p + 2)[0] == s[p] && s.subrange(p, p + 2)[1] == s[p + 1]);
    }
}

proof fn lemma_at_other(s: Seq<char>, p: int, x: OtherPhenomena)
    requires
        0 <= p,
        p + 2 <= s.len(),
        s.subrange(p, p + 2) == other_phenomena_tag(x),
    ensures
        spec_intensity(s, p) is None,
        spec_characteristic(s, p) is None,
        spec_obscuration(s, p) is None,
        spec_precipitation(s, p) is None,
        spec_other_phenomena(s, p) == Some((x, p + 2)),
{
    assert(s[p] == other_phenomena_tag(x)[0] && s[p + 1] == other_phenomena_tag(x)[1]) by {
        assert(s.subrange(p, p + 2)[0] == s[p] && s.subrange(p, p + 2)[1] == s[p + 1]);
    }
}

proof fn lemma_at_intensity(s: Seq<char>, p: int, i: Intensity)
    requires
        0 <= p,
        p + intensity_tag(i).len() <= s.len(),
        s.subrange(p, p + intensity_tag(i).len()) == intensity_tag(i),
    ensures
        spec_intensity(s, p) == Some((i, p + intensity_tag(i).len())),
{
    assert(s[p] == intensity_tag(i)[0]) by {
        assert(s.subrange(p, p + intensity_tag(i).len())[0] == s[p]);
    }
    if i is Vicinity {
        assert(s[p + 1] == intensity_tag(i)[1]) by {
            assert(s.subrange(p, p + 2)[1] == s[p + 1]);
        }
    }
}

/// With only the other-phenomena code left in the text, the
/// combining loop fills exactly that category and stops.
proof fn lemma_loop4(s: Seq<char>, cur: int, w0: PresentWeather, w: PresentWeather)
    requires
        0 <= cur <= s.len(),
        ws_end(s, cur) + canon_other_phenomena_opt(w.other_phenomena).len() == s.len(),
        s.subrange(ws_end(s, cur), s.len() as int) == canon_other_phenomena_opt(
            w.other_phenomena,
        ),
        w0.other_phenomena is None,
    ensures
        spec_weather_loop(s, cur, w0) == (
            PresentWeather { other_phenomena: w.other_phenomena, ..w0 },
            if w.other_phenomena is Some {
                s.len() as int
            } else {
                cur
            },
        ),
{
    let q = ws_end(s, cur);
    utils::lemma_ws_end(s, cur);
    match w.other_phenomena {
        Some(x) => {
            lemma_at_other(s, q, x);
            let w1 = PresentWeather { other_phenomena: Some(x), ..w0 };
            assert(spec_weather_loop(s, q + 2, w1) == (w1, q + 2)) by {
                utils::lemma_ws_end_is(s, s.len() as int, s.len() as int);
            }
        },
        None => {
            assert(q == s.len());
        },
    }
}

/// With the codes from the precipitation on left in the text, the
/// loop fills exactly those categories and stops.
proof fn lemma_loop3(s: Seq<char>, cur: int, w0: PresentWeather, w: PresentWeather)
    requires
        0 <= cur <= s.len(),
        ws_end(s, cur) + canon_precipitation_opt(w.precipitation).len()
            + canon_other_phenomena_opt(w.other_phenomena).len() == s.len(),
        s.subrange(ws_end(s, cur), s.len() as int) == canon_precipitation_opt(w.precipitation)
            + canon_other_phenomena_opt(w.other_phenomena),
        w0.precipitation is None,
        w0.other_phenomena is None,
    ensures
        spec_weather_loop(s, cur, w0) == (
            PresentWeather {
                precipitation: w.precipitation,
                other_phenomena: w.other_phenomena,
                ..w0
            },
            if w.precipitation is Some || w.other_phenomena is Some {
                s.len() as int
            } else {
                cur
            },
        ),
{
    let q = ws_end(s, cur);
    utils::lemma_ws_end(s, cur);
    match w.precipitation {
        Some(pr) => {
            assert(s.subrange(q, s.len() as int) =~= precipitation_tag(pr)
                + canon_other_phenomena_opt(w.other_phenomena));
            utils::lemma_split_at(
                s,
                q,
                precipitation_tag(pr),
                canon_other_phenomena_opt(w.other_phenomena),
            );
            lemma_at_precip(s, q, pr);
            let w1 = PresentWeather { precipitation: Some(pr), ..w0 };
            assert(ws_end(s, q + 2) == q + 2) by {
                if q + 2 < s.len() {
                    lemma_weather_text_head(s, q + 2, canon_other_phenomena_opt(w.other_phenomena));
                } else {
                    utils::lemma_ws_end_is(s, q + 2, q + 2);
                }
            }
            lemma_loop4(s, q + 2, w1, w);
        },
        None => {
            lemma_loop4(s, cur, w0, w);
        },
    }
}

/// The first character of any code text is not whitespace.
proof fn lemma_weather_text_head(s: Seq<char>, p: int, t: Seq<char>)
    requires
        0 <= p,
        p < s.len(),
        p + t.len() <= s.len(),
        s.subrange(p, p + t.len()) == t,
        t.len() > 0,
        !utils::is_space_char(t[0]),
    ensures
        ws_end(s, p) == p,
{
    assert(s.subrange(p, p + t.len())[0] == s[p]);
    utils::lemma_ws_end_is(s, p, p);
}

/// With the codes from the obscuration on left in the text.
proof fn lemma_loop2(s: Seq<char>, cur: int, w0: PresentWeather, w: PresentWeather)
    requires
        0 <= cur <= s.len(),
        ws_end(s, cur) + weather_tail2(w).len() == s.len(),
        s.subrange(ws_end(s, cur), s.len() as int) == weather_tail2(w),
        w0.obscuration is None,
        w0.precipitation is None,
        w0.other_phenomena is None,
    ensures
        spec_weather_loop(s, cur, w0) == (
            PresentWeather {
                obscuration: w.obscuration,
                precipitation: w.precipitation,
                other_phenomena: w.other_phenomena,
                ..w0
            },
            if w.obscuration is Some || w.precipitation is Some || w.other_phenomena is Some {
                s.len() as int
            } else {
                cur
            },
        ),
{
    let q = ws_end(s, cur);
    utils::lemma_ws_end(s, cur);
    match w.obscuration {
        Some(o) => {
            assert(s.subrange(q, s.len() as int) =~= obscuration_tag(o) + (
            canon_precipitation_opt(w.precipitation) + canon_other_phenomena_opt(
                w.other_phenomena,
            )));
            utils::lemma_split_at(
                s,
                q,
                obscuration_tag(o),
                canon_precipitation_opt(w.precipitation) + canon_other_phenomena_opt(
                    w.other_phenomena,
                ),
            );
            lemma_at_obsc(s, q, o);
            let w1 = PresentWeather { obscuration: Some(o), ..w0 };
            assert(ws_end(s, q + 2) == q + 2) by {
                if q + 2 < s.len() {
                    lemma_tail3_head(s, q + 2, w);
                } else {
                    utils::lemma_ws_end_is(s, q + 2, q + 2);
                }
            }
            lemma_loop3(s, q + 2, w1, w);
        },
        None => {
            lemma_loop3(s, cur, w0, w);
        },
    }
}

/// Helper: at the head of the precipitation-and-later text stands a
/// code character, not whitespace.
proof fn lemma_tail3_head(s: Seq<char>, p: int, w: PresentWeather)
    requires
        0 <= p,
        p < s.len(),
        p + canon_precipitation_opt(w.precipitation).len() + canon_other_phenomena_opt(
            w.other_phenomena,
        ).len() == s.len(),
        s.subrange(
            p,
            p + canon_precipitation_opt(w.precipitation).len() + canon_other_phenomena_opt(
                w.other_phenomena,
            ).len(),
        ) == canon_precipitation_opt(w.precipitation) + canon_other_phenomena_opt(
            w.other_phenomena,
        ),
    ensures
        ws_end(s, p) == p,
{
    let t = canon_precipitation_opt(w.precipitation) + canon_other_phenomena_opt(
        w.other_phenomena,
    );
    if t.len() > 0 {
        assert(!utils::is_space_char(t[0]));
        lemma_weather_text_head(s, p, t);
    } else {
        assert(p == s.len());
        utils::lemma_ws_end_is(s, p, p);
    }
}

/// With the codes from the characteristic on left in the text.
proof fn lemma_loop1(s: Seq<char>, cur: int, w0: PresentWeather, w: PresentWeather)
    requires
        0 <= cur <= s.len(),
        ws_end(s, cur) + weather_tail1(w).len() == s.len(),
        s.subrange(ws_end(s, cur), s.len() as int) == weather_tail1(w),
        w0.characteristic is None,
        w0.obscuration is None,
        w0.precipitation is None,
        w0.other_phenomena is None,
    ensures
        spec_weather_loop(s, cur, w0) == (
            PresentWeather { intensity: w0.intensity, ..w },
            if w.characteristic is Some || w.obscuration is Some || w.precipitation is Some
                || w.other_phenomena is Some {
                s.len() as int
            } else {
                cur
            },
        ),
{
    let q = ws_end(s, cur);
    utils::lemma_ws_end(s, cur);
    match w.characteristic {
        Some(c) => {
            assert(s.subrange(q, s.len() as int) =~= characteristic_tag(c) + weather_tail2(w));
            utils::lemma_split_at(s, q, characteristic_tag(c), weather_tail2(w));
            lemma_at_char(s, q, c);
            let w1 = PresentWeather { characteristic: Some(c), ..w0 };
            assert(ws_end(s, q + 2) == q + 2) by {
                if q + 2 < s.len() {
                    lemma_tail2_head(s, q + 2, w);
                } else {
                    utils::lemma_ws_end_is(s, q + 2, q + 2);
                }
            }
            lemma_loop2(s, q + 2, w1, w);
        },
        None => {
            lemma_loop2(s, cur, w0, w);
        },
    }
}

/// Helper: at the head of the obscuration-and-later text stands a
/// code character, not whitespace.
proof fn lemma_tail2_head(s: Seq<char>, p: int, w: PresentWeather)
    requires
        0 <= p,
        p < s.len(),
        p + weather_tail2(w).len() == s.len(),
        s.subrange(p, p + weather_tail2(w).len()) == weather_tail2(w),
    ensures
        ws_end(s, p) == p,
{
    let t = weather_tail2(w);
    if t.len() > 0 {
        assert(!utils::is_space_char(t[0]));
        lemma_weather_text_head(s, p, t);
    } else {
        utils::lemma_ws_end_is(s, p, p);
    }
}

#[verifier::rlimit(100)]
proof fn lemma_weather_canon_some(s: Seq<char>, pos: int, w: PresentWeather, i: Intensity)
    requires
        0 <= pos <= s.len(),
        w.intensity == Some(i),
        ws_end(s, pos) + canon_weather(w).len() == s.len(),
        s.subrange(ws_end(s, pos), s.len() as int) == canon_weather(w),
    ensures
        spec_present_weather(s, pos) == (w, s.len() as int),
{
    let q = ws_end(s, pos);
    utils::lemma_ws_end(s, pos);
    assert(canon_weather(w) == canon_intensity_opt(w.intensity) + weather_tail1(w)) by {
        assert(canon_weather(w) =~= canon_intensity_opt(w.intensity) + weather_tail1(w));
    }
    assert(s.subrange(q, s.len() as int) =~= intensity_tag(i) + weather_tail1(w));
    utils::lemma_split_at(s, q, intensity_tag(i), weather_tail1(w));
    lemma_at_intensity(s, q, i);
    let e = q + intensity_tag(i).len();
    let w0 = PresentWeather {
        intensity: Some(i),
        characteristic: None,
        precipitation: None,
        obscuration: None,
        other_phenomena: None,
    };
    assert(ws_end(s, e) == e) by {
        if e < s.len() {
            lemma_tail1_head(s, e, w);
        } else {
            utils::lemma_ws_end_is(s, e, e);
        }
    }
    lemma_loop1(s, e, w0, w);
    assert(spec_weather_loop(s, e, w0).0 == w);
    if !(w.characteristic is Some || w.obscuration is Some || w.precipitation is Some
        || w.other_phenomena is Some) {
        assert(e == s.len());
    }
}

#[verifier::rlimit(100)]
proof fn lemma_weather_canon_none(s: Seq<char>, pos: int, w: PresentWeather)
    requires
        0 <= pos <= s.len(),
        w.intensity is None,
        ws_end(s, pos) + canon_weather(w).len() == s.len(),
        s.subrange(ws_end(s, pos), s.len() as int) == canon_weather(w),
    ensures
        spec_present_weather(s, pos) == (
            w,
            if w == PresentWeather::spec_empty() {
                pos
            } else {
                s.len() as int
            },
        ),
{
    let q = ws_end(s, pos);
    utils::lemma_ws_end(s, pos);
    assert(canon_weather(w) == canon_intensity_opt(w.intensity) + weather_tail1(w)) by {
        assert(canon_weather(w) =~= canon_intensity_opt(w.intensity) + weather_tail1(w));
    }
    let w0 = PresentWeather::spec_empty();
    assert(spec_intensity(s, q) is None) by {
        if q < s.len() {
            lemma_intensity_none_head(s, q, w);
        }
    }
    assert(s.subrange(ws_end(s, pos), s.len() as int) =~= weather_tail1(w));
    lemma_loop1(s, pos, w0, w);
    assert(spec_weather_loop(s, pos, w0).0 == w);
    if w == PresentWeather::spec_empty() {
        assert(spec_weather_loop(s, pos, w0).1 == pos);
    } else {
        assert(w.characteristic is Some || w.obscuration is Some || w.precipitation is Some
            || w.other_phenomena is Some);
    }
}

/// The canonical text of a group, standing at the end of the text
/// after any whitespace, parses back to exactly that group; an empty
/// group consumes nothing.
pub proof fn lemma_weather_canon(s: Seq<char>, pos: int, w: PresentWeather)
    requires
        0 <= pos <= s.len(),
        ws_end(s, pos) + canon_weather(w).len() == s.len(),
        s.subrange(ws_end(s, pos), s.len() as int) == canon_weather(w),
    ensures
        spec_present_weather(s, pos) == (
            w,
            if w == PresentWeather::spec_empty() {
                pos
            } else {
                s.len() as int
            },
        ),
{
    match w.intensity {
        Some(i) => lemma_weather_canon_some(s, pos, w, i),
        None => lemma_weather_canon_none(s, pos, w),
    }
}

/// Helper: the first code of the group keeps whitespace away.
proof fn lemma_tail1_head(s: Seq<char>, p: int, w: PresentWeather)
    requires
        0 <= p,
        p < s.len(),
        p + weather_tail1(w).len() == s.len(),
        s.subrange(p, p + weather_tail1(w).len()) == weather_tail1(w),
    ensures
        ws_end(s, p) == p,
{
    let t = weather_tail1(w);
    if t.len() > 0 {
        assert(!utils::is_space_char(t[0]));
        lemma_weather_text_head(s, p, t);
    } else {
        assert(p == s.len());
        utils::lemma_ws_end_is(s, p, p);
    }
}

/// Helper: when the group carries no intensity, no intensity code
/// stands at its head.
proof fn lemma_intensity_none_head(s: Seq<char>, q: int, w: PresentWeather)
    requires
        0 <= q,
        q < s.len(),
        w.intensity is None,
        q + canon_weather(w).len() == s.len(),
        s.subrange(q, s.len() as int) == canon_weather(w),
    ensures
        spec_intensity(s, q) is None,
{
    assert(canon_weather(w) =~= weather_tail1(w));
    if w.characteristic is Some {
        assert(s.subrange(q, s.len() as int) =~= characteristic_tag(w.characteristic->0)
            + weather_tail2(w));
        utils::lemma_split_at(s, q, characteristic_tag(w.characteristic->0), weather_tail2(w));
        lemma_at_char(s, q, w.characteristic->0);
    } else if w.obscuration is Some {
        assert(weather_tail1(w) =~= obscuration_tag(w.obscuration->0) + (canon_precipitation_opt(
            w.precipitation,
        ) + canon_other_phenomena_opt(w.other_phenomena)));
        utils::lemma_split_at(
            s,
            q,
            obscuration_tag(w.obscuration->0),
            canon_precipitation_opt(w.precipitation) + canon_other_phenomena_opt(
                w.other_phenomena,
            ),
        );
        lemma_at_obsc(s, q, w.obscuration->0);
    } else if w.precipitation is Some {
        assert(weather_tail1(w) =~= precipitation_tag(w.precipitation->0)
            + canon_other_phenomena_opt(w.other_phenomena));
        utils::lemma_split_at(
            s,
            q,
            precipitation_tag(w.precipitation->0),
            canon_other_phenomena_opt(w.other_phenomena),
        );
        lemma_at_precip(s, q, w.precipitation->0);
    } else if w.other_phenomena is Some {
        assert(weather_tail1(w) =~= other_phenomena_tag(w.other_phenomena->0));
        lemma_at_other(s, q, w.other_phenomena->0);
    } else {
        assert(canon_weather(w).len() == 0);
    }
}

impl PresentWeather {
    /// Parse a present-weather group at the head of `s`, returning
    /// the rest of the input and the group.  This parser cannot fail:
    /// input with no weather code at its head yields the empty group
    /// and is left unconsumed.
    pub fn parse(s: &str) -> (r: Result<(&str, PresentWeather), ParseError>)
        ensures
            r matches Ok((rest, w)) && ({
                let (w2, e) = spec_present_weather(s@, 0);
                w == w2 && rest@ == s@.subrange(e, s@.len() as int)
            }),
    {
        let (w, e) = weather_at(s, 0);
        Ok((utils::rest_of(s, e), w))
    }
}

} // verus!
