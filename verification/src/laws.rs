//! The laws of the library: statements that tie several parsers and
//! the canonical text together, proved once and for all inputs.

use vstd::prelude::*;

use crate::present_weather::{
    self, canon_weather, characteristic_tag, intensity_tag, obscuration_tag, other_phenomena_tag,
    precipitation_tag, PresentWeather,
};
use crate::rvr::{self, canon_rvrs, rvr_cant_start, rvrs_tail_text};
use crate::utils::{self, digits_at, is_digit_char, is_space_char, lit_at, pad2, ws_end};
use crate::visibility::{self, canon_visibility, cavok_tag, nsc_tag, skc_tag};
use crate::wind::{self, canon_wind, wf_wind, WindDirection};
use crate::{
    auto_tag, canon_report, canon_report_type, canon_time, metar_tag, nil_tag, spec_report,
    spec_report_type, spec_time, strip_metar_from, MetarView, ReportType, Time,
};

verus! {

/// A report whose canonical text parses back to it: the station is
/// four characters and does not open with whitespace, the time lies
/// in its calendar ranges, a fixed wind heading fits its three-digit
/// token, and statute-mile fractions have usable denominators.
/// Every record the parser builds satisfies this.
pub open spec fn wf_report(m: MetarView) -> bool {
    &&& m.station.len() == 4
    &&& !is_space_char(m.station[0])
    &&& m.time.wf()
    &&& wf_wind(m.wind)
    &&& m.visibility.wf()
}

/// Every record the report parser accepts is well formed.
pub proof fn lemma_parse_report_wf(s: Seq<char>)
    requires
        spec_report(s) is Some,
    ensures
        wf_report(spec_report(s).unwrap()),
{
    let b = strip_metar_from(s, 0);
    crate::lemma_strip_metar_from(s, 0);
    let t = ws_end(s, b);
    utils::lemma_ws_end(s, b);
    assert(s.subrange(t, t + 4)[0] == s[t]);
    let (time, p1) = spec_time(s, t + 4).unwrap();
    assert(0 <= p1 <= s.len()) by {
        utils::lemma_ws_end(s, t + 4);
    }
    let (rt, p2) = spec_report_type(s, p1);
    assert(0 <= p2 <= s.len()) by {
        utils::lemma_ws_end(s, p1);
    }
    wind::lemma_spec_wind_wf(s, p2);
    wind::lemma_spec_wind_bounds(s, p2);
    let (w, p3) = wind::spec_wind(s, p2).unwrap();
    visibility::lemma_spec_visibility_full_wf(s, p3);
}

/// The head of a nonempty weather group: a code character that can
/// open neither a visibility value nor a runway visual range group.
#[verifier::rlimit(100)]
pub proof fn lemma_weather_head(s: Seq<char>, p: int, w: PresentWeather)
    requires
        0 <= p,
        w != PresentWeather::spec_empty(),
        p + canon_weather(w).len() <= s.len(),
        s.subrange(p, p + canon_weather(w).len()) == canon_weather(w),
    ensures
        canon_weather(w).len() >= 1,
        !is_space_char(s[p]),
        !is_digit_char(s[p]),
        !lit_at(s, p, cavok_tag()),
        !lit_at(s, p, nsc_tag()),
        !lit_at(s, p, skc_tag()),
        rvr_cant_start(s, p),
{
    let c = canon_weather(w);
    assert(forall|k: int| 0 <= k < c.len() ==> #[trigger] s.subrange(p, p + c.len())[k] == s[p
        + k]);
    if w.intensity is Some {
        let tag = intensity_tag(w.intensity->0);
        assert(c[0] == tag[0]);
        assert(s[p] == '-' || s[p] == '+' || s[p] == 'V');
    } else if w.characteristic is Some {
        let tag = characteristic_tag(w.characteristic->0);
        assert(c[0] == tag[0] && c[1] == tag[1]);
        assert(s[p] == tag[0] && s[p + 1] == tag[1]);
    } else if w.obscuration is Some {
        let tag = obscuration_tag(w.obscuration->0);
        assert(c[0] == tag[0] && c[1] == tag[1]);
        assert(s[p] == tag[0] && s[p + 1] == tag[1]);
    } else if w.precipitation is Some {
        let tag = precipitation_tag(w.precipitation->0);
        assert(c[0] == tag[0] && c[1] == tag[1]);
        assert(s[p] == tag[0] && s[p + 1] == tag[1]);
    } else {
        let tag = other_phenomena_tag(w.other_phenomena->0);
        assert(c[0] == tag[0] && c[1] == tag[1]);
        assert(s[p] == tag[0] && s[p + 1] == tag[1]);
    }
    assert(!lit_at(s, p, cavok_tag())) by {
        if lit_at(s, p, cavok_tag()) {
            assert(s[p] == cavok_tag()[0]);
        }
    }
    assert(!lit_at(s, p, nsc_tag())) by {
        if lit_at(s, p, nsc_tag()) {
            assert(s[p] == nsc_tag()[0]);
        }
    }
    assert(!lit_at(s, p, skc_tag())) by {
        if lit_at(s, p, skc_tag()) {
            assert(s[p] == skc_tag()[0] && s[p + 1] == skc_tag()[1]);
        }
    }
}

/// The report-type flag in context: after the time field, before the
/// wind group.
proof fn lemma_round_report_type(s: Seq<char>, m: MetarView, o6: int, o7: int)
    requires
        o6 == 18 + canon_report_type(m.report_type).len(),
        o7 == o6 + 1,
        o7 < s.len(),
        s.subrange(18, o6) == canon_report_type(m.report_type),
        s[o6] == ' ',
        !is_space_char(s[o7]),
        s[o7] != 'A',
        s[o7] != 'N',
    ensures
        spec_report_type(s, 18) == (
            m.report_type,
            if m.report_type is Manual {
                19int
            } else {
                o6
            },
        ),
        ws_end(
            s,
            if m.report_type is Manual {
                19int
            } else {
                o6
            },
        ) == o7,
{
    let crt = canon_report_type(m.report_type);
    match m.report_type {
        ReportType::Manual => {
            assert(crt =~= Seq::<char>::empty());
            assert(o6 == 18);
            utils::lemma_ws_end_is(s, 18, 19);
            assert(!lit_at(s, 19, auto_tag())) by {
                if lit_at(s, 19, auto_tag()) {
                    assert(s[19] == auto_tag()[0]);
                }
            }
            assert(!lit_at(s, 19, nil_tag())) by {
                if lit_at(s, 19, nil_tag()) {
                    assert(s[19] == nil_tag()[0]);
                }
            }
            utils::lemma_ws_end_is(s, 19, 19);
        },
        ReportType::Auto => {
            assert(crt == seq![' '] + auto_tag());
            assert(s[18] == ' ' && s[19] == 'A') by {
                assert(s.subrange(18, o6)[0] == s[18]);
                assert(s.subrange(18, o6)[1] == s[19]);
                assert(crt[0] == ' ' && crt[1] == auto_tag()[0]);
            }
            utils::lemma_ws_end_is(s, 18, 19);
            assert(lit_at(s, 19, auto_tag())) by {
                assert forall|k: int| 0 <= k < 4 implies s[19 + k] == #[trigger] auto_tag()[k] by {
                    assert(s.subrange(18, o6)[k + 1] == s[18 + (k + 1)]);
                    assert(crt[k + 1] == auto_tag()[k]);
                }
            }
            utils::lemma_ws_end_is(s, o6, o7);
        },
        ReportType::Nil => {
            assert(crt == seq![' '] + nil_tag());
            assert(s[18] == ' ' && s[19] == 'N') by {
                assert(s.subrange(18, o6)[0] == s[18]);
                assert(s.subrange(18, o6)[1] == s[19]);
                assert(crt[0] == ' ' && crt[1] == nil_tag()[0]);
            }
            utils::lemma_ws_end_is(s, 18, 19);
            assert(!lit_at(s, 19, auto_tag())) by {
                if lit_at(s, 19, auto_tag()) {
                    assert(s[19] == auto_tag()[0]);
                }
            }
            assert(lit_at(s, 19, nil_tag())) by {
                assert forall|k: int| 0 <= k < 3 implies s[19 + k] == #[trigger] nil_tag()[k] by {
                    assert(s.subrange(18, o6)[k + 1] == s[18 + (k + 1)]);
                    assert(crt[k + 1] == nil_tag()[k]);
                }
            }
            utils::lemma_ws_end_is(s, o6, o7);
        },
    }
}

/// What stands after the visibility group: a space or the end of the
/// text, and never the start of a further visibility value.
proof fn lemma_round_after_vis(s: Seq<char>, m: MetarView, o10: int, o11: int)
    requires
        0 <= o10,
        o11 == o10 + canon_rvrs(m.rvrs).len(),
        o11 <= s.len(),
        s.subrange(o10, o11) == canon_rvrs(m.rvrs),
        s.subrange(o11, s.len() as int) == (if m.weather == PresentWeather::spec_empty() {
            Seq::<char>::empty()
        } else {
            seq![' '] + canon_weather(m.weather)
        }),
    ensures
        o10 == s.len() || s[o10] == ' ',
        visibility::vis_cant_start(s, o10),
{
    let crv = canon_rvrs(m.rvrs);
    let weather_empty = m.weather == PresentWeather::spec_empty();
    let wp: Seq<char> = if weather_empty {
        Seq::<char>::empty()
    } else {
        seq![' '] + canon_weather(m.weather)
    };
    assert(s.len() == o11 + wp.len());
    if m.rvrs.len() > 0 {
        assert(crv == seq![' '] + rvr::canon_rvr(m.rvrs[0]) + canon_rvrs(m.rvrs.drop_first()));
        assert(s[o10] == ' ' && s[o10 + 1] == 'R') by {
            assert(s.subrange(o10, o11)[0] == s[o10]);
            assert(s.subrange(o10, o11)[1] == s[o10 + 1]);
            assert(crv[1] == rvr::canon_rvr(m.rvrs[0])[0]);
        }
        utils::lemma_ws_end_is(s, o10, o10 + 1);
        assert(!lit_at(s, o10 + 1, cavok_tag())) by {
            if lit_at(s, o10 + 1, cavok_tag()) {
                assert(s[o10 + 1] == cavok_tag()[0]);
            }
        }
        assert(!lit_at(s, o10 + 1, nsc_tag())) by {
            if lit_at(s, o10 + 1, nsc_tag()) {
                assert(s[o10 + 1] == nsc_tag()[0]);
            }
        }
        assert(!lit_at(s, o10 + 1, skc_tag())) by {
            if lit_at(s, o10 + 1, skc_tag()) {
                assert(s[o10 + 1] == skc_tag()[0]);
            }
        }
    } else {
        assert(crv =~= Seq::<char>::empty());
        assert(o11 == o10);
        if !weather_empty {
            assert(s[o10] == ' ') by {
                assert(s.subrange(o11, s.len() as int)[0] == s[o11]);
            }
            utils::lemma_split_at(s, o11, seq![' '], canon_weather(m.weather));
            lemma_weather_head(s, o11 + 1, m.weather);
            utils::lemma_ws_end_is(s, o10, o10 + 1);
        } else {
            assert(o10 == s.len());
            utils::lemma_ws_end_is(s, o10, o10);
        }
    }
}

/// The optional groups at the tail of a report: the runway visual
/// ranges after the visibility, the present-weather group last.
proof fn lemma_round_tail(s: Seq<char>, m: MetarView, o10: int, o11: int)
    requires
        0 <= o10,
        o11 == o10 + canon_rvrs(m.rvrs).len(),
        o11 <= s.len(),
        s.subrange(o10, o11) == canon_rvrs(m.rvrs),
        s.subrange(o11, s.len() as int) == (if m.weather == PresentWeather::spec_empty() {
            Seq::<char>::empty()
        } else {
            seq![' '] + canon_weather(m.weather)
        }),
    ensures
        ({
            let q5 = ws_end(s, o10);
            let p5 = if m.rvrs.len() > 0 {
                o11
            } else {
                q5
            };
            &&& rvr::spec_rvrs(s, q5) == (m.rvrs, p5)
            &&& present_weather::spec_present_weather(s, p5).0 == m.weather
        }),
{
    let crv = canon_rvrs(m.rvrs);
    let weather_empty = m.weather == PresentWeather::spec_empty();
    let cwx = canon_weather(m.weather);
    let wp: Seq<char> = if weather_empty {
        Seq::<char>::empty()
    } else {
        seq![' '] + cwx
    };
    assert(s.len() == o11 + wp.len());
    let q5 = ws_end(s, o10);
    let p5: int;
    if m.rvrs.len() > 0 {
        assert(crv == seq![' '] + rvr::canon_rvr(m.rvrs[0]) + canon_rvrs(m.rvrs.drop_first()));
        assert(s[o10] == ' ' && s[o10 + 1] == 'R') by {
            assert(s.subrange(o10, o11)[0] == s[o10]);
            assert(s.subrange(o10, o11)[1] == s[o10 + 1]);
            assert(crv[1] == rvr::canon_rvr(m.rvrs[0])[0]);
        }
        utils::lemma_ws_end_is(s, o10, o10 + 1);
        assert(q5 == o10 + 1);
        assert(s.subrange(o10, o11) =~= seq![' '] + rvrs_tail_text(m.rvrs)) by {
            assert(crv =~= seq![' '] + rvrs_tail_text(m.rvrs));
        }
        utils::lemma_split_at(s, o10, seq![' '], rvrs_tail_text(m.rvrs));
        assert(o11 == s.len() || (s[o11] == ' ' && rvr::spec_rvr(s, o11 + 1) is None)) by {
            if !weather_empty {
                assert(s[o11] == ' ') by {
                    assert(s.subrange(o11, s.len() as int)[0] == s[o11]);
                }
                utils::lemma_split_at(s, o11, seq![' '], cwx);
                lemma_weather_head(s, o11 + 1, m.weather);
                rvr::lemma_rvr_none(s, o11 + 1);
            }
        }
        rvr::lemma_rvrs_canon(s, o10 + 1, m.rvrs);
        p5 = o11;
    } else {
        assert(crv =~= Seq::<char>::empty());
        assert(o11 == o10);
        if !weather_empty {
            assert(s[o10] == ' ') by {
                assert(s.subrange(o11, s.len() as int)[0] == s[o11]);
            }
            utils::lemma_split_at(s, o11, seq![' '], cwx);
            lemma_weather_head(s, o11 + 1, m.weather);
            utils::lemma_ws_end_is(s, o10, o10 + 1);
            rvr::lemma_rvr_none(s, q5);
        } else {
            assert(o10 == s.len());
            utils::lemma_ws_end_is(s, o10, o10);
            rvr::lemma_rvr_none(s, q5);
        }
        assert(rvr::spec_rvrs(s, q5) == (Seq::<rvr::RunwayVisualRange>::empty(), q5));
        assert(m.rvrs =~= Seq::<rvr::RunwayVisualRange>::empty());
        p5 = q5;
    }
    assert(ws_end(s, p5) + cwx.len() == s.len() && s.subrange(ws_end(s, p5), s.len() as int)
        == cwx) by {
        if !weather_empty {
            utils::lemma_split_at(s, o11, seq![' '], cwx);
            assert(s[o11] == ' ') by {
                assert(s.subrange(o11, s.len() as int)[0] == s[o11]);
            }
            lemma_weather_head(s, o11 + 1, m.weather);
            utils::lemma_ws_end_is(s, o11, o11 + 1);
            if m.rvrs.len() == 0 {
                assert(p5 == o11 + 1);
                utils::lemma_ws_end_is(s, p5, p5);
            }
        } else {
            assert(cwx =~= Seq::<char>::empty()) by {
                assert(canon_weather(PresentWeather::spec_empty()) =~= Seq::<char>::empty());
            }
            assert(p5 == s.len());
            utils::lemma_ws_end_is(s, p5, p5);
            assert(s.subrange(p5, s.len() as int) =~= Seq::<char>::empty());
        }
    }
    present_weather::lemma_weather_canon(s, p5, m.weather);
}

/// The canonical text of a report decomposes at fixed offsets into
/// its parts.
#[verifier::rlimit(100)]
proof fn lemma_round_split(m: MetarView)
    requires
        m.station.len() == 4,
        m.time.wf(),
    ensures
        ({
            let s = canon_report(m);
            let sp = seq![' '];
            let ct = canon_time(m.time);
            let crt = canon_report_type(m.report_type);
            let cw = canon_wind(m.wind);
            let cv = canon_visibility(m.visibility);
            let crv = canon_rvrs(m.rvrs);
            let wp: Seq<char> = if m.weather == PresentWeather::spec_empty() {
                Seq::<char>::empty()
            } else {
                sp + canon_weather(m.weather)
            };
            let o6 = 18 + crt.len() as int;
            let o7 = o6 + 1;
            let o8 = o7 + cw.len() as int;
            let o9 = o8 + 1;
            let o10 = o9 + cv.len() as int;
            let o11 = o10 + crv.len() as int;
            &&& s.len() == o11 + wp.len()
            &&& s.subrange(0, 5) == metar_tag()
            &&& s[5] == ' '
            &&& s.subrange(6, 10) == m.station
            &&& s[10] == ' '
            &&& s.subrange(11, 18) == ct
            &&& s.subrange(18, o6) == crt
            &&& s[o6] == ' '
            &&& s.subrange(o7, o8) == cw
            &&& s[o8] == ' '
            &&& s.subrange(o9, o10) == cv
            &&& s.subrange(o10, o11) == crv
            &&& s.subrange(o11, s.len() as int) == wp
        }),
{
    let s = canon_report(m);
    let sp = seq![' '];
    let st = m.station;
    let ct = canon_time(m.time);
    let crt = canon_report_type(m.report_type);
    let cw = canon_wind(m.wind);
    let cv = canon_visibility(m.visibility);
    let crv = canon_rvrs(m.rvrs);
    let wp: Seq<char> = if m.weather == PresentWeather::spec_empty() {
        Seq::<char>::empty()
    } else {
        sp + canon_weather(m.weather)
    };
    utils::lemma_pad2(m.time.day as int);
    utils::lemma_pad2(m.time.hour as int);
    utils::lemma_pad2(m.time.minute as int);
    assert(ct.len() == 7);
    let o6 = 18 + crt.len() as int;
    let o7 = o6 + 1;
    let o8 = o7 + cw.len() as int;
    let o9 = o8 + 1;
    let o10 = o9 + cv.len() as int;
    let o11 = o10 + crv.len() as int;
    assert(s.subrange(0, s.len() as int) =~= s);
    // peel the parts off, right to left
    utils::lemma_split_at(s, 0, metar_tag() + sp + st + sp + ct + crt + sp + cw + sp + cv + crv, wp);
    utils::lemma_split_at(s, 0, metar_tag() + sp + st + sp + ct + crt + sp + cw + sp + cv, crv);
    utils::lemma_split_at(s, 0, metar_tag() + sp + st + sp + ct + crt + sp + cw + sp, cv);
    utils::lemma_split_at(s, 0, metar_tag() + sp + st + sp + ct + crt + sp + cw, sp);
    utils::lemma_split_at(s, 0, metar_tag() + sp + st + sp + ct + crt + sp, cw);
    utils::lemma_split_at(s, 0, metar_tag() + sp + st + sp + ct + crt, sp);
    utils::lemma_split_at(s, 0, metar_tag() + sp + st + sp + ct, crt);
    utils::lemma_split_at(s, 0, metar_tag() + sp + st + sp, ct);
    utils::lemma_split_at(s, 0, metar_tag() + sp + st, sp);
    utils::lemma_split_at(s, 0, metar_tag() + sp, st);
    utils::lemma_split_at(s, 0, metar_tag(), sp);
    assert(s[5] == ' ') by {
        assert(s.subrange(5, 6)[0] == s[5]);
    }
    assert(s[10] == ' ') by {
        assert(s.subrange(10, 11)[0] == s[10]);
    }
    assert(s[o6] == ' ') by {
        assert(s.subrange(o6, o7)[0] == s[o6]);
    }
    assert(s[o8] == ' ') by {
        assert(s.subrange(o8, o9)[0] == s[o8]);
    }
}

/// Round trip: the canonical text of any well-formed report parses
/// back to exactly that report.  Together with
/// `lemma_parse_report_wf` this covers every successfully parsed
/// record.
#[verifier::rlimit(100)]
pub proof fn lemma_report_round_trip(m: MetarView)
    requires
        wf_report(m),
    ensures
        spec_report(canon_report(m)) == Some(m),
{
    let s = canon_report(m);
    let sp = seq![' '];
    let st = m.station;
    let ct = canon_time(m.time);
    let crt = canon_report_type(m.report_type);
    let cw = canon_wind(m.wind);
    let cv = canon_visibility(m.visibility);
    let crv = canon_rvrs(m.rvrs);
    let cwx = canon_weather(m.weather);
    let weather_empty = m.weather == PresentWeather::spec_empty();
    let wp: Seq<char> = if weather_empty {
        Seq::<char>::empty()
    } else {
        sp + cwx
    };
    utils::lemma_pad2(m.time.day as int);
    utils::lemma_pad2(m.time.hour as int);
    utils::lemma_pad2(m.time.minute as int);
    assert(ct.len() == 7);
    let o6 = 18 + crt.len() as int;
    let o7 = o6 + 1;
    let o8 = o7 + cw.len() as int;
    let o9 = o8 + 1;
    let o10 = o9 + cv.len() as int;
    let o11 = o10 + crv.len() as int;
    lemma_round_split(m);
    assert(s.len() == o11 + wp.len());
    // the keyword is stripped, once
    assert(lit_at(s, 0, metar_tag())) by {
        assert(forall|k: int| 0 <= k < 5 ==> s.subrange(0, 5)[k] == s[k]);
    }
    assert(!lit_at(s, 5, metar_tag())) by {
        if lit_at(s, 5, metar_tag()) {
            assert(s[5] == metar_tag()[0]);
        }
    }
    assert(strip_metar_from(s, 5) == 5);
    assert(strip_metar_from(s, 0) == 5);
    // the station follows the single separating space
    assert(s[6] == st[0]) by {
        assert(s.subrange(6, 10)[0] == s[6]);
    }
    utils::lemma_ws_end_is(s, 5, 6);
    // the time field
    assert(s[11] == ct[0]) by {
        assert(s.subrange(11, 18)[0] == s[11]);
    }
    assert(!is_space_char(ct[0])) by {
        assert(ct[0] == pad2(m.time.day as int)[0]);
        assert(is_digit_char(pad2(m.time.day as int)[0]));
    }
    utils::lemma_ws_end_is(s, 10, 11);
    crate::lemma_time_canon(s, 10, m.time);
    assert(spec_time(s, 10) == Some((m.time, 18int)));
    // the report-type flag and the head of the wind group
    assert(s[o7] == cw[0]) by {
        assert(s.subrange(o7, o8)[0] == s[o7]);
    }
    assert(!is_space_char(cw[0]) && cw[0] != 'A' && cw[0] != 'N') by {
        match m.wind.direction {
            WindDirection::Direct(n) => {
                utils::lemma_pad3(n as int);
                assert(cw[0] == utils::pad3(n as int)[0]);
                assert(is_digit_char(utils::pad3(n as int)[0]));
            },
            WindDirection::Variable => {
                assert(cw[0] == 'V');
            },
        }
    }
    lemma_round_report_type(s, m, o6, o7);
    let p2 = if m.report_type is Manual {
        19int
    } else {
        o6
    };
    assert(spec_report_type(s, 18) == (m.report_type, p2));
    // the wind group
    visibility::lemma_vis_canon_head(s, o9, m.visibility);
    lemma_round_after_vis(s, m, o10, o11);
    assert(ws_end(s, o8) == o9) by {
        utils::lemma_ws_end_is(s, o8, o9);
    }
    assert(m.wind.variable_direction is None ==> wind::no_variable_pattern(s, o8)) by {
        visibility::lemma_vis_head_no_v(s, o9, m.visibility);
    }
    wind::lemma_wind_canon(s, p2, m.wind);
    assert(wind::spec_wind(s, p2) == Some((m.wind, o8)));
    // the visibility group
    visibility::lemma_vis_full_canon(s, o8, m.visibility);
    assert(visibility::spec_visibility_full(s, o8) == Some((m.visibility, o10)));
    // the optional tail groups
    lemma_round_tail(s, m, o10, o11);
    // assemble the record
    assert(spec_report(s) == Some(m));
}

/// For every day, hour and minute written as three two-digit groups
/// with the `Z` terminator, the time parser succeeds exactly on the
/// calendar ranges and then returns exactly those three numbers; any
/// out-of-range component makes the parse fail.
pub proof fn lemma_time_exact(d: u8, h: u8, mi: u8)
    requires
        d <= 99,
        h <= 99,
        mi <= 99,
    ensures
        ({
            let text = pad2(d as int) + pad2(h as int) + pad2(mi as int) + seq!['Z'];
            &&& (1 <= d <= 31 && h <= 23 && mi <= 59) ==> spec_time(text, 0) == Some(
                (Time { day: d, hour: h, minute: mi }, 7int),
            )
            &&& !(1 <= d <= 31 && h <= 23 && mi <= 59) ==> spec_time(text, 0) is None
        }),
{
    let text = pad2(d as int) + pad2(h as int) + pad2(mi as int) + seq!['Z'];
    utils::lemma_pad2(d as int);
    utils::lemma_pad2(h as int);
    utils::lemma_pad2(mi as int);
    assert(text.len() == 7);
    assert(text.subrange(0, 2) =~= pad2(d as int));
    assert(text.subrange(2, 4) =~= pad2(h as int));
    assert(text.subrange(4, 6) =~= pad2(mi as int));
    assert(text[6] == 'Z');
    assert(digits_at(text, 0, 6)) by {
        assert(forall|k: int|
            0 <= k < 2 ==> text[k] == #[trigger] pad2(d as int)[k] && text[k + 2] == pad2(
                h as int,
            )[k] && text[k + 4] == pad2(mi as int)[k]);
    }
    assert(!utils::is_space_char(text[0]));
    utils::lemma_ws_end_is(text, 0, 0);
}

} // verus!
