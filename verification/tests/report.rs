use metar_pars::present_weather::{Intensity, Precipitation, PresentWeather};
use metar_pars::rvr::{RunwayVisualRange, VisibilityScale, VisibilityStatus};
use metar_pars::utils::ErrorKind;
use metar_pars::visibility::{Visibility, VisibilityValue};
use metar_pars::wind::{WindDirection, WindUnit};
use metar_pars::{parse_with_bounds, report_type, time, ReportType, Time, METAR};

#[test]
fn test_report_type() {
    assert_eq!(report_type("AUTO").unwrap().1, ReportType::Auto);
    assert_eq!(report_type("NIL").unwrap().1, ReportType::Nil);
    assert_eq!(report_type("Something else").unwrap().1, ReportType::Manual);
    assert_eq!(report_type("").unwrap().1, ReportType::Manual);
}

#[test]
fn test_parse_with_bounds() {
    assert_eq!(parse_with_bounds(1, 31, "14").unwrap(), 14);
    assert_eq!(parse_with_bounds(0, 59, "00").unwrap(), 0);
    // a syntactically valid numeral out of its domain is a bounds
    // failure, not a clamped value
    assert_eq!(parse_with_bounds(0, 23, "24").unwrap_err().kind, ErrorKind::Bounds);
    assert_eq!(parse_with_bounds(1, 31, "32").unwrap_err().kind, ErrorKind::Bounds);
    assert_eq!(parse_with_bounds(1, 31, "0").unwrap_err().kind, ErrorKind::Bounds);
    // a non-numeral is a syntax failure
    assert_eq!(parse_with_bounds(1, 31, "1a").unwrap_err().kind, ErrorKind::Syntax);
    assert_eq!(parse_with_bounds(1, 31, "").unwrap_err().kind, ErrorKind::Syntax);
}

#[test]
fn test_time_field() {
    let (rest, t) = time("141600Z").unwrap();
    assert_eq!(t, Time { day: 14, hour: 16, minute: 0 });
    assert_eq!(rest, "");
    let (rest, t) = time(" 312359Z rest").unwrap();
    assert_eq!(t, Time { day: 31, hour: 23, minute: 59 });
    assert_eq!(rest, " rest");
}

#[test]
fn test_time_bounds_rejected() {
    // day 32, hour 24, minute 60: syntactically fine, out of range
    assert_eq!(time("321600Z").unwrap_err().kind, ErrorKind::Bounds);
    assert_eq!(time("142400Z").unwrap_err().kind, ErrorKind::Bounds);
    assert_eq!(time("141660Z").unwrap_err().kind, ErrorKind::Bounds);
    assert_eq!(time("001600Z").unwrap_err().kind, ErrorKind::Bounds);
    // missing terminator or digits: a syntax failure
    assert_eq!(time("141600Q").unwrap_err().kind, ErrorKind::Syntax);
    assert_eq!(time("1416").unwrap_err().kind, ErrorKind::Syntax);
    assert_eq!(time("14160xZ").unwrap_err().kind, ErrorKind::Syntax);
}

#[test]
fn test_parse_report_end_to_end() {
    let m = METAR::parse("METAR LICJ 141600Z 120120G50KT 090V150 CAVOK").unwrap();
    assert_eq!(m.station, "LICJ");
    assert_eq!(m.time, Time { day: 14, hour: 16, minute: 0 });
    assert_eq!(m.report_type, ReportType::Manual);
    assert_eq!(m.wind.direction, WindDirection::Direct(120));
    assert_eq!(m.wind.speed, 120);
    assert_eq!(m.wind.gust_speed, Some(50));
    assert_eq!(m.wind.unit, WindUnit::Kt);
    assert_eq!(m.wind.variable_direction, Some((90, 150)));
    assert_eq!(m.visibility, Visibility::Single(VisibilityValue::Cavok));
    assert_eq!(m.rvrs, vec![]);
    assert_eq!(m.weather, PresentWeather {
        intensity: None,
        characteristic: None,
        precipitation: None,
        obscuration: None,
        other_phenomena: None,
    });
}

#[test]
fn test_parse_report_with_rvr_and_weather() {
    let sample = "METAR LICJ 141600Z 120120G50KT 090V150 CAVOK R04/P1500N R22/P1500U +SN BKN022 OVC050 M04/M07 Q1020 NOSIG 8849//91=";
    let m = METAR::parse(sample).unwrap();
    assert_eq!(m.station, "LICJ");
    assert_eq!(
        m.rvrs,
        vec![
            RunwayVisualRange {
                number: 4,
                position: None,
                visibility_meters: 1500,
                visibility_scale: Some(VisibilityScale::Plus),
                visibility_status: Some(VisibilityStatus::No)
            },
            RunwayVisualRange {
                number: 22,
                position: None,
                visibility_meters: 1500,
                visibility_scale: Some(VisibilityScale::Plus),
                visibility_status: Some(VisibilityStatus::Up)
            }
        ]
    );
    assert_eq!(m.weather.intensity, Some(Intensity::Heavy));
    assert_eq!(m.weather.precipitation, Some(Precipitation::Snow));
    assert_eq!(m.weather.characteristic, None);
}

#[test]
fn test_parse_report_rejects_bad_fields() {
    // out-of-range hour
    assert!(METAR::parse("METAR LICJ 142500Z 12010KT 9999").is_err());
    // malformed wind unit
    assert!(METAR::parse("METAR LICJ 141600Z 12010XX 9999").is_err());
    // station shorter than four characters
    assert!(METAR::parse("MET").is_err());
}

#[test]
fn test_canonical_text_exact() {
    let m = METAR::parse("METAR LICJ 141600Z 120120G50KT 090V150 CAVOK").unwrap();
    // the variable range is re-spelled without the leading zero of 090
    assert_eq!(
        m.canonical_text(),
        "METAR LICJ 141600Z 120120G50KT 90V150 CAVOK"
    );
}

#[test]
fn test_round_trip_simple() {
    let m = METAR::parse("METAR LICJ 141600Z 120120G50KT 090V150 CAVOK").unwrap();
    let again = METAR::parse(&m.canonical_text()).unwrap();
    assert_eq!(m, again);
}

#[test]
fn test_round_trip_full() {
    let sample = "METAR LICJ 141600Z 120120G50KT 090V150 CAVOK R04/P1500N R22/P1500U +SN BKN022 OVC050";
    let m = METAR::parse(sample).unwrap();
    let again = METAR::parse(&m.canonical_text()).unwrap();
    assert_eq!(m, again);
}

#[test]
fn test_round_trip_directional_miles() {
    let m = METAR::parse("METAR KJFK 010000Z AUTO 00000KT 1 1/2SM 10SMS").unwrap();
    let again = METAR::parse(&m.canonical_text()).unwrap();
    assert_eq!(m, again);
    let m = METAR::parse("METAR KJFK 010000Z NIL 36005MPH 2000 1200NW RA").unwrap();
    let again = METAR::parse(&m.canonical_text()).unwrap();
    assert_eq!(m, again);
}
