use metar_pars::utils::ErrorKind;
use metar_pars::visibility::{
    parse_visibility, parse_visibility_full, StatuteMiles, Visibility, VisibilityDirection,
    VisibilityValue,
};

/// The exact statute-mile fraction as a floating-point number, for
/// comparison with the values the format encodes.
fn miles(m: StatuteMiles) -> f64 {
    m.whole as f64 + m.numerator as f64 / m.denominator as f64
}

fn sm(whole: u16, numerator: u16, denominator: u16) -> VisibilityValue {
    VisibilityValue::StatuteMiles(StatuteMiles {
        whole,
        numerator,
        denominator,
    })
}

#[test]
fn test_parse_visibility() {
    assert_eq!(parse_visibility("CAVOK").unwrap().1, VisibilityValue::Cavok);
    assert_eq!(parse_visibility("NSC").unwrap().1, VisibilityValue::Nsc);
    assert_eq!(parse_visibility("SKC").unwrap().1, VisibilityValue::Skc);
    assert_eq!(
        parse_visibility("9999").unwrap().1,
        VisibilityValue::Meters(9999)
    );
    assert_eq!(
        parse_visibility("5000").unwrap().1,
        VisibilityValue::Meters(5000)
    );
    assert_eq!(
        parse_visibility(" 1000").unwrap().1,
        VisibilityValue::Meters(1000)
    );
    assert_eq!(parse_visibility("1/4SM").unwrap().1, sm(0, 1, 4));
    assert_eq!(parse_visibility("10SM").unwrap().1, sm(10, 0, 1));
    assert_eq!(parse_visibility("1 1/2SM").unwrap().1, sm(1, 1, 2));
}

#[test]
fn test_parse_visibility_custom_direction() {
    assert_eq!(
        parse_visibility_full("2000 1200NW").unwrap().1,
        Visibility::CustomDirection(
            VisibilityValue::Meters(2000),
            VisibilityValue::Meters(1200),
            VisibilityDirection::NorthWest
        )
    );
    assert_eq!(
        parse_visibility_full("3000 2000S").unwrap().1,
        Visibility::CustomDirection(
            VisibilityValue::Meters(3000),
            VisibilityValue::Meters(2000),
            VisibilityDirection::South
        )
    );
    assert_eq!(
        parse_visibility_full("1 1/2SM 10SMS").unwrap().1,
        Visibility::CustomDirection(sm(1, 1, 2), sm(10, 0, 1), VisibilityDirection::South)
    );
}

#[test]
fn test_statute_mile_values() {
    let quarter = match parse_visibility("1/4SM").unwrap().1 {
        VisibilityValue::StatuteMiles(m) => m,
        other => panic!("expected statute miles, got {:?}", other),
    };
    assert_eq!(miles(quarter), 0.25);
    let ten = match parse_visibility("10SM").unwrap().1 {
        VisibilityValue::StatuteMiles(m) => m,
        other => panic!("expected statute miles, got {:?}", other),
    };
    assert_eq!(miles(ten), 10.0);
    let one_and_a_half = match parse_visibility("1 1/2SM").unwrap().1 {
        VisibilityValue::StatuteMiles(m) => m,
        other => panic!("expected statute miles, got {:?}", other),
    };
    assert_eq!(miles(one_and_a_half), 1.5);
}

#[test]
fn test_visibility_rejects_bad_fractions() {
    // an empty numerator or denominator is a failure of the
    // statute-mile pattern, never a silent zero; the bare digit run
    // then parses as meters instead
    assert_eq!(parse_visibility("1/SM").unwrap().1, VisibilityValue::Meters(1));
    // a zero denominator is rejected the same way
    assert_eq!(
        parse_visibility("1/0SM").unwrap().1,
        VisibilityValue::Meters(1)
    );
    // no digits at all: a hard syntax failure
    assert_eq!(parse_visibility("SM").unwrap_err().kind, ErrorKind::Syntax);
    assert_eq!(parse_visibility("XYZ").unwrap_err().kind, ErrorKind::Syntax);
    // a numeral too large for the meters field: a bounds failure
    assert_eq!(parse_visibility("70000").unwrap_err().kind, ErrorKind::Bounds);
}

#[test]
fn test_two_letter_compass_preferred() {
    // NW must not resolve as N with a dangling W
    let parsed = parse_visibility_full("2000 1200NW").unwrap();
    assert_eq!(parsed.0, "");
    match parsed.1 {
        Visibility::CustomDirection(_, _, d) => {
            assert_eq!(d, VisibilityDirection::NorthWest)
        },
        other => panic!("expected a directional pair, got {:?}", other),
    }
}

#[test]
fn test_visibility_full_single() {
    assert_eq!(
        parse_visibility_full("9999").unwrap().1,
        Visibility::Single(VisibilityValue::Meters(9999))
    );
    assert_eq!(
        parse_visibility_full("CAVOK").unwrap().1,
        Visibility::Single(VisibilityValue::Cavok)
    );
}
