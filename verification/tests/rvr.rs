use metar_pars::rvr::{
    parse_rvr, parse_rvrs, RunwayPosition, RunwayVisualRange, VisibilityScale, VisibilityStatus,
};
use metar_pars::utils::Parseable;

#[test]
fn test_parseable_tags() {
    assert_eq!(
        RunwayPosition::parse("L/400").unwrap(),
        ("/400", RunwayPosition::Left)
    );
    assert_eq!(
        VisibilityScale::parse("P1075N").unwrap(),
        ("1075N", VisibilityScale::Plus)
    );
    assert_eq!(
        VisibilityStatus::parse("U rest").unwrap(),
        (" rest", VisibilityStatus::Up)
    );
    assert!(RunwayPosition::parse("X").is_err());
}

#[test]
fn test_parse_rvr_scale() {
    let res = parse_rvr("R25/M0075U").unwrap().1;
    assert_eq!(
        res,
        RunwayVisualRange {
            number: 25,
            position: None,
            visibility_meters: 75,
            visibility_scale: Some(VisibilityScale::Minus),
            visibility_status: Some(VisibilityStatus::Up)
        }
    );
}

#[test]
fn test_parse_rvr_position_scale_status() {
    let res = parse_rvr("R25L/P1075N").unwrap().1;
    assert_eq!(
        res,
        RunwayVisualRange {
            number: 25,
            position: Some(RunwayPosition::Left),
            visibility_meters: 1075,
            visibility_scale: Some(VisibilityScale::Plus),
            visibility_status: Some(VisibilityStatus::No)
        }
    );
}

#[test]
fn test_parse_rvrs() {
    let res = parse_rvrs("R25L/M1075N R25C/P200U").unwrap().1;
    assert_eq!(
        res,
        vec![
            RunwayVisualRange {
                number: 25,
                position: Some(RunwayPosition::Left),
                visibility_meters: 1075,
                visibility_scale: Some(VisibilityScale::Minus),
                visibility_status: Some(VisibilityStatus::No)
            },
            RunwayVisualRange {
                number: 25,
                position: Some(RunwayPosition::Center),
                visibility_meters: 200,
                visibility_scale: Some(VisibilityScale::Plus),
                visibility_status: Some(VisibilityStatus::Up)
            }
        ]
    );
}

#[test]
fn test_parse_rvrs_empty_list() {
    // most reports carry no runway visual range at all: the list
    // parser succeeds with an empty list and consumes nothing
    let (rest, list) = parse_rvrs("BKN022").unwrap();
    assert_eq!(rest, "BKN022");
    assert_eq!(list, vec![]);
}

#[test]
fn test_parse_rvr_minimal_and_signed() {
    let res = parse_rvr("R4/400").unwrap().1;
    assert_eq!(
        res,
        RunwayVisualRange {
            number: 4,
            position: None,
            visibility_meters: 400,
            visibility_scale: None,
            visibility_status: None
        }
    );
    let res = parse_rvr("R-5/-20").unwrap().1;
    assert_eq!(res.number, -5);
    assert_eq!(res.visibility_meters, -20);
}

#[test]
fn test_parse_rvr_malformed() {
    // a runway number too large for its field
    assert!(parse_rvr("R200/400").is_err());
    // the slash is required
    assert!(parse_rvr("R25L400").is_err());
    // the list stops at the first malformed group
    let (rest, list) = parse_rvrs("R25L/400 RA").unwrap();
    assert_eq!(list.len(), 1);
    assert_eq!(rest, " RA");
}
