use metar_pars::utils::ErrorKind;
use metar_pars::wind::{parse_variable_wind_direction, parse_wind, Wind, WindDirection, WindUnit};

#[test]
fn test_variable_wind() {
    assert_eq!(
        parse_variable_wind_direction("20V40").unwrap(),
        (("", Some((20, 40))))
    );

    assert_eq!(
        parse_variable_wind_direction("200V40").unwrap(),
        (("", Some((200, 40))))
    );
    assert_eq!(
        parse_variable_wind_direction("200V240").unwrap(),
        (("", Some((200, 240))))
    );
    assert_eq!(
        parse_variable_wind_direction("20V240").unwrap(),
        (("", Some((20, 240))))
    )
}

#[test]
fn test_wind() {
    assert_eq!(
        parse_wind("22010KT").unwrap().1,
        Wind::new(WindDirection::Direct(220), 10, None, WindUnit::Kt, None).unwrap()
    );

    assert_eq!(
        parse_wind("220100MPS").unwrap().1,
        Wind::new(WindDirection::Direct(220), 100, None, WindUnit::Mps, None).unwrap()
    );
    assert_eq!(
        parse_wind("22010G40KT").unwrap().1,
        Wind::new(WindDirection::Direct(220), 10, Some(40), WindUnit::Kt, None).unwrap()
    );

    assert_eq!(
        parse_wind("22010G40KT 200V240").unwrap().1,
        Wind::new(
            WindDirection::Direct(220),
            10,
            Some(40),
            WindUnit::Kt,
            Some((200, 240))
        )
        .unwrap()
    );

    assert_eq!(
        parse_wind("VRB11G40KT").unwrap().1,
        Wind::new(WindDirection::Variable, 11, Some(40), WindUnit::Kt, None).unwrap()
    )
}

#[test]
fn test_wind_variable_direction_token() {
    assert_eq!(
        parse_wind("VRB10G40KT").unwrap().1,
        Wind::new(WindDirection::Variable, 10, Some(40), WindUnit::Kt, None).unwrap()
    );
}

#[test]
fn test_wind_unit_case_insensitive() {
    assert_eq!(
        parse_wind("22010kt").unwrap().1,
        Wind::new(WindDirection::Direct(220), 10, None, WindUnit::Kt, None).unwrap()
    );
    assert_eq!(
        parse_wind("22010mps").unwrap().1,
        Wind::new(WindDirection::Direct(220), 10, None, WindUnit::Mps, None).unwrap()
    );
}

#[test]
fn test_wind_speed_out_of_range() {
    // a speed numeral too large for the speed type
    assert_eq!(parse_wind("22099999KT").unwrap_err().kind, ErrorKind::Bounds);
}

#[test]
fn test_wind_malformed() {
    // direction token that is neither numeric nor the variable literal
    assert!(parse_wind("2R010KT").is_err());
    // no speed digits at all
    assert!(parse_wind("VRBKT").is_err());
    // unrecognized unit letters
    assert!(parse_wind("22010KN").is_err());
    // nothing after the speed
    assert!(parse_wind("22010").is_err());
}

#[test]
fn test_variable_wind_absent_suffix() {
    // a malformed suffix is treated as absent, not as an error
    assert_eq!(parse_variable_wind_direction("V240").unwrap(), ("V240", None));
    assert_eq!(parse_variable_wind_direction("200V").unwrap(), ("200V", None));
    assert_eq!(
        parse_variable_wind_direction("CAVOK").unwrap(),
        ("CAVOK", None)
    );
}
