use metar_pars::present_weather::{
    Characteristic, Intensity, Obscuration, OtherPhenomena, Precipitation, PresentWeather,
};

#[test]
fn test_clear_conditions() {
    let input = "TS"; // Thunderstorm
    let expected = PresentWeather {
        intensity: None,
        characteristic: Some(Characteristic::Thunderstorm),
        obscuration: None,
        precipitation: None,
        other_phenomena: None,
    };
    let result = PresentWeather::parse(input).unwrap().1;
    assert_eq!(result, expected);
}

#[test]
fn test_rain_with_intensity() {
    let input = "+RA"; // Heavy Rain
    let expected = PresentWeather {
        intensity: Some(Intensity::Heavy),
        characteristic: None,
        obscuration: None,
        precipitation: Some(Precipitation::Rain),
        other_phenomena: None,
    };
    let result = PresentWeather::parse(input).unwrap().1;
    assert_eq!(result, expected);
}

#[test]
fn test_multiple_conditions() {
    let input = "+SH RA FG"; // Heavy Showers with Rain and Fog
    let expected = PresentWeather {
        intensity: Some(Intensity::Heavy),
        characteristic: Some(Characteristic::Shower),
        obscuration: Some(Obscuration::Fog),
        precipitation: Some(Precipitation::Rain),
        other_phenomena: None,
    };
    let result = PresentWeather::parse(input).unwrap().1;
    assert_eq!(result, expected);
}

#[test]
fn test_obscuration_and_other_phenomena() {
    let input = "DU VA PO"; // Dust, Volcanic Ash, Dust/Sand Whirls
    let expected = PresentWeather {
        intensity: None,
        characteristic: None,
        obscuration: Some(Obscuration::Dust),
        precipitation: None,
        other_phenomena: Some(OtherPhenomena::DustSandWhirls),
    };
    let result = PresentWeather::parse(input).unwrap().1;
    assert_eq!(result, expected);
}

#[test]
fn test_partial_obscuration() {
    let input = "PR FG"; // Partial Fog
    let expected = PresentWeather {
        intensity: None,
        characteristic: Some(Characteristic::Partial),
        obscuration: Some(Obscuration::Fog),
        precipitation: None,
        other_phenomena: None,
    };
    let result = PresentWeather::parse(input).unwrap().1;
    assert_eq!(result, expected);
}

#[test]
fn test_mixed_conditions() {
    let input = "SH UP VC"; // Shower, Unknown Precipitation, Vicinity
    let expected = PresentWeather {
        intensity: None,
        characteristic: Some(Characteristic::Shower),
        obscuration: None,
        precipitation: Some(Precipitation::UnknownPrecipitation),
        other_phenomena: None,
    };
    let result = PresentWeather::parse(input).unwrap().1;
    assert_eq!(result, expected);
}

#[test]
fn test_empty_input() {
    let input = ""; // No input
    let expected = PresentWeather {
        intensity: None,
        characteristic: None,
        obscuration: None,
        precipitation: None,
        other_phenomena: None,
    };
    let result = PresentWeather::parse(input).unwrap().1;
    assert_eq!(result, expected);
}

#[test]
fn test_weather_group_decomposition() {
    // the intensity sign is read only at the very start of the group
    let (rest, w) = PresentWeather::parse("+SN BKN022").unwrap();
    assert_eq!(
        w,
        PresentWeather {
            intensity: Some(Intensity::Heavy),
            characteristic: None,
            obscuration: None,
            precipitation: Some(Precipitation::Snow),
            other_phenomena: None,
        }
    );
    assert_eq!(rest, " BKN022");
}
