use weather_charts::weather::weather_code_to_str;

#[test]
fn known_codes_have_descriptions() {
    assert_eq!(weather_code_to_str(0), Some("clear sky"));
    assert_eq!(weather_code_to_str(3), Some("overcast"));
    assert_eq!(weather_code_to_str(45), Some("fog"));
    assert_eq!(weather_code_to_str(55), Some("dense drizzle"));
    assert_eq!(weather_code_to_str(67), Some("heavy, freezing rain"));
    assert_eq!(weather_code_to_str(77), Some("snow grains"));
    assert_eq!(weather_code_to_str(82), Some("violent rain showers"));
    assert_eq!(weather_code_to_str(99), Some("thunderstorm with heavy hail"));
}

#[test]
fn unknown_codes_have_none() {
    for code in [4, 10, 44, 50, 60, 70, 90, 100, 255] {
        assert_eq!(weather_code_to_str(code), None);
    }
}
