use weather_charts::error::Error;

#[test]
fn friendly_errors_keep_their_text() {
    let e = Error::friendly("no location set".to_owned());
    assert!(matches!(e, Error::Friendly(_)));
    assert_eq!(e.message(), "no location set");
}

#[test]
fn unfriendly_errors_keep_their_text() {
    let e = Error::custom_unfriendly("series length does not match".to_owned());
    assert!(matches!(e, Error::Unfriendly(_)));
    assert_eq!(e.message(), "series length does not match");
}
