use faustprobe::number::{NumberFormat, Precision};

#[test]
fn precision_parses_full_or_a_count() {
    assert_eq!(Precision::parse("full").unwrap(), Precision::RoundTrip);
    assert_eq!(Precision::parse("9").unwrap(), Precision::Fixed(9));
    assert!(Precision::parse("many").is_err());
}

#[test]
fn a_refused_precision_is_named() {
    assert_eq!(
        Precision::parse("-1").unwrap_err(),
        "`--precision -1`: expected `full` or a number of decimals"
    );
    assert_eq!(Precision::parse("+3").unwrap(), Precision::Fixed(3));
    assert!(Precision::parse("").is_err());
    assert!(Precision::parse("Full").is_err());
}

#[test]
fn the_default_precision_is_the_round_trip_text() {
    assert_eq!(Precision::default(), Precision::RoundTrip);
    let format = NumberFormat::new(Precision::Fixed(4), true);
    assert_eq!(format.precision_of(), Precision::Fixed(4));
    assert!(format.double());
}
