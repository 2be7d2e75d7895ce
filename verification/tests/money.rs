use paybar::error::{AmountFault, Error};
use paybar::money::{format_cents, parse_cents};

#[test]
fn parses_the_shapes_people_type() {
    assert_eq!(parse_cents("45900").unwrap(), 4_590_000);
    assert_eq!(parse_cents("12.99").unwrap(), 1299);
    assert_eq!(parse_cents("12.9").unwrap(), 1290);
    assert_eq!(parse_cents("12.").unwrap(), 1200);
    assert_eq!(parse_cents(".5").unwrap(), 50);
    assert_eq!(parse_cents("1_000").unwrap(), 100_000);
    assert_eq!(parse_cents("1,000.50").unwrap(), 100_050);
    assert_eq!(parse_cents("  20  ").unwrap(), 2000);
    assert_eq!(parse_cents("-8.25").unwrap(), -825);
}

#[test]
fn extra_precision_is_rejected_not_rounded() {
    assert!(parse_cents("12.999").is_err());
    assert!(parse_cents("0.001").is_err());
}

#[test]
fn rejects_things_that_are_not_amounts() {
    assert!(parse_cents("").is_err());
    assert!(parse_cents("abc").is_err());
    assert!(parse_cents("12.3.4").is_err());
    assert!(parse_cents("1 000").is_err());
    assert!(parse_cents(".").is_err());
}

#[test]
fn formats_with_thousands_grouping() {
    assert_eq!(format_cents(4_590_000), "45,900.00");
    assert_eq!(format_cents(1299), "12.99");
    assert_eq!(format_cents(0), "0.00");
    assert_eq!(format_cents(5), "0.05");
    assert_eq!(format_cents(100_000_000), "1,000,000.00");
    assert_eq!(format_cents(-825), "-8.25");
}

#[test]
fn parse_and_format_round_trip() {
    for s in ["45,900.00", "12.99", "0.00", "1,000,000.00"] {
        assert_eq!(format_cents(parse_cents(s).unwrap()), s);
    }
}

#[test]
fn each_refusal_names_its_reason_and_keeps_the_text() {
    assert_eq!(parse_cents("  "), Err(Error::Amount(AmountFault::Empty, "  ".to_string())));
    assert_eq!(parse_cents("abc"), Err(Error::Amount(AmountFault::NotAnAmount, "abc".to_string())));
    assert_eq!(parse_cents("1.234"), Err(Error::Amount(AmountFault::TooManyDecimals, "1.234".to_string())));
    assert_eq!(
        parse_cents("100000000000000000"),
        Err(Error::Amount(AmountFault::OutOfRange, "100000000000000000".to_string()))
    );
}

#[test]
fn a_plus_sign_and_grouping_inside_the_decimals_are_accepted() {
    assert_eq!(parse_cents("+3.5").unwrap(), 350);
    assert_eq!(parse_cents("1,2_3.4,5").unwrap(), 12345);
}

#[test]
fn the_largest_amounts_format_and_read_back() {
    assert_eq!(format_cents(i64::MAX), "92,233,720,368,547,758.07");
    assert_eq!(format_cents(i64::MIN), "-92,233,720,368,547,758.08");
    assert_eq!(parse_cents(&format_cents(i64::MAX)).unwrap(), i64::MAX);
    assert_eq!(parse_cents(&format_cents(i64::MIN)).unwrap(), i64::MIN);
    assert_eq!(parse_cents(&format_cents(-5)).unwrap(), -5);
}

#[test]
fn a_value_too_large_is_reported_as_std_reports_it() {
    assert_eq!(
        parse_cents("100000000000000000").unwrap_err().message(),
        "number too large to fit in target type"
    );
}
