use orderbook_merge::decimal::parse_decimal;

#[test]
fn whole_numbers_are_scaled() {
    assert_eq!(parse_decimal("0"), Some(0));
    assert_eq!(parse_decimal("1"), Some(100_000_000));
    assert_eq!(parse_decimal("100.0"), Some(10_000_000_000));
    assert_eq!(parse_decimal("007"), Some(700_000_000));
}

#[test]
fn fractions_are_filled_to_eight_places() {
    assert_eq!(parse_decimal("0.5"), Some(50_000_000));
    assert_eq!(parse_decimal("99.5"), Some(9_950_000_000));
    assert_eq!(parse_decimal("0.06812300"), Some(6_812_300));
    assert_eq!(parse_decimal("0.00000001"), Some(1));
    assert_eq!(parse_decimal("12.34567891"), Some(1_234_567_891));
}

#[test]
fn a_side_of_the_point_may_be_empty() {
    assert_eq!(parse_decimal(".5"), Some(50_000_000));
    assert_eq!(parse_decimal("5."), Some(500_000_000));
    assert_eq!(parse_decimal("."), None);
    assert_eq!(parse_decimal(""), None);
}

#[test]
fn a_sign_may_stand_in_front() {
    assert_eq!(parse_decimal("-1.5"), Some(-150_000_000));
    assert_eq!(parse_decimal("+2"), Some(200_000_000));
    assert_eq!(parse_decimal("-0"), Some(0));
    assert_eq!(parse_decimal("-"), None);
    assert_eq!(parse_decimal("+"), None);
    assert_eq!(parse_decimal("--1"), None);
    assert_eq!(parse_decimal("1-"), None);
}

#[test]
fn other_text_is_no_number() {
    assert_eq!(parse_decimal("abc"), None);
    assert_eq!(parse_decimal("1e5"), None);
    assert_eq!(parse_decimal("1.2.3"), None);
    assert_eq!(parse_decimal(" 1"), None);
    assert_eq!(parse_decimal("1 "), None);
    assert_eq!(parse_decimal("1,5"), None);
    assert_eq!(parse_decimal("\u{661}"), None);
    assert_eq!(parse_decimal("1.x"), None);
}

#[test]
fn more_than_eight_places_are_refused() {
    assert_eq!(parse_decimal("1.123456789"), None);
    assert_eq!(parse_decimal("0.000000000"), None);
}

#[test]
fn the_largest_number_is_read_and_the_next_refused() {
    assert_eq!(parse_decimal("92233720368.54775807"), Some(i64::MAX));
    assert_eq!(parse_decimal("-92233720368.54775807"), Some(-i64::MAX));
    assert_eq!(parse_decimal("92233720368.54775808"), None);
    assert_eq!(parse_decimal("92233720369"), None);
    assert_eq!(parse_decimal("99999999999999999999999999"), None);
}
