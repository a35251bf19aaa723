use image_puller::fixed::parse_unit_frac;
use image_puller::rows::split_commas;

#[test]
fn parses_half() {
    assert_eq!(parse_unit_frac("0.5"), Some(500000));
}

#[test]
fn parses_nine_tenths() {
    assert_eq!(parse_unit_frac("0.9"), Some(900000));
}

#[test]
fn parses_two_tenths() {
    assert_eq!(parse_unit_frac("0.2"), Some(200000));
}

#[test]
fn parses_zero_and_one() {
    assert_eq!(parse_unit_frac("0"), Some(0));
    assert_eq!(parse_unit_frac("0.0"), Some(0));
    assert_eq!(parse_unit_frac("1"), Some(1000000));
    assert_eq!(parse_unit_frac("1.0"), Some(1000000));
    assert_eq!(parse_unit_frac("1.000000"), Some(1000000));
}

#[test]
fn parses_bare_fraction_and_bare_dot_forms() {
    assert_eq!(parse_unit_frac(".5"), Some(500000));
    assert_eq!(parse_unit_frac("0."), Some(0));
}

#[test]
fn truncates_past_six_fraction_digits() {
    assert_eq!(parse_unit_frac("0.1234567"), Some(123456));
}

#[test]
fn rejects_out_of_range() {
    assert_eq!(parse_unit_frac("1.000001"), None);
    assert_eq!(parse_unit_frac("2"), None);
    assert_eq!(parse_unit_frac("10000000000000000000000"), None);
}

#[test]
fn rejects_malformed() {
    assert_eq!(parse_unit_frac(""), None);
    assert_eq!(parse_unit_frac("."), None);
    assert_eq!(parse_unit_frac("abc"), None);
    assert_eq!(parse_unit_frac("0.5.1"), None);
    assert_eq!(parse_unit_frac("0.5x"), None);
    assert_eq!(parse_unit_frac("-0.5"), None);
}

#[test]
fn split_commas_matches_field_layout() {
    assert_eq!(
        split_commas("img1,x,/c1,0.9"),
        vec!["img1".to_string(), "x".to_string(), "/c1".to_string(), "0.9".to_string()]
    );
    assert_eq!(split_commas(""), vec!["".to_string()]);
    assert_eq!(split_commas("a,"), vec!["a".to_string(), "".to_string()]);
    assert_eq!(split_commas(",b"), vec!["".to_string(), "b".to_string()]);
    assert_eq!(
        split_commas("a,,b"),
        vec!["a".to_string(), "".to_string(), "b".to_string()]
    );
}
