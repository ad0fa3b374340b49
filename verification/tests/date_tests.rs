use ngx_etl::dates::parse_date;
use ngx_etl::models::Date;

#[test]
fn test_parse_date_investing() {
    assert_eq!(parse_date("Feb 20, 2024"), Date::from_ymd(2024, 2, 20));
    assert_eq!(parse_date("2024-02-20"), Date::from_ymd(2024, 2, 20));
    assert_eq!(parse_date("20/02/2024"), Date::from_ymd(2024, 2, 20));
}

#[test]
fn test_parse_date_all_formats_agree() {
    let expected = Date::from_ymd(2024, 2, 20);
    assert_eq!(parse_date("Feb 20, 2024"), expected);
    assert_eq!(parse_date("2024-02-20"), expected);
    assert_eq!(parse_date("20/02/2024"), expected);
    assert_eq!(parse_date("20 Feb 2024"), expected);
    // the month/day/year form is reached once the day/month reading fails
    assert_eq!(parse_date("02/20/2024"), expected);
}

#[test]
fn test_parse_date_try_order_ambiguity() {
    // both readings are numerically valid: the day/month pattern is tried
    // first and wins, so this is the 3rd of February, not the 2nd of March
    assert_eq!(parse_date("02/03/2024"), Date::from_ymd(2024, 3, 2));
}

#[test]
fn test_parse_date_case_insensitive_month() {
    let expected = Date::from_ymd(2024, 2, 20);
    assert_eq!(parse_date("FEB 20, 2024"), expected);
    assert_eq!(parse_date("feb 20, 2024"), expected);
}

#[test]
fn test_parse_date_trims_whitespace() {
    assert_eq!(parse_date("  2024-02-20  "), Date::from_ymd(2024, 2, 20));
}

#[test]
fn test_parse_date_leap_years() {
    assert_eq!(parse_date("2024-02-29"), Date::from_ymd(2024, 2, 29));
    assert_eq!(parse_date("2023-02-29"), None);
    assert_eq!(parse_date("2000-02-29"), Date::from_ymd(2000, 2, 29));
    assert_eq!(parse_date("1900-02-29"), None);
}

#[test]
fn test_parse_date_rejects_malformed() {
    assert_eq!(parse_date(""), None);
    assert_eq!(parse_date("20240220"), None);
    assert_eq!(parse_date("2024-13-01"), None);
    assert_eq!(parse_date("32/01/2024"), None);
    assert_eq!(parse_date("Xyz 20, 2024"), None);
    assert_eq!(parse_date("not a date"), None);
}

#[test]
fn test_parse_date_single_digit_fields() {
    assert_eq!(parse_date("2024-2-3"), Date::from_ymd(2024, 2, 3));
    assert_eq!(parse_date("3/2/2024"), Date::from_ymd(2024, 2, 3));
    assert_eq!(parse_date("Feb 3, 2024"), Date::from_ymd(2024, 2, 3));
}

#[test]
fn test_date_validity() {
    assert!(Date::from_ymd(2024, 4, 31).is_none());
    assert!(Date::from_ymd(2024, 0, 1).is_none());
    assert!(Date::from_ymd(2024, 12, 31).is_some());
    assert!(Date::from_ymd(10000, 1, 1).is_none());
}
