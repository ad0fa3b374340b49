use ngx_etl::cleaner::normalise_pair;
use ngx_etl::cleaner::normalise_symbol;
use ngx_etl::cleaner::parse_pct;
use ngx_etl::cleaner::parse_price;
use ngx_etl::cleaner::parse_volume;
use ngx_etl::cleaner::parse_volume_shorthand;
use ngx_etl::models::Decimal;

fn dec_to_f64(d: Decimal) -> f64 {
    (d.mantissa as f64) / 10f64.powi(d.scale as i32)
}

#[test]
fn test_parse_volume_shorthand() {
    assert_eq!(parse_volume_shorthand("1.2M"), Some(1_200_000));
    assert_eq!(parse_volume_shorthand("1.23M"), Some(1_230_000));
    assert_eq!(parse_volume_shorthand("345K"), Some(345_000));
    assert_eq!(parse_volume_shorthand("2.5K"), Some(2_500));
    assert_eq!(parse_volume_shorthand("1.5B"), Some(1_500_000_000));
    assert_eq!(parse_volume_shorthand("12345"), Some(12345));
    assert_eq!(parse_volume_shorthand("1,234,567"), Some(1_234_567));
    assert_eq!(parse_volume_shorthand("N/A"), None);
    assert_eq!(parse_volume_shorthand("-"), None);
}

#[test]
fn test_parse_pct() {
    assert_eq!(parse_pct("+2.09%").map(dec_to_f64), Some(2.09));
    assert_eq!(parse_pct("-0.50%").map(dec_to_f64), Some(-0.50));
    assert_eq!(parse_pct("1.5").map(dec_to_f64), Some(1.5));
    assert_eq!(parse_pct("N/A"), None);
}

#[test]
fn test_normalise_pair() {
    assert_eq!(normalise_pair("USD/NGN"), "USDNGN");
    assert_eq!(normalise_pair("usd ngn"), "USDNGN");
    assert_eq!(normalise_pair("USDNGN"), "USDNGN");
}

#[test]
fn test_normalise_symbol_trims_and_uppercases() {
    assert_eq!(normalise_symbol("  dangcem "), "DANGCEM");
    assert_eq!(normalise_symbol("ZENITH"), "ZENITH");
    assert_eq!(normalise_symbol(""), "");
}

#[test]
fn test_parse_price_values() {
    assert_eq!(parse_price("34.50"), Some(Decimal::new(3450, 2)));
    assert_eq!(parse_price("1,234.5"), Some(Decimal::new(12345, 1)));
    assert_eq!(parse_price("-7.25"), Some(Decimal::new(-725, 2)));
    assert_eq!(parse_price("\u{20a6}100"), Some(Decimal::new(100, 0)));
    assert_eq!(parse_price(""), None);
    assert_eq!(parse_price("N/A"), None);
    assert_eq!(parse_price("-"), None);
    assert_eq!(parse_price("\u{2014}"), None);
    assert_eq!(parse_price("1.2.3"), None);
    assert_eq!(parse_price("abc"), None);
}

#[test]
fn test_parse_pct_strips_separators() {
    assert_eq!(parse_pct("1,050.25%"), Some(Decimal::new(105025, 2)));
    assert_eq!(parse_pct("-"), None);
    assert_eq!(parse_pct(""), None);
    assert_eq!(parse_pct("abc"), None);
}

#[test]
fn test_parse_volume_plain_and_fallback() {
    assert_eq!(parse_volume("1.2M"), Some(1_200_000));
    assert_eq!(parse_volume("1,234,567"), Some(1_234_567));
    assert_eq!(parse_volume("12 345"), Some(12_345));
    assert_eq!(parse_volume("N/A"), None);
    assert_eq!(parse_volume("-"), None);
    assert_eq!(parse_volume(""), None);
}

#[test]
fn test_parse_volume_shorthand_case_insensitive() {
    assert_eq!(parse_volume_shorthand("1.2m"), Some(1_200_000));
    assert_eq!(parse_volume_shorthand("2k"), Some(2_000));
    assert_eq!(parse_volume_shorthand("0.5b"), Some(500_000_000));
    // truncated toward zero, as the multiplier contract states
    assert_eq!(parse_volume_shorthand("1.2345K"), Some(1_234));
}
