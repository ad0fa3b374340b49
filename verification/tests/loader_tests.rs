use ngx_etl::loader::LoadError;
use ngx_etl::loader::extract_pair_from_filename;
use ngx_etl::loader::extract_symbol_from_filename;
use ngx_etl::loader::load_equity_csv;
use ngx_etl::loader::load_fx_csv;
use ngx_etl::loader::load_tickers_csv;
use ngx_etl::models::Date;
use ngx_etl::models::Decimal;

fn d(y: i32, m: u8, day: u8) -> Date {
    Date::from_ymd(y, m, day).unwrap()
}

#[test]
fn test_extract_symbol() {
    assert_eq!(extract_symbol_from_filename("DANGCEM_historical.csv").as_deref(), Some("DANGCEM"));
    assert_eq!(extract_symbol_from_filename("zenith data.csv").as_deref(), Some("ZENITH"));
    assert_eq!(extract_symbol_from_filename("mtnn.csv").as_deref(), Some("MTNN"));
    assert_eq!(extract_symbol_from_filename("_nothing.csv"), None);
    assert_eq!(extract_symbol_from_filename(".hidden"), None);
    assert_eq!(extract_pair_from_filename("USDNGN_historical.csv").as_deref(), Some("USDNGN"));
}

#[test]
fn test_load_equity_csv_discards_invalid_close() {
    // one good row, then close = 0, negative, unparsable, and a bad date:
    // only the good rows load, the rest of the file is unaffected
    let content = "Date,Price,Open,High,Low,Vol.,Change %\n\
                   2024-02-20,45.00,44.00,46.00,43.50,1.2M,+2.09%\n\
                   2024-02-21,0,44.00,46.00,43.50,1.0M,+0.00%\n\
                   2024-02-22,-3.5,44.00,46.00,43.50,1.0M,+0.00%\n\
                   2024-02-23,abc,44.00,46.00,43.50,1.0M,+0.00%\n\
                   not-a-date,45.00,44.00,46.00,43.50,1.0M,+0.00%\n\
                   2024-02-26,46.25,45.00,47.00,44.00,345K,-0.50%\n";
    let (symbol, bars) = load_equity_csv("DANGCEM_historical.csv", content).unwrap();
    assert_eq!(symbol, "DANGCEM");
    assert_eq!(bars.len(), 2);
    assert_eq!(bars[0].date, d(2024, 2, 20));
    assert_eq!(bars[0].close, Decimal::new(4500, 2));
    assert_eq!(bars[0].open, Some(Decimal::new(4400, 2)));
    assert_eq!(bars[0].volume, Some(1_200_000));
    assert_eq!(bars[0].change_pct, Some(Decimal::new(209, 2)));
    assert_eq!(bars[1].date, d(2024, 2, 26));
    assert_eq!(bars[1].close, Decimal::new(4625, 2));
    assert_eq!(bars[1].volume, Some(345_000));
}

#[test]
fn test_load_equity_csv_no_symbol_is_error() {
    let content = "Date,Price\n2024-02-20,45.00\n";
    assert_eq!(load_equity_csv("_.csv", content).unwrap_err(), LoadError::NoSymbol);
}

#[test]
fn test_load_fx_csv() {
    let content = "Date,Price,Open,High,Low,Change %\n\
                   2024-02-20,1602.50,1600.00,1610.00,1595.00,+0.16%\n\
                   2024-02-21,N/A,1600.00,1610.00,1595.00,+0.00%\n";
    let (pair, rates) = load_fx_csv("USDNGN_historical.csv", content, Some("test-feed")).unwrap();
    assert_eq!(pair, "USDNGN");
    assert_eq!(rates.len(), 1);
    assert_eq!(rates[0].pair, "USDNGN");
    assert_eq!(rates[0].date, d(2024, 2, 20));
    assert_eq!(rates[0].close, Decimal::new(160250, 2));
    assert_eq!(rates[0].source.as_deref(), Some("test-feed"));
}

#[test]
fn test_load_tickers_csv() {
    let content = "symbol,name,sector,industry,exchange\n\
                   dangcem ,Dangote Cement,Industrial,Cement,Lagos\n\
                   ,No Symbol,,,\n\
                   zenith,Zenith Bank,Financial,,\n";
    let tickers = load_tickers_csv(content).unwrap();
    assert_eq!(tickers.len(), 2);
    assert_eq!(tickers[0].symbol, "DANGCEM");
    assert_eq!(tickers[0].name, "Dangote Cement");
    assert_eq!(tickers[0].sector.as_deref(), Some("Industrial"));
    assert_eq!(tickers[0].industry.as_deref(), Some("Cement"));
    assert_eq!(tickers[0].exchange.as_deref(), Some("Lagos"));
    assert_eq!(tickers[1].symbol, "ZENITH");
}

#[test]
fn test_load_equity_csv_flexible_rows() {
    // short rows leave fields absent rather than erroring
    let content = "Date,Price\n2024-02-20,45.00\n";
    let (_, bars) = load_equity_csv("GTCO.csv", content).unwrap();
    assert_eq!(bars.len(), 1);
    assert_eq!(bars[0].open, None);
    assert_eq!(bars[0].volume, None);
}
