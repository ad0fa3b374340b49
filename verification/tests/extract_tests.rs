use ngx_etl::cleaner::clean_historical_rows;
use ngx_etl::cleaner::clean_ticker_rows;
use ngx_etl::extract::has_next_page;
use ngx_etl::extract::history_cells_positional;
use ngx_etl::extract::history_cells_to_rows;
use ngx_etl::extract::history_columns;
use ngx_etl::extract::has_history_signal;
use ngx_etl::extract::listing_cells_to_rows;
use ngx_etl::extract::looks_like_date;
use ngx_etl::extract::ticker_meta_from_page;
use ngx_etl::models::Date;
use ngx_etl::models::Decimal;

fn row(cells: &[&str]) -> Vec<String> {
    cells.iter().map(|c| c.to_string()).collect()
}

#[test]
fn test_has_next_page() {
    assert!(has_next_page("<a href=\"?page=2\">Next</a>"));
    assert!(has_next_page("go to the next page"));
    assert!(has_next_page("\u{203a}"));
    assert!(!has_next_page("<p>only one page</p>"));
    // a page query alone is not enough without a Next label
    assert!(!has_next_page("?page=2"));
}

#[test]
fn test_looks_like_date() {
    assert!(looks_like_date("2024-02-20"));
    assert!(looks_like_date("20/02/2024"));
    assert!(looks_like_date("Feb 20, 2024"));
    assert!(!looks_like_date("45.00"));
}

#[test]
fn test_listing_cells_to_rows() {
    let table = vec![
        row(&["dangcem", "Dangote Cement", "450.00", "+9.20", "+2.09%", "1.2M", "152"]),
        row(&["lonely"]),
        row(&["zenith", "Zenith Bank"]),
    ];
    let rows = listing_cells_to_rows(&table);
    assert_eq!(rows.len(), 2);
    assert_eq!(rows[0].symbol.as_deref(), Some("DANGCEM"));
    assert_eq!(rows[0].name.as_deref(), Some("Dangote Cement"));
    assert_eq!(rows[0].price.as_deref(), Some("450.00"));
    assert_eq!(rows[0].volume.as_deref(), Some("1.2M"));
    assert_eq!(rows[1].symbol.as_deref(), Some("ZENITH"));
    assert_eq!(rows[1].price, None);
    // the cleaned rows become tickers
    let tickers = clean_ticker_rows(rows);
    assert_eq!(tickers.len(), 2);
    assert_eq!(tickers[0].symbol, "DANGCEM");
    assert_eq!(tickers[0].name, "Dangote Cement");
}

#[test]
fn test_history_extraction_with_headers() {
    let headers = row(&["Date", "Price", "Chg", "Volume"]);
    assert!(has_history_signal(&headers));
    let cols = history_columns(&headers);
    assert_eq!(cols.date_idx, 0);
    assert_eq!(cols.close_idx, 1);
    assert_eq!(cols.change_idx, Some(2));
    assert_eq!(cols.vol_idx, Some(3));
    let table = vec![
        row(&["2024-02-20", "45.00", "+0.50", "1.2M"]),
        row(&["", "", "", ""]),
        row(&["2024-02-21", "0", "0", "1K"]),
    ];
    let rows = history_cells_to_rows(&table, &cols);
    assert_eq!(rows.len(), 2);
    assert_eq!(rows[0].date.as_deref(), Some("2024-02-20"));
    assert_eq!(rows[0].close.as_deref(), Some("45.00"));
    assert_eq!(rows[0].volume.as_deref(), Some("1.2M"));
    // cleaning drops the zero-close row and parses the rest
    let bars = clean_historical_rows("dangcem", rows);
    assert_eq!(bars.len(), 1);
    assert_eq!(bars[0].symbol, "DANGCEM");
    assert_eq!(bars[0].date, Date::from_ymd(2024, 2, 20).unwrap());
    assert_eq!(bars[0].close, Decimal::new(4500, 2));
    assert_eq!(bars[0].volume, Some(1_200_000));
}

#[test]
fn test_history_headers_reordered() {
    // column positions come from the header text, not fixed positions
    let headers = row(&["Close", "Deals", "Date"]);
    let cols = history_columns(&headers);
    assert_eq!(cols.close_idx, 0);
    assert_eq!(cols.deals_idx, Some(1));
    assert_eq!(cols.date_idx, 2);
    assert_eq!(cols.change_idx, None);
    assert!(!has_history_signal(&row(&["Foo", "Bar"])));
}

#[test]
fn test_history_positional_fallback() {
    let table = vec![
        row(&["2024-02-20", "44.00", "46.00", "43.50", "45.00", "+0.50", "1.2M"]),
        row(&["45.00", "46.00"]),
        row(&["note"]),
    ];
    let rows = history_cells_positional(&table);
    // only the row whose first cell looks like a date survives
    assert_eq!(rows.len(), 1);
    assert_eq!(rows[0].date.as_deref(), Some("2024-02-20"));
    assert_eq!(rows[0].open.as_deref(), Some("44.00"));
    assert_eq!(rows[0].close.as_deref(), Some("45.00"));
    assert_eq!(rows[0].volume.as_deref(), Some("1.2M"));
}

#[test]
fn test_ticker_meta_from_page() {
    let headings = vec![
        "  ".to_string(),
        "Kwayisi NGX".to_string(),
        " Dangote Cement Plc ".to_string(),
    ];
    let pairs = vec![
        ("ISIN Code".to_string(), " NGDANGCEM008 ".to_string()),
        ("Sector".to_string(), "Industrial Goods".to_string()),
        ("Market Segment".to_string(), "Main Board".to_string()),
        ("Listed".to_string(), "2010".to_string()),
        ("Industry".to_string(), "Cement".to_string()),
    ];
    let meta = ticker_meta_from_page(&headings, &pairs);
    // the first usable heading wins; the site's own name is skipped
    assert_eq!(meta.name.as_deref(), Some("Dangote Cement Plc"));
    assert_eq!(meta.isin.as_deref(), Some("NGDANGCEM008"));
    // a later industry pair overwrites the earlier sector
    assert_eq!(meta.sector.as_deref(), Some("Cement"));
    assert_eq!(meta.board.as_deref(), Some("Main Board"));
    // unmatched keys contribute nothing
    let empty = ticker_meta_from_page(&Vec::new(), &Vec::new());
    assert_eq!(empty.name, None);
    assert_eq!(empty.isin, None);
}
