use ngx_etl::models::DailyBar;
use ngx_etl::models::Date;
use ngx_etl::models::Decimal;
use ngx_etl::models::FxRate;
use ngx_etl::models::RunStatus;
use ngx_etl::models::Ticker;
use ngx_etl::storage::Repository;

fn d(y: i32, m: u8, day: u8) -> Date {
    Date::from_ymd(y, m, day).unwrap()
}

fn bar(symbol: &str, date: Date, close: i64, open: Option<i64>) -> DailyBar {
    DailyBar {
        symbol: symbol.to_string(),
        date,
        open: open.map(|v| Decimal::new(v, 2)),
        high: None,
        low: None,
        close: Decimal::new(close, 2),
        change_pct: None,
        volume: Some(1000),
        scraped_at: 42,
    }
}

fn fx(pair: &str, date: Date, close: i64) -> FxRate {
    FxRate {
        pair: pair.to_string(),
        date,
        open: None,
        high: None,
        low: None,
        close: Decimal::new(close, 2),
        change_pct: None,
        source: Some("test-feed".to_string()),
        scraped_at: 42,
    }
}

fn ticker(symbol: &str, name: &str, sector: Option<&str>) -> Ticker {
    Ticker {
        symbol: symbol.to_string(),
        name: name.to_string(),
        sector: sector.map(|s| s.to_string()),
        industry: None,
        exchange: None,
        scraped_at: 42,
    }
}

#[test]
fn test_upsert_bars_idempotent() {
    let mut repo = Repository::open_in_memory().unwrap();
    repo.run_migrations().unwrap();
    let batch = vec![
        bar("DANGCEM", d(2024, 2, 20), 45000, Some(44000)),
        bar("DANGCEM", d(2024, 2, 21), 45500, None),
        bar("ZENITH", d(2024, 2, 20), 3500, Some(3400)),
    ];
    assert_eq!(repo.upsert_daily_bars(&batch).unwrap(), 3);
    let count_once = repo.bar_count().unwrap();
    let b_once = repo.get_bar("DANGCEM", d(2024, 2, 20)).unwrap();
    // the same batch again: row count and field values unchanged
    assert_eq!(repo.upsert_daily_bars(&batch).unwrap(), 3);
    assert_eq!(repo.bar_count().unwrap(), count_once);
    assert_eq!(count_once, 3);
    let b_twice = repo.get_bar("DANGCEM", d(2024, 2, 20)).unwrap();
    assert_eq!(b_once.close, b_twice.close);
    assert_eq!(b_once.open, b_twice.open);
    assert_eq!(b_once.volume, b_twice.volume);
    assert_eq!(b_once.scraped_at, b_twice.scraped_at);
}

#[test]
fn test_upsert_fx_idempotent() {
    let mut repo = Repository::open_in_memory().unwrap();
    let batch = vec![fx("USDNGN", d(2024, 2, 20), 160000), fx("EURNGN", d(2024, 2, 20), 175000)];
    assert_eq!(repo.upsert_fx_rates(&batch).unwrap(), 2);
    assert_eq!(repo.upsert_fx_rates(&batch).unwrap(), 2);
    assert_eq!(repo.fx_count().unwrap(), 2);
    let r = repo.get_fx("USDNGN", d(2024, 2, 20)).unwrap();
    assert_eq!(r.close, Decimal::new(160000, 2));
    assert_eq!(r.source.as_deref(), Some("test-feed"));
}

#[test]
fn test_merge_preserves_known_fields() {
    let mut repo = Repository::open_in_memory().unwrap();
    // first a bar with full open/close
    let full = bar("GTCO", d(2024, 2, 20), 4000, Some(3900));
    repo.upsert_daily_bars(&vec![full]).unwrap();
    // then one with only a new close: open must survive, close must change
    let mut close_only = bar("GTCO", d(2024, 2, 20), 4100, None);
    close_only.volume = None;
    close_only.scraped_at = 43;
    repo.upsert_daily_bars(&vec![close_only]).unwrap();
    assert_eq!(repo.bar_count().unwrap(), 1);
    let merged = repo.get_bar("GTCO", d(2024, 2, 20)).unwrap();
    assert_eq!(merged.open, Some(Decimal::new(3900, 2)));
    assert_eq!(merged.close, Decimal::new(4100, 2));
    assert_eq!(merged.volume, Some(1000));
    assert_eq!(merged.scraped_at, 43);
}

#[test]
fn test_upsert_tickers_merges_classification() {
    let mut repo = Repository::open_in_memory().unwrap();
    repo.upsert_tickers(&vec![ticker("MTNN", "MTN Nigeria", Some("Telecoms"))]).unwrap();
    // a refresh without a sector keeps the known one; the name is overwritten
    repo.upsert_tickers(&vec![ticker("MTNN", "MTN Nigeria Plc", None)]).unwrap();
    assert_eq!(repo.ticker_count().unwrap(), 1);
    let t = repo.get_ticker("MTNN").unwrap();
    assert_eq!(t.name, "MTN Nigeria Plc");
    assert_eq!(t.sector.as_deref(), Some("Telecoms"));
}

#[test]
fn test_list_symbols_sorted() {
    let mut repo = Repository::open_in_memory().unwrap();
    repo.upsert_tickers(&vec![
        ticker("ZENITH", "Zenith Bank", None),
        ticker("ACCESS", "Access Holdings", None),
        ticker("MTNN", "MTN Nigeria", None),
    ])
        .unwrap();
    let symbols = repo.list_symbols().unwrap();
    assert_eq!(symbols, vec!["ACCESS".to_string(), "MTNN".to_string(), "ZENITH".to_string()]);
}

#[test]
fn test_date_ranges_and_latest() {
    let mut repo = Repository::open_in_memory().unwrap();
    assert_eq!(repo.date_range().unwrap(), (None, None));
    repo.upsert_daily_bars(&vec![
        bar("A", d(2024, 1, 5), 100, None),
        bar("A", d(2024, 3, 1), 110, None),
        bar("B", d(2024, 2, 10), 200, None),
    ])
        .unwrap();
    assert_eq!(repo.date_range().unwrap(), (Some(d(2024, 1, 5)), Some(d(2024, 3, 1))));
    assert_eq!(repo.latest_date_for_symbol("A").unwrap(), Some(d(2024, 3, 1)));
    assert_eq!(repo.latest_date_for_symbol("B").unwrap(), Some(d(2024, 2, 10)));
    assert_eq!(repo.latest_date_for_symbol("C").unwrap(), None);
    repo.upsert_fx_rates(&vec![fx("USDNGN", d(2024, 2, 20), 160000)]).unwrap();
    assert_eq!(repo.fx_date_range().unwrap(), (Some(d(2024, 2, 20)), Some(d(2024, 2, 20))));
}

#[test]
fn test_scrape_run_lifecycle() {
    let mut repo = Repository::open_in_memory().unwrap();
    let id = repo.begin_scrape_run().unwrap();
    assert_eq!(id, 1);
    let open_run = repo.get_run(id).unwrap();
    assert_eq!(open_run.status, RunStatus::Running);
    assert!(open_run.finished_at.is_none());
    repo.finish_scrape_run(id, 10, 250, None).unwrap();
    let done = repo.get_run(id).unwrap();
    assert_eq!(done.status, RunStatus::Success);
    assert_eq!(done.tickers_processed, 10);
    assert_eq!(done.bars_inserted, 250);
    assert!(done.finished_at.is_some());
    // a second run, finished with errors
    let id2 = repo.begin_scrape_run().unwrap();
    assert_eq!(id2, 2);
    repo.finish_scrape_run(id2, 5, 40, Some("2 errors")).unwrap();
    let failed = repo.get_run(id2).unwrap();
    assert_eq!(failed.status, RunStatus::Error);
    assert_eq!(failed.error_msg.as_deref(), Some("2 errors"));
    // the null identifier is a no-op
    repo.finish_scrape_run(0, 1, 1, None).unwrap();
    assert_eq!(repo.get_run(1).unwrap().tickers_processed, 10);
}

#[test]
fn test_migrations_idempotent() {
    let mut repo = Repository::open_in_memory().unwrap();
    assert_eq!(repo.schema_version(), 0);
    repo.run_migrations().unwrap();
    assert_eq!(repo.schema_version(), 1);
    repo.upsert_tickers(&vec![ticker("A", "A", None)]).unwrap();
    repo.run_migrations().unwrap();
    assert_eq!(repo.schema_version(), 1);
    assert_eq!(repo.ticker_count().unwrap(), 1);
}
