use ngx_etl::config::AppConfig;
use ngx_etl::models::DailyBar;
use ngx_etl::models::Date;
use ngx_etl::models::Decimal;
use ngx_etl::models::RunStatus;
use ngx_etl::models::Ticker;
use ngx_etl::pipeline::FetchScheduler;
use ngx_etl::pipeline::Pipeline;
use ngx_etl::pipeline::TaskOutcome;
use ngx_etl::pipeline::aggregate_outcomes;
use ngx_etl::scraper::MarketDataSource;
use ngx_etl::scraper::SourceError;
use ngx_etl::scraper::discover_all_symbols;
use ngx_etl::storage::Repository;

fn d(y: i32, m: u8, day: u8) -> Date {
    Date::from_ymd(y, m, day).unwrap()
}

fn ticker(symbol: &str) -> Ticker {
    Ticker {
        symbol: symbol.to_string(),
        name: symbol.to_string(),
        sector: None,
        industry: None,
        exchange: None,
        scraped_at: 1,
    }
}

fn bar(symbol: &str, date: Date) -> DailyBar {
    DailyBar {
        symbol: symbol.to_string(),
        date,
        open: None,
        high: None,
        low: None,
        close: Decimal::new(100, 0),
        change_pct: None,
        volume: None,
        scraped_at: 1,
    }
}

/// A canned data source: a fixed ticker list, two bars per symbol, and a
/// set of symbols whose fetch fails.
struct ScriptedSource {
    symbols: Vec<&'static str>,
    failing: Vec<&'static str>,
}

impl MarketDataSource for ScriptedSource {
    fn fetch_ticker_list(&mut self) -> Result<Vec<Ticker>, SourceError> {
        Ok(self.symbols.iter().map(|s| ticker(s)).collect())
    }

    fn fetch_recent_bars(&mut self, symbol: &str) -> Result<Vec<DailyBar>, SourceError> {
        if self.failing.iter().any(|f| *f == symbol) {
            Err(SourceError { message: format!("boom: {}", symbol) })
        } else {
            Ok(vec![bar(symbol, d(2024, 2, 20)), bar(symbol, d(2024, 2, 21))])
        }
    }
}

struct BrokenSource;

impl MarketDataSource for BrokenSource {
    fn fetch_ticker_list(&mut self) -> Result<Vec<Ticker>, SourceError> {
        Err(SourceError { message: "listing down".to_string() })
    }

    fn fetch_recent_bars(&mut self, _symbol: &str) -> Result<Vec<DailyBar>, SourceError> {
        Err(SourceError { message: "down".to_string() })
    }
}

#[test]
fn test_scheduler_concurrency_bound() {
    let symbols: Vec<String> =
        vec!["A".to_string(), "B".to_string(), "C".to_string(), "D".to_string(), "E".to_string()];
    let mut sched = FetchScheduler::new(symbols, 2);
    // two grants fill the bound
    let first = sched.try_launch().unwrap();
    let second = sched.try_launch().unwrap();
    assert_eq!(first, "A");
    assert_eq!(second, "B");
    // a third task may not start while two are in flight
    assert!(sched.try_launch().is_none());
    sched.task_finished();
    let third = sched.try_launch().unwrap();
    assert_eq!(third, "C");
    assert!(sched.try_launch().is_none());
    sched.task_finished();
    sched.task_finished();
    assert_eq!(sched.try_launch().unwrap(), "D");
    assert_eq!(sched.try_launch().unwrap(), "E");
    assert!(sched.try_launch().is_none());
    assert!(!sched.all_done());
    sched.task_finished();
    sched.task_finished();
    assert!(sched.all_done());
}

#[test]
fn test_aggregate_outcomes() {
    let outcomes = vec![
        TaskOutcome::Completed(10),
        TaskOutcome::Failed,
        TaskOutcome::Completed(5),
        TaskOutcome::Failed,
        TaskOutcome::Completed(0),
    ];
    let (bars, errors) = aggregate_outcomes(&outcomes);
    assert_eq!(bars, 15);
    assert_eq!(errors, 2);
}

#[test]
fn test_partial_failure_run() {
    // 2 of 5 symbols fail to fetch: the run completes, reports 5 tickers,
    // 3 successful symbols' bars, and 2 errors
    let mut source =
        ScriptedSource { symbols: vec!["A", "B", "C", "D", "E"], failing: vec!["B", "D"] };
    let mut repo = Repository::open_in_memory().unwrap();
    let pipeline = Pipeline::new(AppConfig::default());
    let stats = pipeline.run(&mut source, &mut repo).unwrap();
    assert_eq!(stats.tickers_processed, 5);
    assert_eq!(stats.errors, 2);
    assert_eq!(stats.bars_inserted, 6);
    assert_eq!(repo.ticker_count().unwrap(), 5);
    assert_eq!(repo.bar_count().unwrap(), 6);
    // the audit record reflects the partial failure
    let run = repo.get_run(1).unwrap();
    assert_eq!(run.status, RunStatus::Error);
    assert_eq!(run.tickers_processed, 5);
    assert_eq!(run.bars_inserted, 6);
    assert_eq!(run.error_msg.as_deref(), Some("2 errors"));
}

#[test]
fn test_clean_run_is_success() {
    let mut source = ScriptedSource { symbols: vec!["A", "B"], failing: vec![] };
    let mut repo = Repository::open_in_memory().unwrap();
    let pipeline = Pipeline::new(AppConfig::default());
    let stats = pipeline.run(&mut source, &mut repo).unwrap();
    assert_eq!(stats.errors, 0);
    assert_eq!(stats.bars_inserted, 4);
    assert_eq!(repo.get_run(1).unwrap().status, RunStatus::Success);
    // re-running the same data leaves the store unchanged but adds a run
    let stats2 = pipeline.run(&mut source, &mut repo).unwrap();
    assert_eq!(stats2.errors, 0);
    assert_eq!(repo.bar_count().unwrap(), 4);
    assert_eq!(repo.get_run(2).unwrap().status, RunStatus::Success);
}

#[test]
fn test_failed_listing_aborts_with_open_run() {
    let mut source = BrokenSource;
    let mut repo = Repository::open_in_memory().unwrap();
    let pipeline = Pipeline::new(AppConfig::default());
    assert!(pipeline.run(&mut source, &mut repo).is_err());
    // the audit record stays open
    assert_eq!(repo.get_run(1).unwrap().status, RunStatus::Running);
}

#[test]
fn test_discover_all_symbols() {
    let mut source = ScriptedSource { symbols: vec!["ZENITH", "ACCESS"], failing: vec![] };
    let symbols = discover_all_symbols(&mut source).unwrap();
    assert_eq!(symbols, vec!["ZENITH".to_string(), "ACCESS".to_string()]);
    let mut broken = BrokenSource;
    assert!(discover_all_symbols(&mut broken).is_err());
}
