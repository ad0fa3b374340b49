use ngx_etl::config::AppConfig;
use ngx_etl::config::ScraperConfig;
use ngx_etl::fetch::AttemptOutcome;
use ngx_etl::fetch::FetchState;
use ngx_etl::fetch::FetchStep;
use ngx_etl::fetch::network_backoff;
use ngx_etl::fetch::pre_request_delay_ms;
use ngx_etl::fetch::transient_backoff;
use ngx_etl::scraper::KwayisiScraper;
use ngx_etl::utils::Timer;
use ngx_etl::utils::fmt_number;

fn test_config() -> ScraperConfig {
    ScraperConfig {
        base_url: "https://example.test/ngx/".to_string(),
        timeout_secs: 30,
        request_delay_ms: 100,
        jitter_ms: 50,
        max_retries: 2,
        user_agent: "test".to_string(),
    }
}

#[test]
fn test_fmt_number() {
    assert_eq!(fmt_number(1_234_567), "1,234,567");
    assert_eq!(fmt_number(0), "0");
    assert_eq!(fmt_number(-42_000), "-42,000");
    assert_eq!(fmt_number(999), "999");
}

#[test]
fn test_backoff_growth() {
    // transient backoff grows exponentially with the attempt number
    assert_eq!(transient_backoff(100, 1), 200);
    assert_eq!(transient_backoff(100, 2), 400);
    assert_eq!(transient_backoff(100, 3), 800);
    // network backoff grows linearly
    assert_eq!(network_backoff(100, 1), 100);
    assert_eq!(network_backoff(100, 2), 200);
    assert_eq!(network_backoff(100, 3), 300);
    // huge inputs cap instead of overflowing
    assert_eq!(transient_backoff(u64::MAX, 70), u64::MAX);
    assert_eq!(network_backoff(u64::MAX, 2), u64::MAX);
}

#[test]
fn test_pre_request_delay() {
    let cfg = test_config();
    assert_eq!(pre_request_delay_ms(&cfg, 0), 100);
    assert_eq!(pre_request_delay_ms(&cfg, 50), 150);
}

#[test]
fn test_retry_policy_transient_then_success() {
    let cfg = test_config();
    let mut st = FetchState::begin(&cfg);
    assert_eq!(st.decide(AttemptOutcome::HttpStatus(429)), FetchStep::RetryAfter(200));
    assert_eq!(st.decide(AttemptOutcome::HttpStatus(503)), FetchStep::RetryAfter(400));
    assert_eq!(st.decide(AttemptOutcome::HttpStatus(200)), FetchStep::Deliver);
}

#[test]
fn test_retry_policy_exhaustion() {
    let cfg = test_config();
    let mut st = FetchState::begin(&cfg);
    assert_eq!(st.decide(AttemptOutcome::NetworkError), FetchStep::RetryAfter(100));
    assert_eq!(st.decide(AttemptOutcome::NetworkError), FetchStep::RetryAfter(200));
    // max_retries is 2: the third failure is terminal
    assert_eq!(st.decide(AttemptOutcome::NetworkError), FetchStep::Fail);
}

#[test]
fn test_retry_policy_terminal_status() {
    let cfg = test_config();
    let mut st = FetchState::begin(&cfg);
    // a plain 404 is terminal at once, no retry
    assert_eq!(st.decide(AttemptOutcome::HttpStatus(404)), FetchStep::Fail);
}

#[test]
fn test_urls() {
    let cfg = test_config();
    let scraper = KwayisiScraper::new(&cfg).unwrap();
    assert_eq!(scraper.listing_url(1), "https://example.test/ngx/");
    assert_eq!(scraper.listing_url(2), "https://example.test/ngx/?page=2");
    assert_eq!(scraper.listing_url(12), "https://example.test/ngx/?page=12");
    assert_eq!(scraper.ticker_url("DANGCEM"), "https://example.test/ngx/dangcem.html");
}

#[test]
fn test_config_defaults() {
    let cfg = AppConfig::default();
    assert_eq!(cfg.scraper.base_url, "https://afx.kwayisi.org/ngx");
    assert_eq!(cfg.scraper.timeout_secs, 30);
    assert_eq!(cfg.scraper.request_delay_ms, 1500);
    assert_eq!(cfg.scraper.jitter_ms, 500);
    assert_eq!(cfg.scraper.max_retries, 3);
    assert_eq!(cfg.storage.db_path, "data/ngx.duckdb");
    assert!(cfg.storage.run_migrations);
    assert!(!cfg.pipeline.backfill);
    assert_eq!(cfg.pipeline.concurrency, 3);
    assert!(cfg.pipeline.skip_up_to_date);
}

#[test]
fn test_timer_runs() {
    let t = Timer::start("unit test");
    assert_eq!(t.label(), "unit test");
    let _elapsed = t.elapsed();
}
