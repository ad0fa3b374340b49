//! Process-wide configuration, passed as an explicit immutable value into
//! each component so that tests can inject deterministic settings.

use vstd::prelude::*;

verus! {

/// Scraper settings: where to fetch from and how politely.
#[derive(Debug, Clone)]
pub struct ScraperConfig {
    pub base_url: String,
    pub timeout_secs: u64,
    pub request_delay_ms: u64,
    pub jitter_ms: u64,
    pub max_retries: u32,
    pub user_agent: String,
}

/// Storage settings.
#[derive(Debug, Clone)]
pub struct StorageConfig {
    pub db_path: String,
    pub run_migrations: bool,
}

/// Pipeline settings.
#[derive(Debug, Clone)]
pub struct PipelineConfig {
    pub backfill: bool,
    pub concurrency: usize,
    pub skip_up_to_date: bool,
}

/// Top-level application configuration.
#[derive(Debug, Clone)]
pub struct AppConfig {
    pub scraper: ScraperConfig,
    pub storage: StorageConfig,
    pub pipeline: PipelineConfig,
}

/// Default listing base URL.
pub fn default_base_url() -> (r: String)
    ensures
        r@ == "https://afx.kwayisi.org/ngx"@,
{
    String::from_str("https://afx.kwayisi.org/ngx")
}

/// Default per-request timeout, in seconds.
pub fn default_timeout_secs() -> (r: u64)
    ensures
        r == 30,
{
    30
}

/// Default pacing delay before each request, in milliseconds.
pub fn default_request_delay_ms() -> (r: u64)
    ensures
        r == 1500,
{
    1500
}

/// Default upper bound on the random pacing jitter, in milliseconds.
pub fn default_jitter_ms() -> (r: u64)
    ensures
        r == 500,
{
    500
}

/// Default number of retries after a transient failure.
pub fn default_max_retries() -> (r: u32)
    ensures
        r == 3,
{
    3
}

/// Default user agent sent with each request.
pub fn default_user_agent() -> (r: String)
    ensures
        r@ == "ngx-trading-engine/0.1 (research project; full pipleine quantitative research)"@,
{
    String::from_str("ngx-trading-engine/0.1 (research project; full pipleine quantitative research)")
}

/// Default store path.
pub fn default_db_path() -> (r: String)
    ensures
        r@ == "data/ngx.duckdb"@,
{
    String::from_str("data/ngx.duckdb")
}

/// Default for settings that are on unless switched off.
pub fn default_true() -> (r: bool)
    ensures
        r,
{
    true
}

/// Default bound on concurrently running fetch tasks.
pub fn default_concurrency() -> (r: usize)
    ensures
        r == 3,
{
    3
}

impl Default for AppConfig {
    /// The configuration used when nothing overrides it: the defaults
    /// above, backfill off, migrations on.
    fn default() -> (c: AppConfig)
        ensures
            c.scraper.base_url@ == "https://afx.kwayisi.org/ngx"@,
            c.scraper.timeout_secs == 30,
            c.scraper.request_delay_ms == 1500,
            c.scraper.jitter_ms == 500,
            c.scraper.max_retries == 3,
            c.storage.db_path@ == "data/ngx.duckdb"@,
            c.storage.run_migrations,
            !c.pipeline.backfill,
            c.pipeline.concurrency == 3,
            c.pipeline.skip_up_to_date,
    {
        AppConfig {
            scraper: ScraperConfig {
                base_url: default_base_url(),
                timeout_secs: default_timeout_secs(),
                request_delay_ms: default_request_delay_ms(),
                jitter_ms: default_jitter_ms(),
                max_retries: default_max_retries(),
                user_agent: default_user_agent(),
            },
            storage: StorageConfig { db_path: default_db_path(), run_migrations: true },
            pipeline: PipelineConfig { backfill: false, concurrency: default_concurrency(), skip_up_to_date: true },
        }
    }
}

} // verus!
