//! Ingestion and normalization library for daily market data.
//!
//! Raw string input (CSV rows, scraped table cells) is cleaned into typed
//! records, which are persisted idempotently into a store keyed by
//! (symbol, date) with field-by-field merge semantics.

pub mod cleaner;
pub mod clock;
pub mod config;
pub mod dates;
pub mod extract;
pub mod fetch;
pub mod loader;
pub mod models;
pub mod pipeline;
pub mod scraper;
pub mod storage;
pub mod text;
pub mod utils;
