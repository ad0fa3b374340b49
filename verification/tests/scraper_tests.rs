use ngx_etl::cleaner::normalise_pair;
use ngx_etl::cleaner::parse_volume_shorthand;
use ngx_etl::models::RawEquityRow;
use ngx_etl::scraper::ListingCrawl;
use ngx_etl::scraper::MAX_LISTING_PAGES;

fn listing_row(symbol: &str) -> RawEquityRow {
    RawEquityRow {
        symbol: Some(symbol.to_string()),
        name: Some(symbol.to_string()),
        ..Default::default()
    }
}

#[test]
fn test_listing_crawl_collects_pages() {
    let mut crawl = ListingCrawl::begin();
    assert_eq!(crawl.next_page(), Some(1));
    let done = crawl.on_page(vec![listing_row("aaa"), listing_row("bbb")], true);
    assert!(!done);
    assert_eq!(crawl.next_page(), Some(2));
    let done = crawl.on_page(vec![listing_row("ccc")], false);
    assert!(done);
    assert_eq!(crawl.next_page(), None);
    let tickers = crawl.into_tickers();
    let symbols: Vec<&str> = tickers.iter().map(|t| t.symbol.as_str()).collect();
    assert_eq!(symbols, vec!["AAA", "BBB", "CCC"]);
}

#[test]
fn test_listing_crawl_stops_on_empty_page() {
    let mut crawl = ListingCrawl::begin();
    let done = crawl.on_page(Vec::new(), true);
    assert!(done);
    assert!(crawl.into_tickers().is_empty());
}

#[test]
fn test_listing_crawl_page_cap() {
    // a site that always advertises a next page stops at the cap
    let mut crawl = ListingCrawl::begin();
    let mut pages = 0u32;
    while let Some(_p) = crawl.next_page() {
        pages += 1;
        crawl.on_page(vec![listing_row("x")], true);
    }
    assert_eq!(pages, MAX_LISTING_PAGES);
}

#[test]
fn test_normalise_pair_idempotent_concrete() {
    let once = normalise_pair("usd / ngn");
    let twice = normalise_pair(&once);
    assert_eq!(once, "USDNGN");
    assert_eq!(twice, once);
}

#[test]
fn test_volume_em_dash_absent() {
    assert_eq!(parse_volume_shorthand("\u{2014}"), None);
}
