//! The listing-site data source: URL building and the pagination decisions
//! of the ticker-list crawl.
//!
//! The crawl's decisions are pure and verified; callers fetch each page and
//! hand the extracted rows back.  Any conforming implementation of
//! [`MarketDataSource`] can feed the pipeline in its place.

use vstd::prelude::*;

use crate::cleaner::clean_ticker_rows;
use crate::cleaner::equity_row_models;
use crate::cleaner::spec_clean_tickers;
use crate::cleaner::strip_trailing;
use crate::cleaner::strip_trailing_chars;
use crate::cleaner::ticker_models;
use crate::config::ScraperConfig;
use crate::models::DailyBar;
use crate::models::RawEquityRow;
use crate::models::Ticker;
use crate::text::dec_digits;
use crate::text::lower_seq;
use crate::text::lower_char;
use crate::text::string_from_chars;
use crate::text::to_chars;
use crate::text::u64_to_chars;

verus! {

/// A fetch-level failure, terminal for its symbol or page.
#[derive(Debug, Clone)]
pub struct SourceError {
    pub message: String,
}

/// The capability a data source offers the pipeline: the full ticker list,
/// and recent bars for one symbol.  A scraper, a CSV loader or a test
/// double may all stand behind it.
pub trait MarketDataSource {
    /// The full ticker list.
    fn fetch_ticker_list(&mut self) -> Result<Vec<Ticker>, SourceError>;

    /// Recent daily bars for one symbol.
    fn fetch_recent_bars(&mut self, symbol: &str) -> Result<Vec<DailyBar>, SourceError>;
}

/// Pagination stops after this many listing pages, as a runaway-loop guard.
pub const MAX_LISTING_PAGES: u32 = 15;

/// The listing-site scraper: knows how to address the site's pages.
pub struct KwayisiScraper {
    base_url: String,
    config: ScraperConfig,
}

/// The base URL with any trailing slashes removed.
pub open spec fn spec_base_of(configured: Seq<char>) -> Seq<char> {
    strip_trailing(configured, '/')
}

/// The URL of a listing page: the base for page one, a ?page= query
/// otherwise.
pub open spec fn spec_listing_url(base: Seq<char>, page: u32) -> Seq<char> {
    if page <= 1 {
        base + seq!['/']
    } else {
        base + "/?page="@ + dec_digits(page as nat)
    }
}

/// The URL of a ticker's page: the lowercased symbol under the base.
pub open spec fn spec_ticker_url(base: Seq<char>, symbol: Seq<char>) -> Seq<char> {
    base + seq!['/'] + lower_seq(symbol) + ".html"@
}

impl KwayisiScraper {
    /// The scraper's base URL.
    pub closed spec fn spec_base_url(self) -> Seq<char> {
        self.base_url@
    }

    /// The scraper's configuration.
    pub closed spec fn spec_config(self) -> ScraperConfig {
        self.config
    }

    /// Build a scraper for a configuration; the configured base URL is
    /// stripped of trailing slashes.
    pub fn new(config: &ScraperConfig) -> (r: Result<KwayisiScraper, SourceError>)
        ensures
            match r {
                Ok(s) => s.spec_base_url() == spec_base_of(config.base_url@)
                    && s.spec_config() == *config,
                Err(_) => false,
            },
    {
        let cs = to_chars(config.base_url.as_str());
        let stripped = strip_trailing_chars(&cs, '/');
        Ok(
            KwayisiScraper {
                base_url: string_from_chars(&stripped),
                config: ScraperConfig {
                    base_url: config.base_url.clone(),
                    timeout_secs: config.timeout_secs,
                    request_delay_ms: config.request_delay_ms,
                    jitter_ms: config.jitter_ms,
                    max_retries: config.max_retries,
                    user_agent: config.user_agent.clone(),
                },
            },
        )
    }

    /// The URL of a listing index page.
    pub fn listing_url(&self, page: u32) -> (r: String)
        ensures
            r@ == spec_listing_url(self.spec_base_url(), page),
    {
        let mut u = self.base_url.clone();
        if page <= 1 {
            u.append("/");
            proof {
                reveal_strlit("/");
                assert(u@ =~= self.spec_base_url() + seq!['/']);
            }
            u
        } else {
            u.append("/?page=");
            let digits = u64_to_chars(page as u64);
            let ds = string_from_chars(&digits);
            u.append(ds.as_str());
            u
        }
    }

    /// The URL of a ticker's page.
    pub fn ticker_url(&self, symbol: &str) -> (r: String)
        ensures
            r@ == spec_ticker_url(self.spec_base_url(), symbol@),
    {
        let mut u = self.base_url.clone();
        u.append("/");
        let cs = to_chars(symbol);
        let mut low: Vec<char> = Vec::new();
        let mut i: usize = 0;
        while i < cs.len()
            invariant
                i <= cs@.len(),
                low@ == lower_seq(cs@.take(i as int)),
            decreases cs@.len() - i,
        {
            low.push(lower_char(cs[i]));
            i = i + 1;
            proof {
                assert(low@ =~= lower_seq(cs@.take(i as int)));
            }
        }
        proof {
            assert(cs@.take(cs@.len() as int) =~= cs@);
        }
        let ls = string_from_chars(&low);
        u.append(ls.as_str());
        u.append(".html");
        proof {
            reveal_strlit("/");
            assert(u@ =~= spec_ticker_url(self.spec_base_url(), symbol@));
        }
        u
    }
}

/// The state of the ticker-list crawl: which page comes next and what has
/// been collected.  Callers fetch the page this state asks for, extract its
/// raw rows, and hand them back with whether a next page was advertised.
pub struct ListingCrawl {
    page: u32,
    tickers: Vec<Ticker>,
    done: bool,
}

impl ListingCrawl {
    /// The next page to fetch.
    pub closed spec fn spec_page(self) -> u32 {
        self.page
    }

    /// The tickers collected so far.
    pub closed spec fn spec_tickers(self) -> Seq<crate::models::TickerModel> {
        ticker_models(self.tickers@)
    }

    /// Whether the crawl is over.
    pub closed spec fn spec_done(self) -> bool {
        self.done
    }

    /// Pages start at one.
    pub open spec fn wf(self) -> bool {
        1 <= self.spec_page() <= MAX_LISTING_PAGES + 1
    }

    /// A crawl about to fetch page one.
    pub fn begin() -> (c: ListingCrawl)
        ensures
            c.wf(),
            c.spec_page() == 1,
            c.spec_tickers().len() == 0,
            !c.spec_done(),
    {
        ListingCrawl { page: 1, tickers: Vec::new(), done: false }
    }

    /// The page to fetch next, while the crawl is not over.
    pub fn next_page(&self) -> (r: Option<u32>)
        ensures
            match r {
                Some(p) => !self.spec_done() && p == self.spec_page(),
                None => self.spec_done(),
            },
    {
        if self.done {
            None
        } else {
            Some(self.page)
        }
    }

    /// Digest one fetched listing page: an empty page ends the crawl;
    /// otherwise its rows are cleaned and collected, and the crawl goes on
    /// to the next page only if one was advertised and the page cap is not
    /// yet reached.
    pub fn on_page(&mut self, rows: Vec<RawEquityRow>, has_next: bool) -> (done: bool)
        requires
            old(self).wf(),
            !old(self).spec_done(),
        ensures
            final(self).wf(),
            done == final(self).spec_done(),
            rows@.len() == 0 ==> final(self).spec_done(),
            rows@.len() == 0 ==> final(self).spec_tickers() == old(self).spec_tickers(),
            rows@.len() == 0 ==> final(self).spec_page() == old(self).spec_page(),
            rows@.len() > 0 ==> exists|t: i64|
                final(self).spec_tickers() == old(self).spec_tickers()
                    + #[trigger] spec_clean_tickers(equity_row_models(rows@), t),
            rows@.len() > 0 && has_next && old(self).spec_page() < MAX_LISTING_PAGES
                ==> !final(self).spec_done() && final(self).spec_page() == old(self).spec_page()
                + 1,
            rows@.len() > 0 && (!has_next || old(self).spec_page() >= MAX_LISTING_PAGES)
                ==> final(self).spec_done(),
    {
        if rows.len() == 0 {
            self.done = true;
            return true;
        }
        let cleaned = clean_ticker_rows(rows);
        let ghost before = ticker_models(self.tickers@);
        let mut j: usize = 0;
        while j < cleaned.len()
            invariant
                j <= cleaned@.len(),
                ticker_models(self.tickers@) == before + ticker_models(cleaned@.take(j as int)),
                self.page == old(self).page,
                self.done == old(self).done,
            decreases cleaned@.len() - j,
        {
            let ghost prev = self.tickers@;
            let t = crate::storage::clone_ticker(&cleaned[j]);
            self.tickers.push(t);
            proof {
                assert(ticker_models(self.tickers@) =~= ticker_models(prev).push(
                    self.tickers@[prev.len() as int]@,
                ));
                assert(self.tickers@[prev.len() as int]@ == cleaned@[j as int]@);
                assert(ticker_models(cleaned@.take(j + 1)) =~= ticker_models(
                    cleaned@.take(j as int),
                ).push(cleaned@[j as int]@));
                assert(before + ticker_models(cleaned@.take(j + 1)) =~= (before + ticker_models(
                    cleaned@.take(j as int),
                )).push(cleaned@[j as int]@));
            }
            j = j + 1;
        }
        proof {
            assert(cleaned@.take(cleaned@.len() as int) =~= cleaned@);
            let t = choose|t: i64|
                ticker_models(cleaned@) == #[trigger] spec_clean_tickers(
                    equity_row_models(rows@),
                    t,
                );
            assert(ticker_models(self.tickers@) == before + spec_clean_tickers(
                equity_row_models(rows@),
                t,
            ));
        }
        if !has_next {
            self.done = true;
            return true;
        }
        if self.page >= MAX_LISTING_PAGES {
            self.done = true;
            return true;
        }
        self.page = self.page + 1;
        false
    }

    /// Hand out the tickers the crawl collected.
    pub fn into_tickers(self) -> (r: Vec<Ticker>)
        ensures
            ticker_models(r@) == self.spec_tickers(),
    {
        self.tickers
    }
}

/// The symbols of a list of tickers, in order.
pub fn symbols_of_tickers(tickers: &Vec<Ticker>) -> (r: Vec<String>)
    ensures
        r@.len() == tickers@.len(),
        forall|i: int| 0 <= i < r@.len() ==> #[trigger] r@[i]@ == tickers@[i]@.symbol,
{
    let mut out: Vec<String> = Vec::new();
    let mut i: usize = 0;
    while i < tickers.len()
        invariant
            i <= tickers@.len(),
            out@.len() == i,
            forall|p: int| 0 <= p < i ==> #[trigger] out@[p]@ == tickers@[p]@.symbol,
        decreases tickers@.len() - i,
    {
        out.push(tickers[i].symbol.clone());
        i = i + 1;
    }
    out
}

/// The ticker symbol list a source discovers, in the order the source
/// reports the tickers.
pub fn discover_all_symbols<S: MarketDataSource>(source: &mut S) -> (r: Result<
    Vec<String>,
    SourceError,
>) {
    let tickers = match source.fetch_ticker_list() {
        Ok(ts) => ts,
        Err(e) => {
            return Err(e);
        },
    };
    Ok(symbols_of_tickers(&tickers))
}

} // verus!
