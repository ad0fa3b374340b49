//! Domain types: exact decimal values, calendar dates, typed records, and
//! their ghost models used by contracts.

use vstd::prelude::*;

verus! {

/// An exact decimal number: `mantissa / 10^scale`.
///
/// Prices, rates and percentages are held in this form so that parsing and
/// comparison are exact.
#[derive(Clone, Copy, Debug, PartialEq, Eq, Structural)]
pub struct Decimal {
    pub mantissa: i64,
    pub scale: u32,
}

impl Decimal {
    /// The decimal with the given mantissa and scale.
    pub fn new(mantissa: i64, scale: u32) -> (r: Decimal)
        ensures
            r.mantissa == mantissa,
            r.scale == scale,
    {
        Decimal { mantissa, scale }
    }

    /// Strictly positive value.
    pub open spec fn spec_is_positive(self) -> bool {
        self.mantissa > 0
    }

    /// Whether the value is strictly positive (the sign of the mantissa).
    pub fn is_positive(&self) -> (r: bool)
        ensures
            r == self.spec_is_positive(),
    {
        self.mantissa > 0
    }
}

/// A calendar date.
#[derive(Clone, Copy, Debug, PartialEq, Eq, Structural)]
pub struct Date {
    pub year: i32,
    pub month: u8,
    pub day: u8,
}

/// Proleptic Gregorian leap-year rule.
pub open spec fn spec_is_leap_year(y: int) -> bool {
    y % 4 == 0 && (y % 100 != 0 || y % 400 == 0)
}

/// Number of days in a month of a year.
pub open spec fn spec_days_in_month(y: int, m: int) -> int {
    if m == 2 {
        if spec_is_leap_year(y) {
            29
        } else {
            28
        }
    } else if m == 4 || m == 6 || m == 9 || m == 11 {
        30
    } else {
        31
    }
}

/// A real calendar date with a four-digit year.
pub open spec fn date_valid(d: Date) -> bool {
    &&& 0 <= d.year <= 9999
    &&& 1 <= d.month <= 12
    &&& 1 <= d.day <= spec_days_in_month(d.year as int, d.month as int)
}

impl Date {
    /// Construct a date, checking calendar validity.  Returns the date
    /// exactly when year, month and day form a real calendar date with a
    /// four-digit year.
    pub fn from_ymd(year: i32, month: u8, day: u8) -> (r: Option<Date>)
        ensures
            match r {
                Some(d) => d == (Date { year, month, day }) && date_valid(d),
                None => !date_valid(Date { year, month, day }),
            },
    {
        let d = Date { year, month, day };
        if d.valid() {
            Some(d)
        } else {
            None
        }
    }

    /// Whether this is a real calendar date with a four-digit year.
    pub fn valid(&self) -> (r: bool)
        ensures
            r == date_valid(*self),
    {
        if !(0 <= self.year && self.year <= 9999) {
            return false;
        }
        if !(1 <= self.month && self.month <= 12) {
            return false;
        }
        let dim = days_in_month(self.year, self.month);
        1 <= self.day && self.day <= dim
    }

    /// Ordering on dates: year, then month, then day.
    pub open spec fn spec_le(self, other: Date) -> bool {
        if self.year != other.year {
            self.year < other.year
        } else if self.month != other.month {
            self.month < other.month
        } else {
            self.day <= other.day
        }
    }

    /// `self` is on or before `other`.
    pub fn le(&self, other: &Date) -> (r: bool)
        ensures
            r == self.spec_le(*other),
    {
        if self.year != other.year {
            self.year < other.year
        } else if self.month != other.month {
            self.month < other.month
        } else {
            self.day <= other.day
        }
    }
}

/// Number of days in a month of a year.
pub fn days_in_month(year: i32, month: u8) -> (r: u8)
    ensures
        r == spec_days_in_month(year as int, month as int),
{
    if month == 2 {
        if year % 4 == 0 && (year % 100 != 0 || year % 400 == 0) {
            29
        } else {
            28
        }
    } else if month == 4 || month == 6 || month == 9 || month == 11 {
        30
    } else {
        31
    }
}

/// View of an optional string as an optional character sequence.
pub open spec fn opt_str_view(o: Option<String>) -> Option<Seq<char>> {
    match o {
        Some(s) => Some(s@),
        None => None,
    }
}

// ── Typed records ───────────────────────────────────────────────────────────
/// Identifying metadata for a tradable instrument.
#[derive(Debug, Clone)]
pub struct Ticker {
    pub symbol: String,
    pub name: String,
    pub sector: Option<String>,
    pub industry: Option<String>,
    pub exchange: Option<String>,
    pub scraped_at: i64,
}

/// Ghost model of a [`Ticker`].
pub ghost struct TickerModel {
    pub symbol: Seq<char>,
    pub name: Seq<char>,
    pub sector: Option<Seq<char>>,
    pub industry: Option<Seq<char>>,
    pub exchange: Option<Seq<char>>,
    pub scraped_at: i64,
}

impl View for Ticker {
    type V = TickerModel;

    open spec fn view(&self) -> TickerModel {
        TickerModel {
            symbol: self.symbol@,
            name: self.name@,
            sector: opt_str_view(self.sector),
            industry: opt_str_view(self.industry),
            exchange: opt_str_view(self.exchange),
            scraped_at: self.scraped_at,
        }
    }
}

/// One day's price observation for an equity, keyed by (symbol, date).
#[derive(Debug, Clone)]
pub struct DailyBar {
    pub symbol: String,
    pub date: Date,
    pub open: Option<Decimal>,
    pub high: Option<Decimal>,
    pub low: Option<Decimal>,
    pub close: Decimal,
    pub change_pct: Option<Decimal>,
    pub volume: Option<i64>,
    pub scraped_at: i64,
}

/// Ghost model of a [`DailyBar`].
pub ghost struct BarModel {
    pub symbol: Seq<char>,
    pub date: Date,
    pub open: Option<Decimal>,
    pub high: Option<Decimal>,
    pub low: Option<Decimal>,
    pub close: Decimal,
    pub change_pct: Option<Decimal>,
    pub volume: Option<i64>,
    pub scraped_at: i64,
}

impl View for DailyBar {
    type V = BarModel;

    open spec fn view(&self) -> BarModel {
        BarModel {
            symbol: self.symbol@,
            date: self.date,
            open: self.open,
            high: self.high,
            low: self.low,
            close: self.close,
            change_pct: self.change_pct,
            volume: self.volume,
            scraped_at: self.scraped_at,
        }
    }
}

/// One day's foreign-exchange rate, keyed by (pair, date).
#[derive(Debug, Clone)]
pub struct FxRate {
    pub pair: String,
    pub date: Date,
    pub open: Option<Decimal>,
    pub high: Option<Decimal>,
    pub low: Option<Decimal>,
    pub close: Decimal,
    pub change_pct: Option<Decimal>,
    pub source: Option<String>,
    pub scraped_at: i64,
}

/// Ghost model of an [`FxRate`].
pub ghost struct FxModel {
    pub pair: Seq<char>,
    pub date: Date,
    pub open: Option<Decimal>,
    pub high: Option<Decimal>,
    pub low: Option<Decimal>,
    pub close: Decimal,
    pub change_pct: Option<Decimal>,
    pub source: Option<Seq<char>>,
    pub scraped_at: i64,
}

impl View for FxRate {
    type V = FxModel;

    open spec fn view(&self) -> FxModel {
        FxModel {
            pair: self.pair@,
            date: self.date,
            open: self.open,
            high: self.high,
            low: self.low,
            close: self.close,
            change_pct: self.change_pct,
            source: opt_str_view(self.source),
            scraped_at: self.scraped_at,
        }
    }
}

// ── Raw rows ────────────────────────────────────────────────────────────────
/// Equity price CSV row: Date, Price (close), Open, High, Low, Volume, Change%.
#[derive(Debug, Clone, Default)]
pub struct RawCsvRow {
    pub date: Option<String>,
    pub price: Option<String>,
    pub open: Option<String>,
    pub high: Option<String>,
    pub low: Option<String>,
    pub volume: Option<String>,
    pub change_pct: Option<String>,
}

/// FX rate CSV row: Date, Price, Open, High, Low, Change% (no volume).
#[derive(Debug, Clone, Default)]
pub struct RawFxCsvRow {
    pub date: Option<String>,
    pub price: Option<String>,
    pub open: Option<String>,
    pub high: Option<String>,
    pub low: Option<String>,
    pub change_pct: Option<String>,
}

/// Ticker metadata CSV row: symbol, name, sector, industry, exchange.
#[derive(Debug, Clone, Default)]
pub struct RawTickerRow {
    pub symbol: Option<String>,
    pub name: Option<String>,
    pub sector: Option<String>,
    pub industry: Option<String>,
    pub exchange: Option<String>,
}

/// A listing-page row as scraped, all values still raw strings.
#[derive(Debug, Clone, Default)]
pub struct RawEquityRow {
    pub symbol: Option<String>,
    pub name: Option<String>,
    pub price: Option<String>,
    pub change: Option<String>,
    pub change_pct: Option<String>,
    pub volume: Option<String>,
    pub deals: Option<String>,
    pub sector: Option<String>,
}

/// A price-history row as scraped, all values still raw strings.
#[derive(Debug, Clone, Default)]
pub struct RawHistoricalRow {
    pub date: Option<String>,
    pub open: Option<String>,
    pub high: Option<String>,
    pub low: Option<String>,
    pub close: Option<String>,
    pub change: Option<String>,
    pub volume: Option<String>,
    pub deals: Option<String>,
}

/// Ghost model of a [`RawCsvRow`].
pub ghost struct RawCsvRowModel {
    pub date: Option<Seq<char>>,
    pub price: Option<Seq<char>>,
    pub open: Option<Seq<char>>,
    pub high: Option<Seq<char>>,
    pub low: Option<Seq<char>>,
    pub volume: Option<Seq<char>>,
    pub change_pct: Option<Seq<char>>,
}

impl View for RawCsvRow {
    type V = RawCsvRowModel;

    open spec fn view(&self) -> RawCsvRowModel {
        RawCsvRowModel {
            date: opt_str_view(self.date),
            price: opt_str_view(self.price),
            open: opt_str_view(self.open),
            high: opt_str_view(self.high),
            low: opt_str_view(self.low),
            volume: opt_str_view(self.volume),
            change_pct: opt_str_view(self.change_pct),
        }
    }
}

/// Ghost model of a [`RawFxCsvRow`].
pub ghost struct RawFxCsvRowModel {
    pub date: Option<Seq<char>>,
    pub price: Option<Seq<char>>,
    pub open: Option<Seq<char>>,
    pub high: Option<Seq<char>>,
    pub low: Option<Seq<char>>,
    pub change_pct: Option<Seq<char>>,
}

impl View for RawFxCsvRow {
    type V = RawFxCsvRowModel;

    open spec fn view(&self) -> RawFxCsvRowModel {
        RawFxCsvRowModel {
            date: opt_str_view(self.date),
            price: opt_str_view(self.price),
            open: opt_str_view(self.open),
            high: opt_str_view(self.high),
            low: opt_str_view(self.low),
            change_pct: opt_str_view(self.change_pct),
        }
    }
}

/// Ghost model of a [`RawTickerRow`].
pub ghost struct RawTickerRowModel {
    pub symbol: Option<Seq<char>>,
    pub name: Option<Seq<char>>,
    pub sector: Option<Seq<char>>,
    pub industry: Option<Seq<char>>,
    pub exchange: Option<Seq<char>>,
}

impl View for RawTickerRow {
    type V = RawTickerRowModel;

    open spec fn view(&self) -> RawTickerRowModel {
        RawTickerRowModel {
            symbol: opt_str_view(self.symbol),
            name: opt_str_view(self.name),
            sector: opt_str_view(self.sector),
            industry: opt_str_view(self.industry),
            exchange: opt_str_view(self.exchange),
        }
    }
}

/// Ghost model of a [`RawEquityRow`].
pub ghost struct RawEquityRowModel {
    pub symbol: Option<Seq<char>>,
    pub name: Option<Seq<char>>,
    pub price: Option<Seq<char>>,
    pub change: Option<Seq<char>>,
    pub change_pct: Option<Seq<char>>,
    pub volume: Option<Seq<char>>,
    pub deals: Option<Seq<char>>,
    pub sector: Option<Seq<char>>,
}

impl View for RawEquityRow {
    type V = RawEquityRowModel;

    open spec fn view(&self) -> RawEquityRowModel {
        RawEquityRowModel {
            symbol: opt_str_view(self.symbol),
            name: opt_str_view(self.name),
            price: opt_str_view(self.price),
            change: opt_str_view(self.change),
            change_pct: opt_str_view(self.change_pct),
            volume: opt_str_view(self.volume),
            deals: opt_str_view(self.deals),
            sector: opt_str_view(self.sector),
        }
    }
}

/// Ghost model of a [`RawHistoricalRow`].
pub ghost struct RawHistoricalRowModel {
    pub date: Option<Seq<char>>,
    pub open: Option<Seq<char>>,
    pub high: Option<Seq<char>>,
    pub low: Option<Seq<char>>,
    pub close: Option<Seq<char>>,
    pub change: Option<Seq<char>>,
    pub volume: Option<Seq<char>>,
    pub deals: Option<Seq<char>>,
}

impl View for RawHistoricalRow {
    type V = RawHistoricalRowModel;

    open spec fn view(&self) -> RawHistoricalRowModel {
        RawHistoricalRowModel {
            date: opt_str_view(self.date),
            open: opt_str_view(self.open),
            high: opt_str_view(self.high),
            low: opt_str_view(self.low),
            close: opt_str_view(self.close),
            change: opt_str_view(self.change),
            volume: opt_str_view(self.volume),
            deals: opt_str_view(self.deals),
        }
    }
}

// ── Audit log ───────────────────────────────────────────────────────────────
/// Status of an ingestion run.
#[derive(Clone, Copy, Debug, PartialEq, Eq, Structural)]
pub enum RunStatus {
    Running,
    Success,
    Error,
}

/// Audit record for one ingestion run.
#[derive(Debug, Clone)]
pub struct ScrapeRun {
    pub id: i64,
    pub started_at: i64,
    pub finished_at: Option<i64>,
    pub status: RunStatus,
    pub tickers_processed: usize,
    pub bars_inserted: usize,
    pub error_msg: Option<String>,
}

/// Ghost model of a [`ScrapeRun`].
pub ghost struct RunModel {
    pub id: i64,
    pub started_at: i64,
    pub finished_at: Option<i64>,
    pub status: RunStatus,
    pub tickers_processed: usize,
    pub bars_inserted: usize,
    pub error_msg: Option<Seq<char>>,
}

impl View for ScrapeRun {
    type V = RunModel;

    open spec fn view(&self) -> RunModel {
        RunModel {
            id: self.id,
            started_at: self.started_at,
            finished_at: self.finished_at,
            status: self.status,
            tickers_processed: self.tickers_processed,
            bars_inserted: self.bars_inserted,
            error_msg: opt_str_view(self.error_msg),
        }
    }
}

} // verus!
