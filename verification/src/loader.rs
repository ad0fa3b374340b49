//! CSV loading: a document held in memory becomes typed records.
//!
//! Callers read the file and hand its text in; the symbol or FX pair comes
//! from the file's name (the text before the first '_', ' ' or '.').  Rows
//! that do not convert are dropped; a file name that yields no symbol is a
//! load error for that file.

use vstd::prelude::*;

use crate::cleaner::bar_models;
use crate::cleaner::csv_row_to_bar;
use crate::cleaner::fx_csv_row_to_rate;
use crate::cleaner::spec_csv_row_to_bar;
use crate::cleaner::spec_fx_csv_row_to_rate;
use crate::cleaner::spec_ticker_row_to_ticker;
use crate::cleaner::ticker_models;
use crate::cleaner::ticker_row_to_ticker;
use crate::models::BarModel;
use crate::models::DailyBar;
use crate::models::FxModel;
use crate::models::FxRate;
use crate::models::RawCsvRow;
use crate::models::RawCsvRowModel;
use crate::models::RawFxCsvRow;
use crate::models::RawFxCsvRowModel;
use crate::models::RawTickerRow;
use crate::models::RawTickerRowModel;
use crate::models::Ticker;
use crate::storage::fx_models;
use crate::text::to_chars;
use crate::text::trim_chars;
use crate::text::trim_seq;
use crate::text::upper_chars;
use crate::text::upper_seq;

verus! {

/// A per-file load failure.
#[derive(Clone, Copy, Debug, PartialEq, Eq, Structural)]
pub enum LoadError {
    /// The file name yields no symbol.
    NoSymbol,
}

/// Characters that end the symbol part of a file name.
pub open spec fn is_name_sep(c: char) -> bool {
    c == '_' || c == ' ' || c == '.'
}

/// The file name up to its first separator.
pub open spec fn name_prefix(s: Seq<char>) -> Seq<char>
    decreases s.len(),
{
    if s.len() == 0 || is_name_sep(s[0]) {
        Seq::empty()
    } else {
        seq![s[0]] + name_prefix(s.drop_first())
    }
}

/// What symbol extraction yields: the file name up to the first '_', ' '
/// or '.', trimmed and uppercased; absence if that is empty.
pub open spec fn spec_extract_symbol(name: Seq<char>) -> Option<Seq<char>> {
    let p = upper_seq(trim_seq(name_prefix(name)));
    if p.len() == 0 {
        None
    } else {
        Some(p)
    }
}

proof fn lemma_name_prefix_take(s: Seq<char>, i: int)
    requires
        0 <= i <= s.len(),
        forall|j: int| 0 <= j < i ==> !is_name_sep(s[j]),
        i < s.len() ==> is_name_sep(s[i]),
    ensures
        name_prefix(s) == s.take(i),
    decreases i,
{
    if i == 0 {
        assert(s.take(0) =~= Seq::<char>::empty());
    } else {
        assert(!is_name_sep(s[0]));
        lemma_name_prefix_take(s.drop_first(), i - 1);
        assert(s.drop_first().take(i - 1) =~= s.take(i).drop_first());
        assert(seq![s[0]] + s.take(i).drop_first() =~= s.take(i));
    }
}

/// Extract a ticker symbol from a file name: "DANGCEM_historical.csv"
/// yields "DANGCEM".  Absent when nothing precedes the first separator.
pub fn extract_symbol_from_filename(name: &str) -> (r: Option<String>)
    ensures
        match r {
            Some(s) => spec_extract_symbol(name@) == Some(s@),
            None => spec_extract_symbol(name@) is None,
        },
{
    let cs = to_chars(name);
    let mut i: usize = 0;
    while i < cs.len() && !(cs[i] == '_' || cs[i] == ' ' || cs[i] == '.')
        invariant
            i <= cs@.len(),
            forall|j: int| 0 <= j < i ==> !is_name_sep(#[trigger] cs@[j]),
        decreases cs@.len() - i,
    {
        i = i + 1;
    }
    proof {
        lemma_name_prefix_take(cs@, i as int);
    }
    let mut prefix: Vec<char> = Vec::new();
    let mut j: usize = 0;
    while j < i
        invariant
            j <= i <= cs@.len(),
            prefix@ == cs@.subrange(0, j as int),
        decreases i - j,
    {
        prefix.push(cs[j]);
        j = j + 1;
        proof {
            assert(prefix@ =~= cs@.subrange(0, j as int));
        }
    }
    proof {
        assert(prefix@ =~= cs@.take(i as int));
    }
    let t = trim_chars(&prefix);
    let u = upper_chars(&t);
    if u.len() == 0 {
        None
    } else {
        Some(crate::text::string_from_chars(&u))
    }
}

/// Extract an FX pair from a file name: "USDNGN_historical.csv" yields
/// "USDNGN".
pub fn extract_pair_from_filename(name: &str) -> (r: Option<String>)
    ensures
        match r {
            Some(s) => spec_extract_symbol(name@) == Some(s@),
            None => spec_extract_symbol(name@) is None,
        },
{
    extract_symbol_from_filename(name)
}

// ── CSV reading ─────────────────────────────────────────────────────────────
/// The records of a CSV document: for each data row (the header row is
/// skipped), either its fields or an error marker.  Determined by the text
/// alone.
pub uninterp spec fn csv_records_of(content: Seq<char>) -> Seq<Option<Seq<Seq<char>>>>;

/// Relies on `csv::ReaderBuilder` and `csv::Reader` (header row on,
/// flexible record lengths): reading a document held in memory yields a
/// sequence of records that is a function of the text alone; the header
/// row is skipped, and a record that cannot be read is reported as an
/// error entry in place.
#[verifier::external_body]
fn csv_records(content: &str) -> (records: Vec<Option<Vec<String>>>)
    ensures
        records.deep_view() == csv_records_of(content@),
{
    let mut rdr = csv::ReaderBuilder::new().has_headers(true).flexible(true).from_reader(
        content.as_bytes(),
    );
    rdr.records().map(
        |r| r.ok().map(|rec| rec.iter().map(|f| f.to_string()).collect()),
    ).collect()
}

/// View of an optional borrowed string.
pub open spec fn opt_sref_view(o: Option<&str>) -> Option<Seq<char>> {
    match o {
        Some(s) => Some(s@),
        None => None,
    }
}

/// The field at an index, if the record has one.
pub open spec fn field_of(fields: Seq<Seq<char>>, i: int) -> Option<Seq<char>> {
    if 0 <= i < fields.len() {
        Some(fields[i])
    } else {
        None
    }
}

/// An equity CSV record read positionally: Date, Price, Open, High, Low,
/// Volume, Change%.
pub open spec fn equity_row_of(fields: Seq<Seq<char>>) -> RawCsvRowModel {
    RawCsvRowModel {
        date: field_of(fields, 0),
        price: field_of(fields, 1),
        open: field_of(fields, 2),
        high: field_of(fields, 3),
        low: field_of(fields, 4),
        volume: field_of(fields, 5),
        change_pct: field_of(fields, 6),
    }
}

/// An FX CSV record read positionally: Date, Price, Open, High, Low,
/// Change%.
pub open spec fn fx_row_of(fields: Seq<Seq<char>>) -> RawFxCsvRowModel {
    RawFxCsvRowModel {
        date: field_of(fields, 0),
        price: field_of(fields, 1),
        open: field_of(fields, 2),
        high: field_of(fields, 3),
        low: field_of(fields, 4),
        change_pct: field_of(fields, 5),
    }
}

/// A ticker metadata record read positionally: symbol, name, sector,
/// industry, exchange.
pub open spec fn ticker_row_of(fields: Seq<Seq<char>>) -> RawTickerRowModel {
    RawTickerRowModel {
        symbol: field_of(fields, 0),
        name: field_of(fields, 1),
        sector: field_of(fields, 2),
        industry: field_of(fields, 3),
        exchange: field_of(fields, 4),
    }
}

/// The bars kept from a CSV document's records: each readable record that
/// converts, in order.
pub open spec fn spec_load_bars(
    symbol: Seq<char>,
    recs: Seq<Option<Seq<Seq<char>>>>,
    now: i64,
) -> Seq<BarModel>
    decreases recs.len(),
{
    if recs.len() == 0 {
        Seq::empty()
    } else {
        spec_load_bars(symbol, recs.drop_last(), now) + (
        match recs.last() {
            Some(fields) => match spec_csv_row_to_bar(symbol, equity_row_of(fields), now) {
                Some(b) => seq![b],
                None => Seq::empty(),
            },
            None => Seq::empty(),
        })
    }
}

/// The rates kept from an FX CSV document's records.
pub open spec fn spec_load_rates(
    pair: Seq<char>,
    recs: Seq<Option<Seq<Seq<char>>>>,
    source: Option<Seq<char>>,
    now: i64,
) -> Seq<FxModel>
    decreases recs.len(),
{
    if recs.len() == 0 {
        Seq::empty()
    } else {
        spec_load_rates(pair, recs.drop_last(), source, now) + (
        match recs.last() {
            Some(fields) => match spec_fx_csv_row_to_rate(pair, fx_row_of(fields), source, now) {
                Some(b) => seq![b],
                None => Seq::empty(),
            },
            None => Seq::empty(),
        })
    }
}

/// The tickers kept from a metadata CSV document's records.
pub open spec fn spec_load_tickers(recs: Seq<Option<Seq<Seq<char>>>>, now: i64) -> Seq<
    crate::models::TickerModel,
>
    decreases recs.len(),
{
    if recs.len() == 0 {
        Seq::empty()
    } else {
        spec_load_tickers(recs.drop_last(), now) + (
        match recs.last() {
            Some(fields) => match spec_ticker_row_to_ticker(ticker_row_of(fields), now) {
                Some(t) => seq![t],
                None => Seq::empty(),
            },
            None => Seq::empty(),
        })
    }
}

/// Clone the field at an index, if the record has one.
fn field(fields: &Vec<String>, i: usize) -> (r: Option<String>)
    ensures
        crate::models::opt_str_view(r) == field_of(fields.deep_view(), i as int),
{
    if i < fields.len() {
        proof {
            assert(fields.deep_view()[i as int] == fields@[i as int]@);
        }
        Some(fields[i].clone())
    } else {
        proof {
            assert(fields.deep_view().len() == fields@.len());
        }
        None
    }
}

/// Load an equity CSV document: the symbol comes from the file name, each
/// readable record with a parsable date and positive close becomes a bar,
/// stamped with the current time.  Fails exactly when the file name yields
/// no symbol.
pub fn load_equity_csv(file_name: &str, content: &str) -> (r: Result<
    (String, Vec<DailyBar>),
    LoadError,
>)
    ensures
        match r {
            Ok(out) => {
                &&& spec_extract_symbol(file_name@) == Some(out.0@)
                &&& exists|t: i64|
                    bar_models(out.1@) == #[trigger] spec_load_bars(
                        out.0@,
                        csv_records_of(content@),
                        t,
                    )
            },
            Err(e) => e == LoadError::NoSymbol && spec_extract_symbol(file_name@) is None,
        },
{
    let symbol = match extract_symbol_from_filename(file_name) {
        Some(s) => s,
        None => {
            return Err(LoadError::NoSymbol);
        },
    };
    let records = csv_records(content);
    let now = crate::clock::now_millis();
    let ghost recs = csv_records_of(content@);
    let mut bars: Vec<DailyBar> = Vec::new();
    let mut i: usize = 0;
    proof {
        assert(records.deep_view().len() == records@.len());
        assert(recs.take(0) =~= Seq::<Option<Seq<Seq<char>>>>::empty());
        assert(bar_models(bars@) =~= spec_load_bars(symbol@, recs.take(0), now));
    }
    while i < records.len()
        invariant
            i <= records@.len(),
            records.deep_view() == recs,
            records.deep_view().len() == records@.len(),
            bar_models(bars@) == spec_load_bars(symbol@, recs.take(i as int), now),
        decreases records@.len() - i,
    {
        let ghost pre = recs.take(i as int);
        let ghost post = recs.take(i + 1);
        proof {
            assert(post.drop_last() =~= pre);
            assert(post.last() == recs[i as int]);
            assert(recs[i as int] == records.deep_view()[i as int]);
        }
        match &records[i] {
            Some(fields) => {
                proof {
                    assert(records@[i as int].deep_view() == records.deep_view()[i as int]);
                    assert(fields.deep_view() == recs[i as int]->0);
                }
                let row = RawCsvRow {
                    date: field(fields, 0),
                    price: field(fields, 1),
                    open: field(fields, 2),
                    high: field(fields, 3),
                    low: field(fields, 4),
                    volume: field(fields, 5),
                    change_pct: field(fields, 6),
                };
                proof {
                    assert(row@ == equity_row_of(fields.deep_view()));
                }
                match csv_row_to_bar(symbol.as_str(), &row, now) {
                    Some(b) => {
                        bars.push(b);
                        proof {
                            assert(bar_models(bars@) =~= bar_models(bars@.drop_last()).push(
                                bars@.last()@,
                            ));
                            assert(bar_models(bars@) =~= spec_load_bars(symbol@, post, now));
                        }
                    },
                    None => {
                        proof {
                            assert(spec_load_bars(symbol@, post, now) =~= spec_load_bars(
                                symbol@,
                                pre,
                                now,
                            ));
                        }
                    },
                }
            },
            None => {
                proof {
                    assert(records@[i as int].deep_view() == records.deep_view()[i as int]);
                    assert(recs[i as int] is None);
                    assert(spec_load_bars(symbol@, post, now) =~= spec_load_bars(
                        symbol@,
                        pre,
                        now,
                    ));
                }
            },
        }
        i = i + 1;
    }
    proof {
        assert(recs.take(records@.len() as int) =~= recs);
        assert(bar_models(bars@) == spec_load_bars(symbol@, csv_records_of(content@), now));
    }
    Ok((symbol, bars))
}

/// Load an FX CSV document: the pair comes from the file name, each
/// readable record with a parsable date and positive rate becomes an FX
/// rate carrying the given source attribution, stamped with the current
/// time.  Fails exactly when the file name yields no pair.
pub fn load_fx_csv(file_name: &str, content: &str, source: Option<&str>) -> (r: Result<
    (String, Vec<FxRate>),
    LoadError,
>)
    ensures
        match r {
            Ok(out) => {
                &&& spec_extract_symbol(file_name@) == Some(out.0@)
                &&& exists|t: i64|
                    fx_models(out.1@) == #[trigger] spec_load_rates(
                        out.0@,
                        csv_records_of(content@),
                        opt_sref_view(source),
                        t,
                    )
            },
            Err(e) => e == LoadError::NoSymbol && spec_extract_symbol(file_name@) is None,
        },
{
    let pair = match extract_pair_from_filename(file_name) {
        Some(s) => s,
        None => {
            return Err(LoadError::NoSymbol);
        },
    };
    let records = csv_records(content);
    let now = crate::clock::now_millis();
    let ghost recs = csv_records_of(content@);
    let ghost src = opt_sref_view(source);
    let mut rates: Vec<FxRate> = Vec::new();
    let mut i: usize = 0;
    proof {
        assert(records.deep_view().len() == records@.len());
        assert(recs.take(0) =~= Seq::<Option<Seq<Seq<char>>>>::empty());
        assert(fx_models(rates@) =~= spec_load_rates(pair@, recs.take(0), src, now));
    }
    while i < records.len()
        invariant
            i <= records@.len(),
            records.deep_view() == recs,
            records.deep_view().len() == records@.len(),
            fx_models(rates@) == spec_load_rates(pair@, recs.take(i as int), src, now),
            src == opt_sref_view(source),
        decreases records@.len() - i,
    {
        let ghost pre = recs.take(i as int);
        let ghost post = recs.take(i + 1);
        proof {
            assert(post.drop_last() =~= pre);
            assert(post.last() == recs[i as int]);
            assert(recs[i as int] == records.deep_view()[i as int]);
        }
        match &records[i] {
            Some(fields) => {
                proof {
                    assert(records@[i as int].deep_view() == records.deep_view()[i as int]);
                    assert(fields.deep_view() == recs[i as int]->0);
                }
                let row = RawFxCsvRow {
                    date: field(fields, 0),
                    price: field(fields, 1),
                    open: field(fields, 2),
                    high: field(fields, 3),
                    low: field(fields, 4),
                    change_pct: field(fields, 5),
                };
                proof {
                    assert(row@ == fx_row_of(fields.deep_view()));
                }
                match fx_csv_row_to_rate(pair.as_str(), &row, source, now) {
                    Some(b) => {
                        rates.push(b);
                        proof {
                            assert(fx_models(rates@) =~= fx_models(rates@.drop_last()).push(
                                rates@.last()@,
                            ));
                            assert(fx_models(rates@) =~= spec_load_rates(pair@, post, src, now));
                        }
                    },
                    None => {
                        proof {
                            assert(spec_load_rates(pair@, post, src, now) =~= spec_load_rates(
                                pair@,
                                pre,
                                src,
                                now,
                            ));
                        }
                    },
                }
            },
            None => {
                proof {
                    assert(records@[i as int].deep_view() == records.deep_view()[i as int]);
                    assert(recs[i as int] is None);
                    assert(spec_load_rates(pair@, post, src, now) =~= spec_load_rates(
                        pair@,
                        pre,
                        src,
                        now,
                    ));
                }
            },
        }
        i = i + 1;
    }
    proof {
        assert(recs.take(records@.len() as int) =~= recs);
        assert(fx_models(rates@) == spec_load_rates(
            pair@,
            csv_records_of(content@),
            opt_sref_view(source),
            now,
        ));
    }
    Ok((pair, rates))
}

/// Load a ticker metadata CSV document: each readable record with a
/// non-empty symbol becomes a ticker, stamped with the current time.
pub fn load_tickers_csv(content: &str) -> (r: Result<Vec<Ticker>, LoadError>)
    ensures
        match r {
            Ok(out) => exists|t: i64|
                ticker_models(out@) == #[trigger] spec_load_tickers(
                    csv_records_of(content@),
                    t,
                ),
            Err(_) => false,
        },
{
    let records = csv_records(content);
    let now = crate::clock::now_millis();
    let ghost recs = csv_records_of(content@);
    let mut tickers: Vec<Ticker> = Vec::new();
    let mut i: usize = 0;
    proof {
        assert(records.deep_view().len() == records@.len());
        assert(recs.take(0) =~= Seq::<Option<Seq<Seq<char>>>>::empty());
        assert(ticker_models(tickers@) =~= spec_load_tickers(recs.take(0), now));
    }
    while i < records.len()
        invariant
            i <= records@.len(),
            records.deep_view() == recs,
            records.deep_view().len() == records@.len(),
            ticker_models(tickers@) == spec_load_tickers(recs.take(i as int), now),
        decreases records@.len() - i,
    {
        let ghost pre = recs.take(i as int);
        let ghost post = recs.take(i + 1);
        proof {
            assert(post.drop_last() =~= pre);
            assert(post.last() == recs[i as int]);
            assert(recs[i as int] == records.deep_view()[i as int]);
        }
        match &records[i] {
            Some(fields) => {
                proof {
                    assert(records@[i as int].deep_view() == records.deep_view()[i as int]);
                    assert(fields.deep_view() == recs[i as int]->0);
                }
                let row = RawTickerRow {
                    symbol: field(fields, 0),
                    name: field(fields, 1),
                    sector: field(fields, 2),
                    industry: field(fields, 3),
                    exchange: field(fields, 4),
                };
                proof {
                    assert(row@ == ticker_row_of(fields.deep_view()));
                }
                match ticker_row_to_ticker(&row, now) {
                    Some(t) => {
                        tickers.push(t);
                        proof {
                            assert(ticker_models(tickers@) =~= ticker_models(
                                tickers@.drop_last(),
                            ).push(tickers@.last()@));
                            assert(ticker_models(tickers@) =~= spec_load_tickers(post, now));
                        }
                    },
                    None => {
                        proof {
                            assert(spec_load_tickers(post, now) =~= spec_load_tickers(
                                pre,
                                now,
                            ));
                        }
                    },
                }
            },
            None => {
                proof {
                    assert(records@[i as int].deep_view() == records.deep_view()[i as int]);
                    assert(recs[i as int] is None);
                    assert(spec_load_tickers(post, now) =~= spec_load_tickers(pre, now));
                }
            },
        }
        i = i + 1;
    }
    proof {
        assert(recs.take(records@.len() as int) =~= recs);
    }
    Ok(tickers)
}

} // verus!
