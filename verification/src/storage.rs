//! The repository: an in-memory store with idempotent merge-upsert
//! semantics per entity type, keyed by (symbol, date), (pair, date) and
//! symbol, plus an audit log of ingestion runs.
//!
//! The merge rule, per entity: on a key collision every incoming field that
//! is present overwrites nothing that is known unless the rule says so —
//! optional fields keep the existing value when the incoming one is absent,
//! while the authoritative close/rate (and the capture timestamp, and a
//! ticker's name) are always overwritten.  This makes re-ingestion of the
//! same data a no-op and richer re-ingestion additive.

use vstd::prelude::*;
use vstd::pervasive::VecAdditionalExecFns;

use crate::models::BarModel;
use crate::models::DailyBar;
use crate::models::Date;
use crate::models::FxModel;
use crate::models::FxRate;
use crate::models::RunStatus;
use crate::models::ScrapeRun;
use crate::models::Ticker;
use crate::models::TickerModel;
use crate::cleaner::bar_models;
use crate::cleaner::ticker_models;
use crate::text::lex_le;
use crate::text::str_le;
use vstd::multiset::Multiset;

verus! {

// ── Keyed sequences as maps ─────────────────────────────────────────────────
/// The map from keys to records held by a sequence; a later record with the
/// same key wins.
pub open spec fn map_of<K, V>(s: Seq<V>, key: spec_fn(V) -> K) -> Map<K, V>
    decreases s.len(),
{
    if s.len() == 0 {
        Map::empty()
    } else {
        map_of(s.drop_last(), key).insert(key(s.last()), s.last())
    }
}

/// No two records share a key.
pub open spec fn unique_keys<K, V>(s: Seq<V>, key: spec_fn(V) -> K) -> bool {
    forall|i: int, j: int|
        0 <= i < j < s.len() ==> #[trigger] key(s[i]) != #[trigger] key(s[j])
}

/// Upsert one record into a map: merge on collision, insert otherwise.
pub open spec fn apply_one<K, V>(
    m: Map<K, V>,
    v: V,
    key: spec_fn(V) -> K,
    merge: spec_fn(V, V) -> V,
) -> Map<K, V> {
    if m.dom().contains(key(v)) {
        m.insert(key(v), merge(m[key(v)], v))
    } else {
        m.insert(key(v), v)
    }
}

/// Upsert a batch of records, in order.
pub open spec fn apply_batch<K, V>(
    m: Map<K, V>,
    batch: Seq<V>,
    key: spec_fn(V) -> K,
    merge: spec_fn(V, V) -> V,
) -> Map<K, V>
    decreases batch.len(),
{
    if batch.len() == 0 {
        m
    } else {
        apply_one(apply_batch(m, batch.drop_last(), key, merge), batch.last(), key, merge)
    }
}

/// Upserting a record whose key the batch does not hold commutes with the
/// batch.
proof fn lemma_apply_one_commutes<K, V>(
    m: Map<K, V>,
    b: V,
    batch: Seq<V>,
    key: spec_fn(V) -> K,
    merge: spec_fn(V, V) -> V,
)
    requires
        forall|i: int| 0 <= i < batch.len() ==> #[trigger] key(batch[i]) != key(b),
    ensures
        apply_batch(apply_one(m, b, key, merge), batch, key, merge) == apply_one(
            apply_batch(m, batch, key, merge),
            b,
            key,
            merge,
        ),
    decreases batch.len(),
{
    if batch.len() == 0 {
    } else {
        let pre = batch.drop_last();
        let last = batch.last();
        lemma_apply_one_commutes(m, b, pre, key, merge);
        let a = apply_batch(m, pre, key, merge);
        let kb = key(b);
        let kl = key(last);
        assert(kl != kb);
        // both sides are apply_one(apply_one(a, b), last) vs apply_one(apply_one(a, last), b)
        // with distinct keys these inserts commute
        let lhs = apply_one(apply_one(a, b, key, merge), last, key, merge);
        let rhs = apply_one(apply_one(a, last, key, merge), b, key, merge);
        assert(lhs =~= rhs);
    }
}

/// Upserting the same batch twice gives the same store as upserting it
/// once, provided the merge absorbs a repeated record and the batch has no
/// duplicate keys.
pub proof fn lemma_apply_batch_idempotent<K, V>(
    m: Map<K, V>,
    batch: Seq<V>,
    key: spec_fn(V) -> K,
    merge: spec_fn(V, V) -> V,
)
    requires
        unique_keys(batch, key),
        forall|e: V, b: V| #[trigger] merge(merge(e, b), b) == merge(e, b),
        forall|b: V| #[trigger] merge(b, b) == b,
    ensures
        apply_batch(apply_batch(m, batch, key, merge), batch, key, merge) == apply_batch(
            m,
            batch,
            key,
            merge,
        ),
    decreases batch.len(),
{
    if batch.len() == 0 {
    } else {
        let pre = batch.drop_last();
        let b = batch.last();
        let kb = key(b);
        assert(forall|i: int| 0 <= i < pre.len() ==> #[trigger] key(pre[i]) != kb);
        let a = apply_batch(m, pre, key, merge);
        let a1 = apply_one(a, b, key, merge);
        // apply_batch(a1, batch) == apply_one(apply_batch(a1, pre), b)
        // apply_batch(a1, pre) == apply_one(apply_batch(a, pre), b) == apply_one(a, b) == a1
        lemma_apply_one_commutes(a, b, pre, key, merge);
        lemma_apply_batch_idempotent(m, pre, key, merge);
        assert(apply_batch(a1, pre, key, merge) == apply_one(
            apply_batch(a, pre, key, merge),
            b,
            key,
            merge,
        ));
        assert(apply_batch(a, pre, key, merge) == a);
        // so the double application ends as apply_one(a1, b)
        if a.dom().contains(kb) {
            let merged = merge(a[kb], b);
            assert(a1 == a.insert(kb, merged));
            assert(apply_one(a1, b, key, merge) == a1.insert(kb, merge(merged, b)));
            assert(merge(merged, b) == merged);
            assert(a1.insert(kb, merged) =~= a1);
        } else {
            assert(a1 == a.insert(kb, b));
            assert(apply_one(a1, b, key, merge) == a1.insert(kb, merge(b, b)));
            assert(merge(b, b) == b);
            assert(a1.insert(kb, b) =~= a1);
        }
    }
}

/// Batches that touch disjoint key sets do not disturb each other: applied
/// in either order they leave the store in the same state, so concurrent
/// per-symbol batches may interleave freely.
pub proof fn lemma_disjoint_batches_commute<K, V>(
    m: Map<K, V>,
    a: Seq<V>,
    b: Seq<V>,
    key: spec_fn(V) -> K,
    merge: spec_fn(V, V) -> V,
)
    requires
        forall|i: int, j: int|
            0 <= i < a.len() && 0 <= j < b.len() ==> #[trigger] key(a[i]) != #[trigger] key(
                b[j],
            ),
    ensures
        apply_batch(apply_batch(m, a, key, merge), b, key, merge) == apply_batch(
            apply_batch(m, b, key, merge),
            a,
            key,
            merge,
        ),
    decreases a.len(),
{
    if a.len() == 0 {
    } else {
        let pre = a.drop_last();
        let x = a.last();
        assert(forall|i: int, j: int|
            0 <= i < pre.len() && 0 <= j < b.len() ==> #[trigger] key(pre[i]) != #[trigger] key(
                b[j],
            )) by {
            assert(forall|i: int| 0 <= i < pre.len() ==> pre[i] == a[i]);
        }
        assert(key(a[a.len() - 1]) == key(x));
        assert(forall|j: int| 0 <= j < b.len() ==> #[trigger] key(b[j]) != key(x));
        lemma_disjoint_batches_commute(m, pre, b, key, merge);
        // push x through the b batch on the left-hand side
        lemma_apply_one_commutes(apply_batch(m, pre, key, merge), x, b, key, merge);
    }
}

/// A key occurs in the map exactly when some record has it.
proof fn lemma_map_of_contains<K, V>(s: Seq<V>, key: spec_fn(V) -> K, k: K)
    ensures
        map_of(s, key).dom().contains(k) <==> exists|i: int|
            0 <= i < s.len() && #[trigger] key(s[i]) == k,
    decreases s.len(),
{
    if s.len() > 0 {
        lemma_map_of_contains(s.drop_last(), key, k);
        if key(s.last()) == k {
            assert(key(s[s.len() - 1]) == k);
        } else {
            if exists|i: int| 0 <= i < s.len() - 1 && #[trigger] key(s[i]) == k {
                let i = choose|i: int| 0 <= i < s.len() - 1 && #[trigger] key(s[i]) == k;
                assert(s.drop_last()[i] == s[i]);
            }
            if exists|i: int| 0 <= i < s.len() && #[trigger] key(s[i]) == k {
                let i = choose|i: int| 0 <= i < s.len() && #[trigger] key(s[i]) == k;
                assert(i < s.len() - 1);
                assert(s.drop_last()[i] == s[i]);
            }
        }
    }
}

/// With unique keys, the map sends each record's key to that record.
proof fn lemma_map_of_index<K, V>(s: Seq<V>, key: spec_fn(V) -> K, i: int)
    requires
        unique_keys(s, key),
        0 <= i < s.len(),
    ensures
        map_of(s, key).dom().contains(key(s[i])),
        map_of(s, key)[key(s[i])] == s[i],
    decreases s.len(),
{
    if i == s.len() - 1 {
    } else {
        assert(unique_keys(s.drop_last(), key)) by {
            assert(forall|p: int, q: int|
                0 <= p < q < s.len() - 1 ==> s.drop_last()[p] == s[p] && s.drop_last()[q]
                    == s[q]);
        }
        assert(s.drop_last()[i] == s[i]);
        lemma_map_of_index(s.drop_last(), key, i);
        assert(key(s[i]) != key(s[s.len() - 1]));
    }
}

/// Replacing a record with one of the same key updates the map in place.
proof fn lemma_map_of_update<K, V>(s: Seq<V>, key: spec_fn(V) -> K, i: int, v: V)
    requires
        unique_keys(s, key),
        0 <= i < s.len(),
        key(v) == key(s[i]),
    ensures
        map_of(s.update(i, v), key) == map_of(s, key).insert(key(v), v),
    decreases s.len(),
{
    let l = s.len() - 1;
    if i == l {
        assert(s.update(i, v).drop_last() =~= s.drop_last());
        assert(s.update(i, v).last() == v);
        assert(map_of(s.update(i, v), key) == map_of(s.drop_last(), key).insert(key(v), v));
        assert(map_of(s.drop_last(), key).insert(key(s[l]), s[l]).insert(key(v), v)
            =~= map_of(s.drop_last(), key).insert(key(v), v));
    } else {
        assert(unique_keys(s.drop_last(), key)) by {
            assert(forall|p: int, q: int|
                0 <= p < q < s.len() - 1 ==> s.drop_last()[p] == s[p] && s.drop_last()[q]
                    == s[q]);
        }
        assert(s.drop_last()[i] == s[i]);
        lemma_map_of_update(s.drop_last(), key, i, v);
        assert(s.update(i, v).drop_last() =~= s.drop_last().update(i, v));
        assert(s.update(i, v).last() == s.last());
        assert(key(v) != key(s[l]));
        assert(map_of(s.drop_last(), key).insert(key(v), v).insert(key(s[l]), s[l])
            =~= map_of(s.drop_last(), key).insert(key(s[l]), s[l]).insert(key(v), v));
    }
}

// ── Merge rules ─────────────────────────────────────────────────────────────
/// The incoming value if present, else the existing one.
pub open spec fn opt_or<T>(inc: Option<T>, ex: Option<T>) -> Option<T> {
    if inc is Some {
        inc
    } else {
        ex
    }
}

/// Merge an incoming bar into an existing one with the same key: optional
/// fields keep the existing value when the incoming one is absent; the
/// close and the capture timestamp are always overwritten.
pub open spec fn spec_merge_bar(e: BarModel, inc: BarModel) -> BarModel {
    BarModel {
        symbol: e.symbol,
        date: e.date,
        open: opt_or(inc.open, e.open),
        high: opt_or(inc.high, e.high),
        low: opt_or(inc.low, e.low),
        close: inc.close,
        change_pct: opt_or(inc.change_pct, e.change_pct),
        volume: opt_or(inc.volume, e.volume),
        scraped_at: inc.scraped_at,
    }
}

/// Merge an incoming FX rate into an existing one with the same key.
pub open spec fn spec_merge_fx(e: FxModel, inc: FxModel) -> FxModel {
    FxModel {
        pair: e.pair,
        date: e.date,
        open: opt_or(inc.open, e.open),
        high: opt_or(inc.high, e.high),
        low: opt_or(inc.low, e.low),
        close: inc.close,
        change_pct: opt_or(inc.change_pct, e.change_pct),
        source: opt_or(inc.source, e.source),
        scraped_at: inc.scraped_at,
    }
}

/// Merge an incoming ticker into an existing one with the same symbol: the
/// name and capture timestamp are overwritten, classification fields keep
/// the existing value when the incoming one is absent.
pub open spec fn spec_merge_ticker(e: TickerModel, inc: TickerModel) -> TickerModel {
    TickerModel {
        symbol: e.symbol,
        name: inc.name,
        sector: opt_or(inc.sector, e.sector),
        industry: opt_or(inc.industry, e.industry),
        exchange: opt_or(inc.exchange, e.exchange),
        scraped_at: inc.scraped_at,
    }
}

/// Key of a bar: (symbol, date).
pub open spec fn bar_key(b: BarModel) -> (Seq<char>, Date) {
    (b.symbol, b.date)
}

/// Key of an FX rate: (pair, date).
pub open spec fn fx_key(r: FxModel) -> (Seq<char>, Date) {
    (r.pair, r.date)
}

/// Key of a ticker: its symbol.
pub open spec fn ticker_key(t: TickerModel) -> Seq<char> {
    t.symbol
}

/// Merge an incoming bar into an existing one with the same (symbol, date).
pub fn merge_bar(e: &DailyBar, inc: &DailyBar) -> (r: DailyBar)
    ensures
        r@ == spec_merge_bar(e@, inc@),
{
    DailyBar {
        symbol: e.symbol.clone(),
        date: e.date,
        open: if inc.open.is_some() {
            inc.open
        } else {
            e.open
        },
        high: if inc.high.is_some() {
            inc.high
        } else {
            e.high
        },
        low: if inc.low.is_some() {
            inc.low
        } else {
            e.low
        },
        close: inc.close,
        change_pct: if inc.change_pct.is_some() {
            inc.change_pct
        } else {
            e.change_pct
        },
        volume: if inc.volume.is_some() {
            inc.volume
        } else {
            e.volume
        },
        scraped_at: inc.scraped_at,
    }
}

fn clone_opt_string(o: &Option<String>) -> (r: Option<String>)
    ensures
        crate::models::opt_str_view(r) == crate::models::opt_str_view(*o),
{
    match o {
        Some(s) => Some(s.clone()),
        None => None,
    }
}

/// Merge an incoming FX rate into an existing one with the same (pair, date).
pub fn merge_fx(e: &FxRate, inc: &FxRate) -> (r: FxRate)
    ensures
        r@ == spec_merge_fx(e@, inc@),
{
    FxRate {
        pair: e.pair.clone(),
        date: e.date,
        open: if inc.open.is_some() {
            inc.open
        } else {
            e.open
        },
        high: if inc.high.is_some() {
            inc.high
        } else {
            e.high
        },
        low: if inc.low.is_some() {
            inc.low
        } else {
            e.low
        },
        close: inc.close,
        change_pct: if inc.change_pct.is_some() {
            inc.change_pct
        } else {
            e.change_pct
        },
        source: if inc.source.is_some() {
            clone_opt_string(&inc.source)
        } else {
            clone_opt_string(&e.source)
        },
        scraped_at: inc.scraped_at,
    }
}

/// Merge an incoming ticker into an existing one with the same symbol.
pub fn merge_ticker(e: &Ticker, inc: &Ticker) -> (r: Ticker)
    ensures
        r@ == spec_merge_ticker(e@, inc@),
{
    Ticker {
        symbol: e.symbol.clone(),
        name: inc.name.clone(),
        sector: if inc.sector.is_some() {
            clone_opt_string(&inc.sector)
        } else {
            clone_opt_string(&e.sector)
        },
        industry: if inc.industry.is_some() {
            clone_opt_string(&inc.industry)
        } else {
            clone_opt_string(&e.industry)
        },
        exchange: if inc.exchange.is_some() {
            clone_opt_string(&inc.exchange)
        } else {
            clone_opt_string(&e.exchange)
        },
        scraped_at: inc.scraped_at,
    }
}

// ── Laws of the merge rules ─────────────────────────────────────────────────
/// Merging keeps the key and never nulls a known optional field: a field
/// absent in the incoming record keeps the existing value, a present field
/// overwrites it, and the close and capture timestamp always come from the
/// incoming record.
pub proof fn lemma_merge_bar_non_destructive(e: BarModel, inc: BarModel)
    ensures
        spec_merge_bar(e, inc).symbol == e.symbol,
        spec_merge_bar(e, inc).date == e.date,
        spec_merge_bar(e, inc).close == inc.close,
        spec_merge_bar(e, inc).scraped_at == inc.scraped_at,
        inc.open is None ==> spec_merge_bar(e, inc).open == e.open,
        inc.high is None ==> spec_merge_bar(e, inc).high == e.high,
        inc.low is None ==> spec_merge_bar(e, inc).low == e.low,
        inc.change_pct is None ==> spec_merge_bar(e, inc).change_pct == e.change_pct,
        inc.volume is None ==> spec_merge_bar(e, inc).volume == e.volume,
        inc.open is Some ==> spec_merge_bar(e, inc).open == inc.open,
        inc.high is Some ==> spec_merge_bar(e, inc).high == inc.high,
        inc.low is Some ==> spec_merge_bar(e, inc).low == inc.low,
{
}

/// The same, for FX rates, including the source attribution.
pub proof fn lemma_merge_fx_non_destructive(e: FxModel, inc: FxModel)
    ensures
        spec_merge_fx(e, inc).pair == e.pair,
        spec_merge_fx(e, inc).date == e.date,
        spec_merge_fx(e, inc).close == inc.close,
        spec_merge_fx(e, inc).scraped_at == inc.scraped_at,
        inc.open is None ==> spec_merge_fx(e, inc).open == e.open,
        inc.high is None ==> spec_merge_fx(e, inc).high == e.high,
        inc.low is None ==> spec_merge_fx(e, inc).low == e.low,
        inc.change_pct is None ==> spec_merge_fx(e, inc).change_pct == e.change_pct,
        inc.source is None ==> spec_merge_fx(e, inc).source == e.source,
{
}

/// Upserting the same bar batch twice leaves the store exactly as one
/// upsert left it, for a batch with no duplicate (symbol, date) keys.
pub proof fn lemma_bar_batch_idempotent(
    m: Map<(Seq<char>, Date), BarModel>,
    batch: Seq<BarModel>,
)
    requires
        unique_keys(batch, |b: BarModel| bar_key(b)),
    ensures
        apply_batch(
            apply_batch(m, batch, |b: BarModel| bar_key(b), |e, i| spec_merge_bar(e, i)),
            batch,
            |b: BarModel| bar_key(b),
            |e, i| spec_merge_bar(e, i),
        ) == apply_batch(m, batch, |b: BarModel| bar_key(b), |e, i| spec_merge_bar(e, i)),
{
    lemma_apply_batch_idempotent(m, batch, |b: BarModel| bar_key(b), |e, i| spec_merge_bar(e, i));
}

/// Upserting the same FX batch twice leaves the store exactly as one
/// upsert left it, for a batch with no duplicate (pair, date) keys.
pub proof fn lemma_fx_batch_idempotent(m: Map<(Seq<char>, Date), FxModel>, batch: Seq<FxModel>)
    requires
        unique_keys(batch, |r: FxModel| fx_key(r)),
    ensures
        apply_batch(
            apply_batch(m, batch, |r: FxModel| fx_key(r), |e, i| spec_merge_fx(e, i)),
            batch,
            |r: FxModel| fx_key(r),
            |e, i| spec_merge_fx(e, i),
        ) == apply_batch(m, batch, |r: FxModel| fx_key(r), |e, i| spec_merge_fx(e, i)),
{
    lemma_apply_batch_idempotent(m, batch, |r: FxModel| fx_key(r), |e, i| spec_merge_fx(e, i));
}

/// Upserting the same ticker batch twice leaves the store exactly as one
/// upsert left it, for a batch with no duplicate symbols.
pub proof fn lemma_ticker_batch_idempotent(
    m: Map<Seq<char>, TickerModel>,
    batch: Seq<TickerModel>,
)
    requires
        unique_keys(batch, |t: TickerModel| ticker_key(t)),
    ensures
        apply_batch(
            apply_batch(m, batch, |t: TickerModel| ticker_key(t), |e, i| spec_merge_ticker(e, i)),
            batch,
            |t: TickerModel| ticker_key(t),
            |e, i| spec_merge_ticker(e, i),
        ) == apply_batch(
            m,
            batch,
            |t: TickerModel| ticker_key(t),
            |e, i| spec_merge_ticker(e, i),
        ),
{
    lemma_apply_batch_idempotent(
        m,
        batch,
        |t: TickerModel| ticker_key(t),
        |e, i| spec_merge_ticker(e, i),
    );
}

// ── Repository ──────────────────────────────────────────────────────────────
/// Views of a sequence of FX rates.
pub open spec fn fx_models(rs: Seq<FxRate>) -> Seq<FxModel> {
    rs.map_values(|r: FxRate| r@)
}

/// Views of a sequence of run records.
pub open spec fn run_models(rs: Seq<ScrapeRun>) -> Seq<crate::models::RunModel> {
    rs.map_values(|r: ScrapeRun| r@)
}

/// Views of a sequence of strings.
pub open spec fn str_views(s: Seq<String>) -> Seq<Seq<char>> {
    s.map_values(|x: String| x@)
}

/// The symbols of a sequence of tickers.
pub open spec fn symbol_views(ts: Seq<Ticker>) -> Seq<Seq<char>> {
    ts.map_values(|t: Ticker| t.symbol@)
}

/// A storage-level failure.  The in-memory store cannot fail, so no
/// operation ever constructs one; the type keeps the fallible signatures
/// that storage backends share.
#[derive(Debug, Clone)]
pub struct StorageError {
    pub message: String,
}

/// The store: tickers keyed by symbol, daily bars keyed by (symbol, date),
/// FX rates keyed by (pair, date), and the audit log of runs.
pub struct Repository {
    tickers: Vec<Ticker>,
    bars: Vec<DailyBar>,
    fx: Vec<FxRate>,
    runs: Vec<ScrapeRun>,
    schema_version: u32,
}

impl Repository {
    /// The stored tickers, as models.
    pub closed spec fn tickers_seq(self) -> Seq<TickerModel> {
        ticker_models(self.tickers@)
    }

    /// The stored bars, as models.
    pub closed spec fn bars_seq(self) -> Seq<BarModel> {
        bar_models(self.bars@)
    }

    /// The stored FX rates, as models.
    pub closed spec fn fx_seq(self) -> Seq<FxModel> {
        fx_models(self.fx@)
    }

    /// The audit log, as models.
    pub closed spec fn runs_seq(self) -> Seq<crate::models::RunModel> {
        run_models(self.runs@)
    }

    /// The stored tickers as a map keyed by symbol.
    pub closed spec fn tickers_map(self) -> Map<Seq<char>, TickerModel> {
        map_of(self.tickers_seq(), |t: TickerModel| ticker_key(t))
    }

    /// The stored bars as a map keyed by (symbol, date).
    pub closed spec fn bars_map(self) -> Map<(Seq<char>, Date), BarModel> {
        map_of(self.bars_seq(), |b: BarModel| bar_key(b))
    }

    /// The stored FX rates as a map keyed by (pair, date).
    pub closed spec fn fx_map(self) -> Map<(Seq<char>, Date), FxModel> {
        map_of(self.fx_seq(), |r: FxModel| fx_key(r))
    }

    /// Well-formedness: every entity's keys are unique, and run ids number
    /// the log from one.
    pub closed spec fn wf(self) -> bool {
        &&& unique_keys(self.tickers_seq(), |t: TickerModel| ticker_key(t))
        &&& unique_keys(self.bars_seq(), |b: BarModel| bar_key(b))
        &&& unique_keys(self.fx_seq(), |r: FxModel| fx_key(r))
        &&& self.runs@.len() <= i64::MAX
        &&& forall|i: int|
            0 <= i < self.runs@.len() ==> #[trigger] self.runs_seq()[i].id == i + 1
    }

    /// The schema version as a ghost value.
    pub closed spec fn spec_schema_version(self) -> u32 {
        self.schema_version
    }

    /// An empty store.
    pub fn open_in_memory() -> (r: Result<Repository, StorageError>)
        ensures
            match r {
                Ok(repo) => {
                    &&& repo.wf()
                    &&& repo.tickers_seq().len() == 0
                    &&& repo.bars_seq().len() == 0
                    &&& repo.fx_seq().len() == 0
                    &&& repo.runs_seq().len() == 0
                    &&& repo.spec_schema_version() == 0
                },
                Err(_) => false,
            },
    {
        Ok(
            Repository {
                tickers: Vec::new(),
                bars: Vec::new(),
                fx: Vec::new(),
                runs: Vec::new(),
                schema_version: 0,
            },
        )
    }

    /// Apply the schema migrations.  Additive and idempotent: running them
    /// again changes nothing further, and no data is touched.
    pub fn run_migrations(&mut self) -> (r: Result<(), StorageError>)
        ensures
            r is Ok,
            final(self).spec_schema_version() == 1,
            final(self).tickers_seq() == old(self).tickers_seq(),
            final(self).bars_seq() == old(self).bars_seq(),
            final(self).fx_seq() == old(self).fx_seq(),
            final(self).runs_seq() == old(self).runs_seq(),
            final(self).wf() == old(self).wf(),
    {
        self.schema_version = 1;
        Ok(())
    }

    /// The schema version the store is at: zero before migrations, one after.
    pub fn schema_version(&self) -> (v: u32)
        ensures
            v == self.spec_schema_version(),
    {
        self.schema_version
    }

    /// Upsert a batch of daily bars, in order.  New keys are inserted;
    /// an existing (symbol, date) row is merged by [`spec_merge_bar`].
    /// Returns the number of records handed in.
    pub fn upsert_daily_bars(&mut self, bars: &Vec<DailyBar>) -> (r: Result<usize, StorageError>)
        requires
            old(self).wf(),
        ensures
            final(self).wf(),
            r is Ok,
            r->Ok_0 == bars@.len(),
            final(self).bars_map() == apply_batch(
                old(self).bars_map(),
                bar_models(bars@),
                |b: BarModel| bar_key(b),
                |e: BarModel, inc: BarModel| spec_merge_bar(e, inc),
            ),
            final(self).tickers_seq() == old(self).tickers_seq(),
            final(self).fx_seq() == old(self).fx_seq(),
            final(self).runs_seq() == old(self).runs_seq(),
            final(self).spec_schema_version() == old(self).spec_schema_version(),
    {
        let mut i: usize = 0;
        proof {
            assert(bar_models(bars@.take(0)) =~= Seq::<BarModel>::empty());
        }
        while i < bars.len()
            invariant
                i <= bars@.len(),
                self.wf(),
                self.bars_map() == apply_batch(
                    old(self).bars_map(),
                    bar_models(bars@.take(i as int)),
                    |b: BarModel| bar_key(b),
                    |e: BarModel, inc: BarModel| spec_merge_bar(e, inc),
                ),
                self.tickers_seq() == old(self).tickers_seq(),
                self.fx_seq() == old(self).fx_seq(),
                self.runs_seq() == old(self).runs_seq(),
                self.spec_schema_version() == old(self).spec_schema_version(),
            decreases bars@.len() - i,
        {
            let ghost key = |b: BarModel| bar_key(b);
            let ghost merge = |e: BarModel, inc: BarModel| spec_merge_bar(e, inc);
            let ghost pre = bar_models(bars@.take(i as int));
            let ghost post = bar_models(bars@.take(i + 1));
            let ghost seq0 = self.bars_seq();
            proof {
                assert(post.drop_last() =~= pre);
                assert(post.last() == bars@[i as int]@);
            }
            let b = &bars[i];
            match find_bar_idx(&self.bars, &b.symbol, b.date) {
                Some(idx) => {
                    let merged = merge_bar(&self.bars[idx], b);
                    proof {
                        assert(key(seq0[idx as int]) == bar_key(b@));
                        lemma_map_of_contains(seq0, key, bar_key(b@));
                        lemma_map_of_index(seq0, key, idx as int);
                        lemma_map_of_update(seq0, key, idx as int, merged@);
                        assert(key(merged@) == key(seq0[idx as int]));
                    }
                    self.bars.set(idx, merged);
                    proof {
                        assert(self.bars_seq() =~= seq0.update(idx as int, merged@));
                        assert(unique_keys(self.bars_seq(), key)) by {
                            assert(forall|p: int|
                                0 <= p < seq0.len() && p != idx ==> self.bars_seq()[p]
                                    == seq0[p]);
                        }
                        assert(self.bars_map() == apply_one(
                            map_of(seq0, key),
                            post.last(),
                            key,
                            merge,
                        ));
                        assert(self.bars_map() == apply_batch(
                            old(self).bars_map(),
                            post,
                            key,
                            merge,
                        ));
                    }
                },
                None => {
                    proof {
                        lemma_map_of_contains(seq0, key, bar_key(bars@[i as int]@));
                        assert forall|p: int| 0 <= p < seq0.len() implies #[trigger] key(
                            seq0[p],
                        ) != bar_key(bars@[i as int]@) by {
                            assert(seq0[p].symbol == self.bars@[p]@.symbol);
                        }
                        assert(!map_of(seq0, key).dom().contains(bar_key(bars@[i as int]@)));
                    }
                    let copy = clone_bar(b);
                    self.bars.push(copy);
                    proof {
                        assert(self.bars_seq() =~= seq0.push(bars@[i as int]@));
                        assert(self.bars_seq().drop_last() =~= seq0);
                        assert(unique_keys(self.bars_seq(), key)) by {
                            assert(forall|p: int|
                                0 <= p < seq0.len() ==> self.bars_seq()[p] == seq0[p]);
                        }
                        assert(self.bars_map() == map_of(seq0, key).insert(
                            bar_key(bars@[i as int]@),
                            bars@[i as int]@,
                        ));
                        assert(self.bars_map() == apply_one(
                            map_of(seq0, key),
                            post.last(),
                            key,
                            merge,
                        ));
                        assert(self.bars_map() == apply_batch(
                            old(self).bars_map(),
                            post,
                            key,
                            merge,
                        ));
                    }
                },
            }
            i = i + 1;
        }
        proof {
            assert(bars@.take(bars@.len() as int) =~= bars@);
        }
        Ok(bars.len())
    }

    /// Upsert a batch of FX rates, in order.  New keys are inserted; an
    /// existing (pair, date) row is merged by [`spec_merge_fx`].  Returns
    /// the number of records handed in.
    pub fn upsert_fx_rates(&mut self, rates: &Vec<FxRate>) -> (r: Result<usize, StorageError>)
        requires
            old(self).wf(),
        ensures
            final(self).wf(),
            r is Ok,
            r->Ok_0 == rates@.len(),
            final(self).fx_map() == apply_batch(
                old(self).fx_map(),
                fx_models(rates@),
                |b: FxModel| fx_key(b),
                |e: FxModel, inc: FxModel| spec_merge_fx(e, inc),
            ),
            final(self).tickers_seq() == old(self).tickers_seq(),
            final(self).bars_seq() == old(self).bars_seq(),
            final(self).runs_seq() == old(self).runs_seq(),
            final(self).spec_schema_version() == old(self).spec_schema_version(),
    {
        let mut i: usize = 0;
        proof {
            assert(fx_models(rates@.take(0)) =~= Seq::<FxModel>::empty());
        }
        while i < rates.len()
            invariant
                i <= rates@.len(),
                self.wf(),
                self.fx_map() == apply_batch(
                    old(self).fx_map(),
                    fx_models(rates@.take(i as int)),
                    |b: FxModel| fx_key(b),
                    |e: FxModel, inc: FxModel| spec_merge_fx(e, inc),
                ),
                self.tickers_seq() == old(self).tickers_seq(),
                self.bars_seq() == old(self).bars_seq(),
                self.runs_seq() == old(self).runs_seq(),
                self.spec_schema_version() == old(self).spec_schema_version(),
            decreases rates@.len() - i,
        {
            let ghost key = |b: FxModel| fx_key(b);
            let ghost merge = |e: FxModel, inc: FxModel| spec_merge_fx(e, inc);
            let ghost pre = fx_models(rates@.take(i as int));
            let ghost post = fx_models(rates@.take(i + 1));
            let ghost seq0 = self.fx_seq();
            proof {
                assert(post.drop_last() =~= pre);
                assert(post.last() == rates@[i as int]@);
            }
            let b = &rates[i];
            match find_fx_idx(&self.fx, &b.pair, b.date) {
                Some(idx) => {
                    let merged = merge_fx(&self.fx[idx], b);
                    proof {
                        assert(key(seq0[idx as int]) == fx_key(b@));
                        lemma_map_of_contains(seq0, key, fx_key(b@));
                        lemma_map_of_index(seq0, key, idx as int);
                        lemma_map_of_update(seq0, key, idx as int, merged@);
                        assert(key(merged@) == key(seq0[idx as int]));
                    }
                    self.fx.set(idx, merged);
                    proof {
                        assert(self.fx_seq() =~= seq0.update(idx as int, merged@));
                        assert(unique_keys(self.fx_seq(), key)) by {
                            assert(forall|p: int|
                                0 <= p < seq0.len() && p != idx ==> self.fx_seq()[p]
                                    == seq0[p]);
                        }
                        assert(self.fx_map() == apply_one(
                            map_of(seq0, key),
                            post.last(),
                            key,
                            merge,
                        ));
                        assert(self.fx_map() == apply_batch(
                            old(self).fx_map(),
                            post,
                            key,
                            merge,
                        ));
                    }
                },
                None => {
                    proof {
                        lemma_map_of_contains(seq0, key, fx_key(rates@[i as int]@));
                        assert forall|p: int| 0 <= p < seq0.len() implies #[trigger] key(
                            seq0[p],
                        ) != fx_key(rates@[i as int]@) by {
                            assert(seq0[p].pair == self.fx@[p]@.pair);
                        }
                        assert(!map_of(seq0, key).dom().contains(fx_key(rates@[i as int]@)));
                    }
                    let copy = clone_fx(b);
                    self.fx.push(copy);
                    proof {
                        assert(self.fx_seq() =~= seq0.push(rates@[i as int]@));
                        assert(self.fx_seq().drop_last() =~= seq0);
                        assert(unique_keys(self.fx_seq(), key)) by {
                            assert(forall|p: int|
                                0 <= p < seq0.len() ==> self.fx_seq()[p] == seq0[p]);
                        }
                        assert(self.fx_map() == map_of(seq0, key).insert(
                            fx_key(rates@[i as int]@),
                            rates@[i as int]@,
                        ));
                        assert(self.fx_map() == apply_one(
                            map_of(seq0, key),
                            post.last(),
                            key,
                            merge,
                        ));
                        assert(self.fx_map() == apply_batch(
                            old(self).fx_map(),
                            post,
                            key,
                            merge,
                        ));
                    }
                },
            }
            i = i + 1;
        }
        proof {
            assert(rates@.take(rates@.len() as int) =~= rates@);
        }
        Ok(rates.len())
    }

    /// Upsert a batch of tickers, in order.  New symbols are inserted; an
    /// existing symbol is merged by [`spec_merge_ticker`].  Returns the
    /// number of records handed in.
    pub fn upsert_tickers(&mut self, tickers: &Vec<Ticker>) -> (r: Result<usize, StorageError>)
        requires
            old(self).wf(),
        ensures
            final(self).wf(),
            r is Ok,
            r->Ok_0 == tickers@.len(),
            final(self).tickers_map() == apply_batch(
                old(self).tickers_map(),
                ticker_models(tickers@),
                |t: TickerModel| ticker_key(t),
                |e: TickerModel, inc: TickerModel| spec_merge_ticker(e, inc),
            ),
            final(self).bars_seq() == old(self).bars_seq(),
            final(self).fx_seq() == old(self).fx_seq(),
            final(self).runs_seq() == old(self).runs_seq(),
            final(self).spec_schema_version() == old(self).spec_schema_version(),
    {
        let mut i: usize = 0;
        proof {
            assert(ticker_models(tickers@.take(0)) =~= Seq::<TickerModel>::empty());
        }
        while i < tickers.len()
            invariant
                i <= tickers@.len(),
                self.wf(),
                self.tickers_map() == apply_batch(
                    old(self).tickers_map(),
                    ticker_models(tickers@.take(i as int)),
                    |t: TickerModel| ticker_key(t),
                    |e: TickerModel, inc: TickerModel| spec_merge_ticker(e, inc),
                ),
                self.bars_seq() == old(self).bars_seq(),
                self.fx_seq() == old(self).fx_seq(),
                self.runs_seq() == old(self).runs_seq(),
                self.spec_schema_version() == old(self).spec_schema_version(),
            decreases tickers@.len() - i,
        {
            let ghost key = |t: TickerModel| ticker_key(t);
            let ghost merge = |e: TickerModel, inc: TickerModel| spec_merge_ticker(e, inc);
            let ghost pre = ticker_models(tickers@.take(i as int));
            let ghost post = ticker_models(tickers@.take(i + 1));
            let ghost seq0 = self.tickers_seq();
            proof {
                assert(post.drop_last() =~= pre);
                assert(post.last() == tickers@[i as int]@);
            }
            let t = &tickers[i];
            match find_ticker_idx(&self.tickers, &t.symbol) {
                Some(idx) => {
                    let merged = merge_ticker(&self.tickers[idx], t);
                    proof {
                        assert(key(seq0[idx as int]) == ticker_key(t@));
                        lemma_map_of_contains(seq0, key, ticker_key(t@));
                        lemma_map_of_index(seq0, key, idx as int);
                        lemma_map_of_update(seq0, key, idx as int, merged@);
                        assert(key(merged@) == key(seq0[idx as int]));
                    }
                    self.tickers.set(idx, merged);
                    proof {
                        assert(self.tickers_seq() =~= seq0.update(idx as int, merged@));
                        assert(unique_keys(self.tickers_seq(), key)) by {
                            assert(forall|p: int|
                                0 <= p < seq0.len() && p != idx ==> self.tickers_seq()[p]
                                    == seq0[p]);
                        }
                        assert(self.tickers_map() == apply_one(
                            map_of(seq0, key),
                            post.last(),
                            key,
                            merge,
                        ));
                        assert(self.tickers_map() == apply_batch(
                            old(self).tickers_map(),
                            post,
                            key,
                            merge,
                        ));
                    }
                },
                None => {
                    proof {
                        lemma_map_of_contains(seq0, key, ticker_key(tickers@[i as int]@));
                        assert forall|p: int| 0 <= p < seq0.len() implies #[trigger] key(
                            seq0[p],
                        ) != ticker_key(tickers@[i as int]@) by {
                            assert(seq0[p].symbol == self.tickers@[p]@.symbol);
                        }
                        assert(!map_of(seq0, key).dom().contains(
                            ticker_key(tickers@[i as int]@),
                        ));
                    }
                    let copy = clone_ticker(t);
                    self.tickers.push(copy);
                    proof {
                        assert(self.tickers_seq() =~= seq0.push(tickers@[i as int]@));
                        assert(self.tickers_seq().drop_last() =~= seq0);
                        assert(unique_keys(self.tickers_seq(), key)) by {
                            assert(forall|p: int|
                                0 <= p < seq0.len() ==> self.tickers_seq()[p] == seq0[p]);
                        }
                        assert(self.tickers_map() == map_of(seq0, key).insert(
                            ticker_key(tickers@[i as int]@),
                            tickers@[i as int]@,
                        ));
                        assert(self.tickers_map() == apply_one(
                            map_of(seq0, key),
                            post.last(),
                            key,
                            merge,
                        ));
                        assert(self.tickers_map() == apply_batch(
                            old(self).tickers_map(),
                            post,
                            key,
                            merge,
                        ));
                    }
                },
            }
            i = i + 1;
        }
        proof {
            assert(tickers@.take(tickers@.len() as int) =~= tickers@);
        }
        Ok(tickers.len())
    }

    /// The stored bar for a (symbol, date) key, if any.
    pub fn get_bar(&self, symbol: &str, date: Date) -> (r: Option<DailyBar>)
        requires
            self.wf(),
        ensures
            match r {
                Some(b) => self.bars_map().dom().contains((symbol@, date)) && b@
                    == self.bars_map()[(symbol@, date)],
                None => !self.bars_map().dom().contains((symbol@, date)),
            },
    {
        let owned = String::from_str(symbol);
        let ghost key = |b: BarModel| bar_key(b);
        proof {
            lemma_map_of_contains(self.bars_seq(), key, (symbol@, date));
        }
        match find_bar_idx(&self.bars, &owned, date) {
            Some(i) => {
                proof {
                    assert(key(self.bars_seq()[i as int]) == (symbol@, date));
                    lemma_map_of_index(self.bars_seq(), key, i as int);
                }
                Some(clone_bar(&self.bars[i]))
            },
            None => {
                proof {
                    assert forall|p: int| 0 <= p < self.bars_seq().len() implies #[trigger] key(
                        self.bars_seq()[p],
                    ) != (symbol@, date) by {
                        assert(self.bars_seq()[p] == self.bars@[p]@);
                    }
                }
                None
            },
        }
    }

    /// The stored FX rate for a (pair, date) key, if any.
    pub fn get_fx(&self, pair: &str, date: Date) -> (r: Option<FxRate>)
        requires
            self.wf(),
        ensures
            match r {
                Some(b) => self.fx_map().dom().contains((pair@, date)) && b@ == self.fx_map()[
                    (pair@, date)
                ],
                None => !self.fx_map().dom().contains((pair@, date)),
            },
    {
        let owned = String::from_str(pair);
        let ghost key = |b: FxModel| fx_key(b);
        proof {
            lemma_map_of_contains(self.fx_seq(), key, (pair@, date));
        }
        match find_fx_idx(&self.fx, &owned, date) {
            Some(i) => {
                proof {
                    assert(key(self.fx_seq()[i as int]) == (pair@, date));
                    lemma_map_of_index(self.fx_seq(), key, i as int);
                }
                Some(clone_fx(&self.fx[i]))
            },
            None => {
                proof {
                    assert forall|p: int| 0 <= p < self.fx_seq().len() implies #[trigger] key(
                        self.fx_seq()[p],
                    ) != (pair@, date) by {
                        assert(self.fx_seq()[p] == self.fx@[p]@);
                    }
                }
                None
            },
        }
    }

    /// The stored ticker for a symbol, if any.
    pub fn get_ticker(&self, symbol: &str) -> (r: Option<Ticker>)
        requires
            self.wf(),
        ensures
            match r {
                Some(t) => self.tickers_map().dom().contains(symbol@) && t@
                    == self.tickers_map()[symbol@],
                None => !self.tickers_map().dom().contains(symbol@),
            },
    {
        let owned = String::from_str(symbol);
        let ghost key = |t: TickerModel| ticker_key(t);
        proof {
            lemma_map_of_contains(self.tickers_seq(), key, symbol@);
        }
        match find_ticker_idx(&self.tickers, &owned) {
            Some(i) => {
                proof {
                    assert(key(self.tickers_seq()[i as int]) == symbol@);
                    lemma_map_of_index(self.tickers_seq(), key, i as int);
                }
                Some(clone_ticker(&self.tickers[i]))
            },
            None => {
                proof {
                    assert forall|p: int| 0 <= p < self.tickers_seq().len() implies #[trigger] key(
                        self.tickers_seq()[p],
                    ) != symbol@ by {
                        assert(self.tickers_seq()[p] == self.tickers@[p]@);
                    }
                }
                None
            },
        }
    }

    /// The audit record with the given identifier, if any.
    pub fn get_run(&self, run_id: i64) -> (r: Option<ScrapeRun>)
        requires
            self.wf(),
        ensures
            match r {
                Some(run) => 1 <= run_id <= self.runs_seq().len() && run@ == self.runs_seq()[
                    run_id - 1
                ],
                None => !(1 <= run_id <= self.runs_seq().len()),
            },
    {
        if run_id < 1 || run_id > self.runs.len() as i64 {
            return None;
        }
        let idx = (run_id - 1) as usize;
        let run = &self.runs[idx];
        Some(
            ScrapeRun {
                id: run.id,
                started_at: run.started_at,
                finished_at: run.finished_at,
                status: run.status,
                tickers_processed: run.tickers_processed,
                bars_inserted: run.bars_inserted,
                error_msg: clone_opt_string(&run.error_msg),
            },
        )
    }

    /// Number of stored bars.
    pub fn bar_count(&self) -> (r: Result<i64, StorageError>)
        ensures
            r is Ok,
            r->Ok_0 == self.bars_seq().len() as i64,
    {
        Ok(self.bars.len() as i64)
    }

    /// Number of stored tickers.
    pub fn ticker_count(&self) -> (r: Result<i64, StorageError>)
        ensures
            r is Ok,
            r->Ok_0 == self.tickers_seq().len() as i64,
    {
        Ok(self.tickers.len() as i64)
    }

    /// Number of stored FX rates.
    pub fn fx_count(&self) -> (r: Result<i64, StorageError>)
        ensures
            r is Ok,
            r->Ok_0 == self.fx_seq().len() as i64,
    {
        Ok(self.fx.len() as i64)
    }

    /// The latest date stored for a symbol; absent when the symbol has no
    /// bars.
    pub fn latest_date_for_symbol(&self, symbol: &str) -> (r: Result<
        Option<Date>,
        StorageError,
    >)
        ensures
            r is Ok,
            match r->Ok_0 {
                Some(d) => (exists|i: int|
                    0 <= i < self.bars_seq().len() && #[trigger] self.bars_seq()[i].symbol
                        == symbol@ && self.bars_seq()[i].date == d) && (forall|i: int|
                    0 <= i < self.bars_seq().len() && #[trigger] self.bars_seq()[i].symbol
                        == symbol@ ==> self.bars_seq()[i].date.spec_le(d)),
                None => forall|i: int|
                    0 <= i < self.bars_seq().len() ==> #[trigger] self.bars_seq()[i].symbol
                        != symbol@,
            },
    {
        let owned = String::from_str(symbol);
        let mut best: Option<Date> = None;
        let mut i: usize = 0;
        while i < self.bars.len()
            invariant
                i <= self.bars@.len(),
                match best {
                    Some(d) => (exists|p: int|
                        0 <= p < i && #[trigger] self.bars_seq()[p].symbol == symbol@
                            && self.bars_seq()[p].date == d) && (forall|p: int|
                        0 <= p < i && #[trigger] self.bars_seq()[p].symbol == symbol@
                            ==> self.bars_seq()[p].date.spec_le(d)),
                    None => forall|p: int|
                        0 <= p < i ==> #[trigger] self.bars_seq()[p].symbol != symbol@,
                },
                owned@ == symbol@,
        decreases self.bars@.len() - i,
        {
            if self.bars[i].symbol == owned {
                let d = self.bars[i].date;
                proof {
                    assert(self.bars_seq()[i as int] == self.bars@[i as int]@);
                    assert(self.bars_seq()[i as int].symbol == symbol@);
                    assert(self.bars_seq()[i as int].date == d);
                }
                match &best {
                    Some(cur) => {
                        proof {
                            lemma_date_le_order(*cur, d);
                            if !cur.spec_le(d) {
                                assert(d.spec_le(*cur));
                            }
                        }
                        if cur.le(&d) {
                            let ghost c0 = *cur;
                            best = Some(d);
                            proof {
                                assert forall|p: int|
                                    0 <= p < i + 1 && #[trigger] self.bars_seq()[p].symbol
                                        == symbol@ implies self.bars_seq()[p].date.spec_le(
                                    d,
                                ) by {
                                    if p < i {
                                        lemma_date_le_trans(self.bars_seq()[p].date, c0, d);
                                    }
                                }
                            }
                        }
                    },
                    None => {
                        best = Some(d);
                        proof {
                            assert(d.spec_le(d));
                        }
                    },
                }
            } else {
                proof {
                    assert(self.bars_seq()[i as int].symbol != symbol@);
                }
            }
            i = i + 1;
        }
        Ok(best)
    }

    /// The earliest and latest bar dates; both absent when no bars are
    /// stored.
    pub fn date_range(&self) -> (r: Result<(Option<Date>, Option<Date>), StorageError>)
        ensures
            r is Ok,
            match r->Ok_0.0 {
                Some(d) => (exists|i: int|
                    0 <= i < self.bars_seq().len() && #[trigger] self.bars_seq()[i].date == d)
                    && (forall|i: int|
                    0 <= i < self.bars_seq().len() ==> d.spec_le(
                        #[trigger] self.bars_seq()[i].date,
                    )),
                None => self.bars_seq().len() == 0,
            },
            match r->Ok_0.1 {
                Some(d) => (exists|i: int|
                    0 <= i < self.bars_seq().len() && #[trigger] self.bars_seq()[i].date == d)
                    && (forall|i: int|
                    0 <= i < self.bars_seq().len() ==> (#[trigger] self.bars_seq()[i].date)
                        .spec_le(d)),
                None => self.bars_seq().len() == 0,
            },
    {
        let mut dates: Vec<Date> = Vec::new();
        let mut i: usize = 0;
        while i < self.bars.len()
            invariant
                i <= self.bars@.len(),
                dates@.len() == i,
                forall|p: int| 0 <= p < i ==> #[trigger] dates@[p] == self.bars_seq()[p].date,
            decreases self.bars@.len() - i,
        {
            dates.push(self.bars[i].date);
            i = i + 1;
        }
        let r = date_min_max(&dates);
        proof {
            assert(dates@.len() == self.bars_seq().len());
            if let Some(d) = r.0 {
                let p = choose|p: int| 0 <= p < dates@.len() && #[trigger] dates@[p] == d;
                assert(self.bars_seq()[p].date == d);
                assert forall|i2: int| 0 <= i2 < self.bars_seq().len() implies d.spec_le(
                    #[trigger] self.bars_seq()[i2].date,
                ) by {
                    assert(dates@[i2] == self.bars_seq()[i2].date);
                }
            }
            if let Some(d) = r.1 {
                let p = choose|p: int| 0 <= p < dates@.len() && #[trigger] dates@[p] == d;
                assert(self.bars_seq()[p].date == d);
                assert forall|i2: int| 0 <= i2 < self.bars_seq().len() implies (
                #[trigger] self.bars_seq()[i2].date).spec_le(d) by {
                    assert(dates@[i2] == self.bars_seq()[i2].date);
                }
            }
        }
        Ok(r)
    }

    /// The earliest and latest FX dates; both absent when no rates are
    /// stored.
    pub fn fx_date_range(&self) -> (r: Result<(Option<Date>, Option<Date>), StorageError>)
        ensures
            r is Ok,
            match r->Ok_0.0 {
                Some(d) => (exists|i: int|
                    0 <= i < self.fx_seq().len() && #[trigger] self.fx_seq()[i].date == d) && (
                forall|i: int|
                    0 <= i < self.fx_seq().len() ==> d.spec_le(#[trigger] self.fx_seq()[i].date)),
                None => self.fx_seq().len() == 0,
            },
            match r->Ok_0.1 {
                Some(d) => (exists|i: int|
                    0 <= i < self.fx_seq().len() && #[trigger] self.fx_seq()[i].date == d) && (
                forall|i: int|
                    0 <= i < self.fx_seq().len() ==> (#[trigger] self.fx_seq()[i].date).spec_le(
                        d,
                    )),
                None => self.fx_seq().len() == 0,
            },
    {
        let mut dates: Vec<Date> = Vec::new();
        let mut i: usize = 0;
        while i < self.fx.len()
            invariant
                i <= self.fx@.len(),
                dates@.len() == i,
                forall|p: int| 0 <= p < i ==> #[trigger] dates@[p] == self.fx_seq()[p].date,
            decreases self.fx@.len() - i,
        {
            dates.push(self.fx[i].date);
            i = i + 1;
        }
        let r = date_min_max(&dates);
        proof {
            assert(dates@.len() == self.fx_seq().len());
            if let Some(d) = r.0 {
                let p = choose|p: int| 0 <= p < dates@.len() && #[trigger] dates@[p] == d;
                assert(self.fx_seq()[p].date == d);
                assert forall|i2: int| 0 <= i2 < self.fx_seq().len() implies d.spec_le(
                    #[trigger] self.fx_seq()[i2].date,
                ) by {
                    assert(dates@[i2] == self.fx_seq()[i2].date);
                }
            }
            if let Some(d) = r.1 {
                let p = choose|p: int| 0 <= p < dates@.len() && #[trigger] dates@[p] == d;
                assert(self.fx_seq()[p].date == d);
                assert forall|i2: int| 0 <= i2 < self.fx_seq().len() implies (
                #[trigger] self.fx_seq()[i2].date).spec_le(d) by {
                    assert(dates@[i2] == self.fx_seq()[i2].date);
                }
            }
        }
        Ok(r)
    }

    /// All stored symbols, sorted.
    pub fn list_symbols(&self) -> (r: Result<Vec<String>, StorageError>)
        ensures
            r is Ok,
            str_views(r->Ok_0@).to_multiset() == symbol_views(self.spec_tickers()).to_multiset(),
            forall|i: int, j: int|
                0 <= i < j < r->Ok_0@.len() ==> lex_le(
                    #[trigger] r->Ok_0@[i]@,
                    #[trigger] r->Ok_0@[j]@,
                ),
    {
        let mut rest: Vec<String> = Vec::new();
        let mut i: usize = 0;
        while i < self.tickers.len()
            invariant
                i <= self.tickers@.len(),
                str_views(rest@) == symbol_views(self.tickers@.take(i as int)),
            decreases self.tickers@.len() - i,
        {
            let ghost before = rest@;
            let sym = self.tickers[i].symbol.clone();
            rest.push(sym);
            i = i + 1;
            proof {
                assert(str_views(before).len() == before.len());
                assert(symbol_views(self.tickers@.take(i - 1)).len() == i - 1);
                assert(before.len() == i - 1);
                assert(rest@.len() == i);
                assert(rest@.last()@ == self.tickers@[i - 1].symbol@);
                assert forall|j: int|
                    0 <= j < i implies str_views(rest@)[j] == symbol_views(
                    self.tickers@.take(i as int),
                )[j] by {
                    if j < i - 1 {
                        assert(rest@[j] == before[j]);
                        assert(str_views(before)[j] == symbol_views(
                            self.tickers@.take(i - 1),
                        )[j]);
                    }
                }
                assert(str_views(rest@) =~= symbol_views(self.tickers@.take(i as int)));
            }
        }
        proof {
            assert(self.tickers@.take(self.tickers@.len() as int) =~= self.tickers@);
            assert(str_views(rest@) =~= symbol_views(self.tickers@));
        }
        let mut out: Vec<String> = Vec::new();
        proof {
            broadcast use vstd::seq_lib::group_to_multiset_ensures;

            assert(str_views(out@) =~= Seq::<Seq<char>>::empty());
            assert(str_views(out@).to_multiset().add(str_views(rest@).to_multiset())
                =~= symbol_views(self.tickers@).to_multiset());
        }
        while rest.len() > 0
            invariant
                str_views(out@).to_multiset().add(str_views(rest@).to_multiset())
                    == symbol_views(self.tickers@).to_multiset(),
                forall|i: int, j: int|
                    0 <= i < j < out@.len() ==> lex_le(#[trigger] out@[i]@, #[trigger] out@[j]@),
                forall|i: int, j: int|
                    0 <= i < out@.len() && 0 <= j < rest@.len() ==> lex_le(
                        #[trigger] out@[i]@,
                        #[trigger] rest@[j]@,
                    ),
            decreases rest@.len(),
        {
            let mut mi: usize = 0;
            let mut k: usize = 1;
            proof {
                crate::text::lemma_lex_le_refl(rest@[0]@);
            }
            while k < rest.len()
                invariant
                    mi < k <= rest@.len(),
                    rest@.len() > 0,
                    forall|j: int| 0 <= j < k ==> lex_le(rest@[mi as int]@, #[trigger] rest@[j]@),
                decreases rest@.len() - k,
            {
                if str_le(rest[k].as_str(), rest[mi].as_str()) {
                    proof {
                        assert forall|j: int| 0 <= j < k + 1 implies lex_le(
                            rest@[k as int]@,
                            #[trigger] rest@[j]@,
                        ) by {
                            if j < k {
                                crate::text::lemma_lex_le_trans(
                                    rest@[k as int]@,
                                    rest@[mi as int]@,
                                    rest@[j]@,
                                );
                            } else {
                                crate::text::lemma_lex_le_refl(rest@[k as int]@);
                            }
                        }
                    }
                    mi = k;
                } else {
                    proof {
                        crate::text::lemma_lex_le_total(rest@[k as int]@, rest@[mi as int]@);
                    }
                }
                k = k + 1;
            }
            let ghost old_out = out@;
            let ghost old_rest = rest@;
            let s = rest.remove(mi);
            out.push(s);
            proof {
                broadcast use vstd::seq_lib::group_to_multiset_ensures;

                assert(str_views(out@) =~= str_views(old_out).push(out@.last()@));
                assert(str_views(rest@) =~= str_views(old_rest).remove(mi as int));
                assert(str_views(old_rest)[mi as int] == old_rest[mi as int]@);
                assert(str_views(out@).to_multiset() =~= str_views(old_out).to_multiset()
                    .insert(old_rest[mi as int]@));
                assert(str_views(rest@).to_multiset() =~= str_views(old_rest).to_multiset()
                    .remove(old_rest[mi as int]@));
                assert(str_views(old_rest).to_multiset().count(old_rest[mi as int]@) > 0);
                assert(str_views(out@).to_multiset().add(str_views(rest@).to_multiset())
                    =~= str_views(old_out).to_multiset().add(str_views(old_rest).to_multiset()));
                assert forall|i2: int, j2: int|
                    0 <= i2 < out@.len() && 0 <= j2 < rest@.len() implies lex_le(
                    #[trigger] out@[i2]@,
                    #[trigger] rest@[j2]@,
                ) by {
                    let orig = if j2 < mi {
                        j2
                    } else {
                        j2 + 1
                    };
                    assert(rest@[j2] == old_rest[orig]);
                    if i2 < out@.len() - 1 {
                        assert(out@[i2] == old_out[i2]);
                    } else {
                        assert(out@[i2] == old_rest[mi as int]);
                    }
                }
            }
        }
        proof {
            broadcast use vstd::seq_lib::group_to_multiset_ensures;

            assert(str_views(rest@).to_multiset() =~= Multiset::<Seq<char>>::empty());
            assert(str_views(out@).to_multiset().add(Multiset::<Seq<char>>::empty())
                =~= str_views(out@).to_multiset());
        }
        Ok(out)
    }

    /// The stored tickers, as a ghost sequence of records.
    pub closed spec fn spec_tickers(self) -> Seq<Ticker> {
        self.tickers@
    }

    /// Open an audit record for a new run: status running, counts zero.
    /// Returns the new run's identifier, one above the last.
    pub fn begin_scrape_run(&mut self) -> (r: Result<i64, StorageError>)
        requires
            old(self).wf(),
            old(self).runs_seq().len() + 1 <= i64::MAX,
        ensures
            final(self).wf(),
            r is Ok,
            r->Ok_0 == old(self).runs_seq().len() + 1,
            final(self).runs_seq().len() == old(self).runs_seq().len() + 1,
            final(self).runs_seq().drop_last() == old(self).runs_seq(),
            ({
                let run = final(self).runs_seq().last();
                &&& run.id == r->Ok_0
                &&& run.status == RunStatus::Running
                &&& run.finished_at is None
                &&& run.tickers_processed == 0
                &&& run.bars_inserted == 0
                &&& run.error_msg is None
            }),
            final(self).tickers_seq() == old(self).tickers_seq(),
            final(self).bars_seq() == old(self).bars_seq(),
            final(self).fx_seq() == old(self).fx_seq(),
            final(self).spec_schema_version() == old(self).spec_schema_version(),
    {
        let id = (self.runs.len() as i64) + 1;
        let run = ScrapeRun {
            id,
            started_at: crate::clock::now_millis(),
            finished_at: None,
            status: RunStatus::Running,
            tickers_processed: 0,
            bars_inserted: 0,
            error_msg: None,
        };
        let ghost seq0 = self.runs_seq();
        self.runs.push(run);
        proof {
            assert(self.runs_seq() =~= seq0.push(self.runs@.last()@));
            assert(self.runs_seq().drop_last() =~= seq0);
        }
        Ok(id)
    }

    /// Close an audit record: set the finish time, final counts, and the
    /// status — success without an error summary, error with one.  A run
    /// identifier that is not in the log (such as the null identifier zero)
    /// leaves the log unchanged.
    pub fn finish_scrape_run(
        &mut self,
        run_id: i64,
        tickers: usize,
        bars: usize,
        error: Option<&str>,
    ) -> (r: Result<(), StorageError>)
        requires
            old(self).wf(),
        ensures
            final(self).wf(),
            r is Ok,
            1 <= run_id <= old(self).runs_seq().len() ==> {
                &&& final(self).runs_seq().len() == old(self).runs_seq().len()
                &&& forall|j: int|
                    0 <= j < old(self).runs_seq().len() && j != run_id - 1
                        ==> #[trigger] final(self).runs_seq()[j] == old(self).runs_seq()[j]
                &&& final(self).runs_seq()[run_id - 1].id == run_id
                &&& final(self).runs_seq()[run_id - 1].started_at == old(self).runs_seq()[run_id
                    - 1].started_at
                &&& final(self).runs_seq()[run_id - 1].finished_at is Some
                &&& final(self).runs_seq()[run_id - 1].status == (if error is None {
                    RunStatus::Success
                } else {
                    RunStatus::Error
                })
                &&& final(self).runs_seq()[run_id - 1].tickers_processed == tickers
                &&& final(self).runs_seq()[run_id - 1].bars_inserted == bars
                &&& final(self).runs_seq()[run_id - 1].error_msg == (match error {
                    Some(e) => Some(e@),
                    None => None,
                })
            },
            !(1 <= run_id <= old(self).runs_seq().len()) ==> final(self).runs_seq() == old(
                self,
            ).runs_seq(),
            final(self).tickers_seq() == old(self).tickers_seq(),
            final(self).bars_seq() == old(self).bars_seq(),
            final(self).fx_seq() == old(self).fx_seq(),
            final(self).spec_schema_version() == old(self).spec_schema_version(),
    {
        if run_id < 1 || run_id > self.runs.len() as i64 {
            return Ok(());
        }
        let idx = (run_id - 1) as usize;
        let now = crate::clock::now_millis();
        let msg: Option<String> = match error {
            Some(e) => Some(String::from_str(e)),
            None => None,
        };
        let status = if msg.is_none() {
            RunStatus::Success
        } else {
            RunStatus::Error
        };
        let started = self.runs[idx].started_at;
        let updated = ScrapeRun {
            id: run_id,
            started_at: started,
            finished_at: Some(now),
            status,
            tickers_processed: tickers,
            bars_inserted: bars,
            error_msg: msg,
        };
        let ghost seq0 = self.runs_seq();
        self.runs.set(idx, updated);
        proof {
            assert(self.runs_seq() =~= seq0.update(idx as int, self.runs@[idx as int]@));
        }
        Ok(())
    }
}

/// Find the index of the bar with the given (symbol, date), if any.
fn find_bar_idx(bars: &Vec<DailyBar>, symbol: &String, date: Date) -> (r: Option<usize>)
    ensures
        match r {
            Some(i) => i < bars@.len() && bars@[i as int]@.symbol == symbol@ && bars@[
                i as int
            ]@.date == date,
            None => forall|i: int|
                0 <= i < bars@.len() ==> #[trigger] bar_key(bars@[i]@) != (symbol@, date),
        },
{
    let mut i: usize = 0;
    while i < bars.len()
        invariant
            i <= bars@.len(),
            forall|p: int| 0 <= p < i ==> #[trigger] bar_key(bars@[p]@) != (symbol@, date),
        decreases bars@.len() - i,
    {
        if bars[i].symbol == *symbol && bars[i].date == date {
            return Some(i);
        }
        proof {
            assert(bar_key(bars@[i as int]@) != (symbol@, date));
        }
        i = i + 1;
    }
    None
}

/// Copy a bar.
fn clone_bar(b: &DailyBar) -> (r: DailyBar)
    ensures
        r@ == b@,
{
    DailyBar {
        symbol: b.symbol.clone(),
        date: b.date,
        open: b.open,
        high: b.high,
        low: b.low,
        close: b.close,
        change_pct: b.change_pct,
        volume: b.volume,
        scraped_at: b.scraped_at,
    }
}


/// Find the index of the rate with the given (pair, date), if any.
fn find_fx_idx(rates: &Vec<FxRate>, pair: &String, date: Date) -> (r: Option<usize>)
    ensures
        match r {
            Some(i) => i < rates@.len() && rates@[i as int]@.pair == pair@ && rates@[
                i as int
            ]@.date == date,
            None => forall|i: int|
                0 <= i < rates@.len() ==> #[trigger] fx_key(rates@[i]@) != (pair@, date),
        },
{
    let mut i: usize = 0;
    while i < rates.len()
        invariant
            i <= rates@.len(),
            forall|p: int| 0 <= p < i ==> #[trigger] fx_key(rates@[p]@) != (pair@, date),
        decreases rates@.len() - i,
    {
        if rates[i].pair == *pair && rates[i].date == date {
            return Some(i);
        }
        proof {
            assert(fx_key(rates@[i as int]@) != (pair@, date));
        }
        i = i + 1;
    }
    None
}

/// Copy an FX rate.
fn clone_fx(b: &FxRate) -> (r: FxRate)
    ensures
        r@ == b@,
{
    FxRate {
        pair: b.pair.clone(),
        date: b.date,
        open: b.open,
        high: b.high,
        low: b.low,
        close: b.close,
        change_pct: b.change_pct,
        source: clone_opt_string(&b.source),
        scraped_at: b.scraped_at,
    }
}

/// Find the index of the ticker with the given symbol, if any.
fn find_ticker_idx(ts: &Vec<Ticker>, symbol: &String) -> (r: Option<usize>)
    ensures
        match r {
            Some(i) => i < ts@.len() && ts@[i as int]@.symbol == symbol@,
            None => forall|i: int|
                0 <= i < ts@.len() ==> #[trigger] ticker_key(ts@[i]@) != symbol@,
        },
{
    let mut i: usize = 0;
    while i < ts.len()
        invariant
            i <= ts@.len(),
            forall|p: int| 0 <= p < i ==> #[trigger] ticker_key(ts@[p]@) != symbol@,
        decreases ts@.len() - i,
    {
        if ts[i].symbol == *symbol {
            return Some(i);
        }
        proof {
            assert(ticker_key(ts@[i as int]@) != symbol@);
        }
        i = i + 1;
    }
    None
}

/// Copy a ticker.
pub fn clone_ticker(t: &Ticker) -> (r: Ticker)
    ensures
        r@ == t@,
{
    Ticker {
        symbol: t.symbol.clone(),
        name: t.name.clone(),
        sector: clone_opt_string(&t.sector),
        industry: clone_opt_string(&t.industry),
        exchange: clone_opt_string(&t.exchange),
        scraped_at: t.scraped_at,
    }
}


/// Totality of the date order.
proof fn lemma_date_le_order(a: Date, b: Date)
    ensures
        a.spec_le(b) || b.spec_le(a),
{
}

/// Transitivity of the date order.
proof fn lemma_date_le_trans(a: Date, b: Date, c: Date)
    requires
        a.spec_le(b),
        b.spec_le(c),
    ensures
        a.spec_le(c),
{
}

/// The least and greatest of a vector of dates.
fn date_min_max(dates: &Vec<Date>) -> (r: (Option<Date>, Option<Date>))
    ensures
        match r.0 {
            Some(d) => (exists|i: int| 0 <= i < dates@.len() && #[trigger] dates@[i] == d) && (
            forall|i: int| 0 <= i < dates@.len() ==> d.spec_le(#[trigger] dates@[i])),
            None => dates@.len() == 0,
        },
        match r.1 {
            Some(d) => (exists|i: int| 0 <= i < dates@.len() && #[trigger] dates@[i] == d) && (
            forall|i: int| 0 <= i < dates@.len() ==> (#[trigger] dates@[i]).spec_le(d)),
            None => dates@.len() == 0,
        },
{
    if dates.len() == 0 {
        return (None, None);
    }
    let mut mn = dates[0];
    let mut mx = dates[0];
    let mut i: usize = 1;
    while i < dates.len()
        invariant
            1 <= i <= dates@.len(),
            exists|p: int| 0 <= p < i && #[trigger] dates@[p] == mn,
            forall|p: int| 0 <= p < i ==> mn.spec_le(#[trigger] dates@[p]),
            exists|p: int| 0 <= p < i && #[trigger] dates@[p] == mx,
            forall|p: int| 0 <= p < i ==> (#[trigger] dates@[p]).spec_le(mx),
        decreases dates@.len() - i,
    {
        let d = dates[i];
        if d.le(&mn) {
            mn = d;
        }
        if mx.le(&d) {
            mx = d;
        }
        i = i + 1;
    }
    (Some(mn), Some(mx))
}

} // verus!
