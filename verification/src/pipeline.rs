//! Pipeline orchestration: refresh the ticker list, fan out per-symbol
//! fetch+store work under a concurrency bound, and aggregate the outcomes.
//!
//! A single symbol's failure is one counted error and never aborts the run;
//! the run always completes and reports totals.  The fan-out decisions live
//! in [`FetchScheduler`]; a concurrent runner drives it, launching a task
//! whenever the scheduler grants one, so that no more tasks are in flight
//! than the configured bound.

use vstd::prelude::*;

use crate::config::AppConfig;
use crate::models::RunStatus;
use crate::scraper::MarketDataSource;
use crate::scraper::symbols_of_tickers;
use crate::storage::Repository;
use crate::text::u64_to_chars;
use crate::text::string_from_chars;

verus! {

/// Totals of one pipeline run.
#[derive(Clone, Copy, Debug, PartialEq, Eq, Structural)]
pub struct PipelineStats {
    pub tickers_processed: usize,
    pub bars_inserted: usize,
    pub errors: usize,
}

/// A pipeline-level failure: the run could not even begin its fan-out.
#[derive(Debug, Clone)]
pub struct PipelineError {
    pub message: String,
}

/// The outcome of one per-symbol fetch+store task.
#[derive(Clone, Copy, Debug, PartialEq, Eq, Structural)]
pub enum TaskOutcome {
    /// The task stored this many bars.
    Completed(usize),
    /// The task failed: fetch error, store error, or a crashed worker.
    Failed,
}

/// How many outcomes are failures.
pub open spec fn count_failures(outcomes: Seq<TaskOutcome>) -> int
    decreases outcomes.len(),
{
    if outcomes.len() == 0 {
        0
    } else {
        count_failures(outcomes.drop_last()) + (
        if outcomes.last() is Failed {
            1int
        } else {
            0int
        })
    }
}

/// The bars stored by the successful outcomes, capped at the largest
/// representable count.
pub open spec fn total_bars(outcomes: Seq<TaskOutcome>) -> int
    decreases outcomes.len(),
{
    if outcomes.len() == 0 {
        0
    } else {
        let rest = total_bars(outcomes.drop_last());
        let here = match outcomes.last() {
            TaskOutcome::Completed(n) => n as int,
            TaskOutcome::Failed => 0,
        };
        if rest + here > usize::MAX as int {
            usize::MAX as int
        } else {
            rest + here
        }
    }
}

/// Every outcome is a success or a failure: the failures and the successes
/// of a run always account for every symbol.
pub proof fn lemma_outcomes_accounted(outcomes: Seq<TaskOutcome>)
    ensures
        0 <= count_failures(outcomes) <= outcomes.len(),
    decreases outcomes.len(),
{
    if outcomes.len() > 0 {
        lemma_outcomes_accounted(outcomes.drop_last());
    }
}

/// Sum a run's outcomes: the bar total over the successes (capped) and the
/// exact number of failures.
pub fn aggregate_outcomes(outcomes: &Vec<TaskOutcome>) -> (r: (usize, usize))
    ensures
        r.0 == total_bars(outcomes@),
        r.1 == count_failures(outcomes@),
        r.1 <= outcomes@.len(),
{
    let mut bars: usize = 0;
    let mut errors: usize = 0;
    let mut i: usize = 0;
    proof {
        assert(outcomes@.take(0) =~= Seq::<TaskOutcome>::empty());
        lemma_outcomes_accounted(outcomes@.take(0));
    }
    while i < outcomes.len()
        invariant
            i <= outcomes@.len(),
            bars == total_bars(outcomes@.take(i as int)),
            errors == count_failures(outcomes@.take(i as int)),
            errors <= i,
        decreases outcomes@.len() - i,
    {
        proof {
            assert(outcomes@.take(i + 1).drop_last() =~= outcomes@.take(i as int));
            assert(outcomes@.take(i + 1).last() == outcomes@[i as int]);
        }
        match outcomes[i] {
            TaskOutcome::Completed(n) => {
                if n > usize::MAX - bars {
                    bars = usize::MAX;
                } else {
                    bars = bars + n;
                }
            },
            TaskOutcome::Failed => {
                errors = errors + 1;
            },
        }
        i = i + 1;
    }
    proof {
        assert(outcomes@.take(outcomes@.len() as int) =~= outcomes@);
    }
    (bars, errors)
}

// ── Bounded fan-out ─────────────────────────────────────────────────────────
/// The fan-out scheduler: hands out one symbol at a time, never letting
/// more than the configured bound run at once.  A runner launches a task
/// for each granted symbol and reports each completion back.
pub struct FetchScheduler {
    queued: Vec<String>,
    in_flight: usize,
    concurrency: usize,
}

impl FetchScheduler {
    /// Symbols not yet launched, front first.
    pub closed spec fn spec_queued(self) -> Seq<Seq<char>> {
        crate::storage::str_views(self.queued@)
    }

    /// Tasks currently running.
    pub closed spec fn spec_in_flight(self) -> int {
        self.in_flight as int
    }

    /// The configured bound.
    pub closed spec fn spec_concurrency(self) -> int {
        self.concurrency as int
    }

    /// The concurrency bound always holds: never more tasks in flight than
    /// configured.
    pub open spec fn wf(self) -> bool {
        &&& self.spec_concurrency() >= 1
        &&& self.spec_in_flight() <= self.spec_concurrency()
    }

    /// A scheduler over the given symbols with the given bound.
    pub fn new(symbols: Vec<String>, concurrency: usize) -> (s: FetchScheduler)
        requires
            concurrency >= 1,
        ensures
            s.wf(),
            s.spec_queued() == crate::storage::str_views(symbols@),
            s.spec_in_flight() == 0,
            s.spec_concurrency() == concurrency,
    {
        FetchScheduler { queued: symbols, in_flight: 0, concurrency }
    }

    /// Grant the next symbol if a slot is free and work remains; the
    /// granted task counts as in flight until it is reported finished.
    pub fn try_launch(&mut self) -> (r: Option<String>)
        requires
            old(self).wf(),
        ensures
            final(self).wf(),
            final(self).spec_concurrency() == old(self).spec_concurrency(),
            match r {
                Some(sym) => {
                    &&& old(self).spec_in_flight() < old(self).spec_concurrency()
                    &&& old(self).spec_queued().len() > 0
                    &&& sym@ == old(self).spec_queued()[0]
                    &&& final(self).spec_queued() == old(self).spec_queued().drop_first()
                    &&& final(self).spec_in_flight() == old(self).spec_in_flight() + 1
                },
                None => {
                    &&& (old(self).spec_in_flight() == old(self).spec_concurrency() || old(
                        self,
                    ).spec_queued().len() == 0)
                    &&& final(self).spec_queued() == old(self).spec_queued()
                    &&& final(self).spec_in_flight() == old(self).spec_in_flight()
                },
            },
    {
        if self.in_flight >= self.concurrency {
            return None;
        }
        if self.queued.len() == 0 {
            return None;
        }
        let sym = self.queued.remove(0);
        self.in_flight = self.in_flight + 1;
        proof {
            assert(crate::storage::str_views(self.queued@) =~= crate::storage::str_views(
                old(self).queued@,
            ).drop_first());
        }
        Some(sym)
    }

    /// Report one granted task as finished, freeing its slot.
    pub fn task_finished(&mut self)
        requires
            old(self).wf(),
            old(self).spec_in_flight() > 0,
        ensures
            final(self).wf(),
            final(self).spec_in_flight() == old(self).spec_in_flight() - 1,
            final(self).spec_queued() == old(self).spec_queued(),
            final(self).spec_concurrency() == old(self).spec_concurrency(),
    {
        self.in_flight = self.in_flight - 1;
    }

    /// Whether every symbol has been granted and every task has finished.
    pub fn all_done(&self) -> (r: bool)
        ensures
            r == (self.spec_queued().len() == 0 && self.spec_in_flight() == 0),
    {
        self.queued.len() == 0 && self.in_flight == 0
    }
}

/// With a bound of N, no more than N tasks are ever in flight.
pub proof fn lemma_concurrency_bound(s: FetchScheduler)
    requires
        s.wf(),
    ensures
        s.spec_in_flight() <= s.spec_concurrency(),
{
}

// ── The run ─────────────────────────────────────────────────────────────────
/// The pipeline: a configuration and the run it drives.
pub struct Pipeline {
    config: AppConfig,
}

impl Pipeline {
    /// The pipeline's configuration.
    pub closed spec fn spec_config(self) -> AppConfig {
        self.config
    }

    /// A pipeline for a configuration.
    pub fn new(config: AppConfig) -> (p: Pipeline)
        ensures
            p.spec_config() == config,
    {
        Pipeline { config }
    }

    /// One full ingestion run against a data source and a store: refresh
    /// the ticker list and upsert it, fetch and store recent bars for every
    /// symbol — one error per failed symbol, never an abort — and record an
    /// audit entry.  Fails only when the ticker list itself cannot be
    /// fetched; the audit record then stays open.
    pub fn run<S: MarketDataSource>(&self, source: &mut S, repo: &mut Repository) -> (r: Result<
        PipelineStats,
        PipelineError,
    >)
        requires
            old(repo).wf(),
            old(repo).runs_seq().len() + 1 <= i64::MAX,
        ensures
            final(repo).wf(),
            final(repo).runs_seq().len() == old(repo).runs_seq().len() + 1,
            match r {
                Ok(stats) => {
                    &&& stats.errors <= stats.tickers_processed
                    &&& exists|oc: Seq<TaskOutcome>|
                        oc.len() == stats.tickers_processed && stats.errors
                            == #[trigger] count_failures(oc) && stats.bars_inserted == total_bars(
                            oc,
                        )
                    &&& ({
                        let run = final(repo).runs_seq()[old(repo).runs_seq().len() as int];
                        &&& run.tickers_processed == stats.tickers_processed
                        &&& run.bars_inserted == stats.bars_inserted
                        &&& run.status == (if stats.errors == 0 {
                            RunStatus::Success
                        } else {
                            RunStatus::Error
                        })
                        &&& run.finished_at is Some
                    })
                },
                Err(_) => final(repo).runs_seq().last().status == RunStatus::Running,
            },
    {
        if self.config.storage.run_migrations {
            let _ = repo.run_migrations();
        }
        let run_id = match repo.begin_scrape_run() {
            Ok(id) => id,
            Err(_) => 0,
        };
        proof {
            assert(run_id == old(repo).runs_seq().len() + 1);
        }
        let tickers = match source.fetch_ticker_list() {
            Ok(ts) => ts,
            Err(e) => {
                return Err(PipelineError { message: e.message });
            },
        };
        let _ = repo.upsert_tickers(&tickers);
        let symbols = symbols_of_tickers(&tickers);
        let total = symbols.len();
        let conc = if self.config.pipeline.concurrency >= 1 {
            self.config.pipeline.concurrency
        } else {
            1
        };
        let mut sched = FetchScheduler::new(symbols, conc);
        let mut outcomes: Vec<TaskOutcome> = Vec::new();
        let ghost repo_after_tickers = *repo;
        proof {
            assert(repo_after_tickers.runs_seq() =~= old(repo).runs_seq().push(
                repo_after_tickers.runs_seq().last(),
            ));
        }
        loop
            invariant
                repo.wf(),
                sched.wf(),
                sched.spec_in_flight() == 0,
                sched.spec_concurrency() == conc >= 1,
                outcomes@.len() + sched.spec_queued().len() == total,
                repo.runs_seq() == repo_after_tickers.runs_seq(),
                repo_after_tickers.runs_seq() == old(repo).runs_seq().push(
                    repo_after_tickers.runs_seq().last(),
                ),
                repo_after_tickers.runs_seq().last().id == run_id,
                repo_after_tickers.runs_seq().last().status == RunStatus::Running,
                run_id == old(repo).runs_seq().len() + 1,
            ensures
                sched.spec_queued().len() == 0,
                outcomes@.len() == total,
                repo.wf(),
                repo.runs_seq() == repo_after_tickers.runs_seq(),
            decreases sched.spec_queued().len(),
        {
            let sym = match sched.try_launch() {
                Some(s) => s,
                None => {
                    break;
                },
            };
            let outcome = match source.fetch_recent_bars(sym.as_str()) {
                Ok(bars) => match repo.upsert_daily_bars(&bars) {
                    Ok(n) => TaskOutcome::Completed(n),
                    Err(_) => TaskOutcome::Failed,
                },
                Err(_) => TaskOutcome::Failed,
            };
            outcomes.push(outcome);
            sched.task_finished();
        }
        proof {
            assert(outcomes@.len() == total);
        }
        let (bars_inserted, errors) = aggregate_outcomes(&outcomes);
        let stats = PipelineStats { tickers_processed: total, bars_inserted, errors };
        let error_msg: Option<String> = if errors > 0 {
            let msg_chars = u64_to_chars(errors as u64);
            let mut msg = string_from_chars(&msg_chars);
            msg.append(" errors");
            Some(msg)
        } else {
            None
        };
        let _ = match &error_msg {
            Some(m) => repo.finish_scrape_run(run_id, total, bars_inserted, Some(m.as_str())),
            None => repo.finish_scrape_run(run_id, total, bars_inserted, None),
        };
        proof {
            assert(1 <= run_id <= repo_after_tickers.runs_seq().len());
            assert(outcomes@.len() == stats.tickers_processed && stats.errors == count_failures(
                outcomes@,
            ) && stats.bars_inserted == total_bars(outcomes@));
        }
        Ok(stats)
    }
}

} // verus!
