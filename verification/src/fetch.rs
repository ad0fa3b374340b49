//! Fetch policy: pacing, retry and backoff decisions.
//!
//! The decisions are pure: callers perform the request and the sleeps and
//! hand each attempt's outcome back.  Transient statuses (429, 503) back
//! off exponentially in the attempt number; network-level errors back off
//! linearly; any other non-success status is terminal at once.  Random
//! pacing jitter is drawn by the caller and handed in, so every decision
//! here is a function of its arguments.

use vstd::prelude::*;

use crate::config::ScraperConfig;

verus! {

/// What one fetch attempt produced, as far as the policy cares.
#[derive(Clone, Copy, Debug, PartialEq, Eq, Structural)]
pub enum AttemptOutcome {
    /// A response arrived with this HTTP status.
    HttpStatus(u16),
    /// The request failed below HTTP: timeout, connection error.
    NetworkError,
}

/// What to do after an attempt.
#[derive(Clone, Copy, Debug, PartialEq, Eq, Structural)]
pub enum FetchStep {
    /// The response is good: hand its body to the caller.
    Deliver,
    /// Sleep this many milliseconds, then try again.
    RetryAfter(u64),
    /// Give up: the failure is terminal.
    Fail,
}

/// Statuses that mean success.
pub open spec fn spec_is_success(status: u16) -> bool {
    200 <= status < 300
}

/// Statuses worth retrying: rate limiting and temporary unavailability.
pub open spec fn spec_is_transient(status: u16) -> bool {
    status == 429 || status == 503
}

/// Whether a status means success.
pub fn is_success_status(status: u16) -> (r: bool)
    ensures
        r == spec_is_success(status),
{
    200 <= status && status < 300
}

/// Whether a status is worth retrying.
pub fn is_transient_status(status: u16) -> (r: bool)
    ensures
        r == spec_is_transient(status),
{
    status == 429 || status == 503
}

/// 2^k.
pub open spec fn pow2(k: nat) -> int
    decreases k,
{
    if k == 0 {
        1
    } else {
        2 * pow2((k - 1) as nat)
    }
}

proof fn lemma_pow2_pos(k: nat)
    ensures
        pow2(k) >= 1,
    decreases k,
{
    if k > 0 {
        lemma_pow2_pos((k - 1) as nat);
    }
}

proof fn lemma_pow2_mono(a: nat, b: nat)
    requires
        a <= b,
    ensures
        pow2(a) <= pow2(b),
    decreases b,
{
    if a < b {
        lemma_pow2_mono(a, (b - 1) as nat);
        lemma_pow2_pos((b - 1) as nat);
    }
}

proof fn lemma_pow2_64()
    ensures
        pow2(64) == 0x10000000000000000,
{
    reveal_with_fuel(pow2, 66);
}

/// The smaller of an unbounded delay and the largest representable one.
pub open spec fn capped(v: int) -> int {
    if v > u64::MAX as int {
        u64::MAX as int
    } else {
        v
    }
}

/// Backoff after a transient status on the given attempt (counted from
/// one): base * 2^attempt milliseconds, capped.
pub open spec fn spec_transient_backoff(base: u64, attempt: u64) -> int {
    capped(base * pow2(attempt as nat))
}

/// Backoff after a network error on the given attempt: base * attempt
/// milliseconds, capped.
pub open spec fn spec_network_backoff(base: u64, attempt: u64) -> int {
    capped(base * attempt)
}

/// Compute the transient backoff.
pub fn transient_backoff(base: u64, attempt: u64) -> (r: u64)
    ensures
        r == spec_transient_backoff(base, attempt),
{
    if base == 0 {
        proof {
            lemma_pow2_pos(attempt as nat);
        }
        return 0;
    }
    if attempt >= 64 {
        proof {
            lemma_pow2_mono(64, attempt as nat);
            lemma_pow2_64();
            assert(base * pow2(attempt as nat) >= 1 * pow2(attempt as nat)) by (nonlinear_arith)
                requires
                    base >= 1,
                    pow2(attempt as nat) >= 0,
            ;
        }
        return u64::MAX;
    }
    proof {
        lemma_pow2_mono(attempt as nat, 63);
        lemma_pow2_64();
        assert(pow2(63) == pow2(64) / 2);
        lemma_pow2_pos(attempt as nat);
    }
    let p: u128 = pow2_u128(attempt);
    proof {
        assert((base as int) * pow2(attempt as nat) <= (u64::MAX as int) * pow2(63))
            by (nonlinear_arith)
            requires
                base <= u64::MAX,
                1 <= pow2(attempt as nat) <= pow2(63),
        ;
        assert((base as int) * pow2(attempt as nat) >= 0) by (nonlinear_arith)
            requires
                base >= 0,
                pow2(attempt as nat) >= 1,
        ;
        assert((u64::MAX as int) * pow2(63) < u128::MAX) by {
            lemma_pow2_64();
            assert(pow2(63) == pow2(64) / 2);
        }
    }
    let v: u128 = (base as u128) * p;
    if v > u64::MAX as u128 {
        u64::MAX
    } else {
        v as u64
    }
}

/// 2^k for k < 64.
fn pow2_u128(k: u64) -> (r: u128)
    requires
        k < 64,
    ensures
        r == pow2(k as nat),
{
    let mut r: u128 = 1;
    let mut i: u64 = 0;
    while i < k
        invariant
            i <= k < 64,
            r == pow2(i as nat),
        decreases k - i,
    {
        proof {
            lemma_pow2_mono((i + 1) as nat, 64);
            lemma_pow2_64();
            lemma_pow2_pos(i as nat);
        }
        r = r * 2;
        i = i + 1;
    }
    r
}

/// Compute the network-error backoff.
pub fn network_backoff(base: u64, attempt: u64) -> (r: u64)
    ensures
        r == spec_network_backoff(base, attempt),
{
    proof {
        assert((base as int) * (attempt as int) <= (u64::MAX as int) * (u64::MAX as int))
            by (nonlinear_arith)
            requires
                base <= u64::MAX,
                attempt <= u64::MAX,
        ;
        assert((base as int) * (attempt as int) >= 0) by (nonlinear_arith)
            requires
                base >= 0,
                attempt >= 0,
        ;
    }
    let v: u128 = (base as u128) * (attempt as u128);
    if v > u64::MAX as u128 {
        u64::MAX
    } else {
        v as u64
    }
}

/// The paced delay before a request: the configured base plus the jitter
/// the caller drew, capped.  The jitter must not exceed the configured
/// bound.
pub fn pre_request_delay_ms(config: &ScraperConfig, jitter: u64) -> (r: u64)
    requires
        jitter <= config.jitter_ms,
    ensures
        r == capped(config.request_delay_ms + jitter),
{
    if jitter > u64::MAX - config.request_delay_ms {
        u64::MAX
    } else {
        config.request_delay_ms + jitter
    }
}

/// The retry state of one fetch: which attempt is next.
#[derive(Clone, Copy, Debug)]
pub struct FetchState {
    pub max_retries: u32,
    pub request_delay_ms: u64,
    pub attempt: u64,
}

/// What the policy decides for an outcome on a given attempt.
pub open spec fn spec_decide(s: FetchState, outcome: AttemptOutcome) -> FetchStep {
    match outcome {
        AttemptOutcome::HttpStatus(st) => if spec_is_success(st) {
            FetchStep::Deliver
        } else if spec_is_transient(st) {
            if s.attempt <= s.max_retries {
                FetchStep::RetryAfter(spec_transient_backoff(s.request_delay_ms, s.attempt) as u64)
            } else {
                FetchStep::Fail
            }
        } else {
            FetchStep::Fail
        },
        AttemptOutcome::NetworkError => if s.attempt <= s.max_retries {
            FetchStep::RetryAfter(spec_network_backoff(s.request_delay_ms, s.attempt) as u64)
        } else {
            FetchStep::Fail
        },
    }
}

impl FetchState {
    /// Attempts start at one and never pass max_retries + 1.
    pub open spec fn wf(self) -> bool {
        1 <= self.attempt <= self.max_retries + 2
    }

    /// The state before the first attempt.
    pub fn begin(config: &ScraperConfig) -> (s: FetchState)
        ensures
            s.wf(),
            s.attempt == 1,
            s.max_retries == config.max_retries,
            s.request_delay_ms == config.request_delay_ms,
    {
        FetchState {
            max_retries: config.max_retries,
            request_delay_ms: config.request_delay_ms,
            attempt: 1,
        }
    }

    /// Decide what to do with an attempt's outcome.  A retry is granted
    /// only while the attempt number is within the configured budget, so
    /// at most max_retries + 1 attempts are ever made.
    pub fn decide(&mut self, outcome: AttemptOutcome) -> (step: FetchStep)
        requires
            old(self).wf(),
            old(self).attempt <= old(self).max_retries + 1,
        ensures
            final(self).wf(),
            step == spec_decide(*old(self), outcome),
            final(self).max_retries == old(self).max_retries,
            final(self).request_delay_ms == old(self).request_delay_ms,
            step is RetryAfter ==> final(self).attempt == old(self).attempt + 1
                && old(self).attempt <= old(self).max_retries,
            !(step is RetryAfter) ==> final(self).attempt == old(self).attempt,
    {
        match outcome {
            AttemptOutcome::HttpStatus(st) => {
                if is_success_status(st) {
                    FetchStep::Deliver
                } else if is_transient_status(st) {
                    if self.attempt <= self.max_retries as u64 {
                        let d = transient_backoff(self.request_delay_ms, self.attempt);
                        self.attempt = self.attempt + 1;
                        FetchStep::RetryAfter(d)
                    } else {
                        FetchStep::Fail
                    }
                } else {
                    FetchStep::Fail
                }
            },
            AttemptOutcome::NetworkError => {
                if self.attempt <= self.max_retries as u64 {
                    let d = network_backoff(self.request_delay_ms, self.attempt);
                    self.attempt = self.attempt + 1;
                    FetchStep::RetryAfter(d)
                } else {
                    FetchStep::Fail
                }
            },
        }
    }
}

} // verus!
