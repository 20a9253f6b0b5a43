//! Bounded retries with exponential backoff.
//!
//! The engine decides; its caller makes the calls and sleeps. After each
//! attempt the caller hands the outcome to `RetryState::on_result` and does
//! what the decision says.

use vstd::prelude::*;
use crate::metrics::{track_retry, wrapped_sum, Metrics};

verus! {

/// The longest backoff, in milliseconds.
pub const MAX_BACKOFF_MS: u64 = 5000;

/// Whether an HTTP status code marks a failure that is worth another attempt.
pub open spec fn retryable_status(status_code: u16) -> bool {
    status_code == 429 || status_code == 500 || status_code == 502 || status_code == 503
        || status_code == 504
}

/// Whether an HTTP status code marks a failure that is worth another attempt:
/// 429, 500, 502, 503 and 504 do.
pub fn is_retryable_error(status_code: u16) -> (retryable: bool)
    ensures
        retryable == retryable_status(status_code),
{
    match status_code {
        500 | 502 | 503 | 504 => true,
        429 => true,
        _ => false,
    }
}

/// A number drawn by chance: `rand::random` with the thread's generator.
#[verifier::external_body]
fn random_number() -> (n: u32) {
    rand::random()
}

/// How one attempt ended.
#[derive(Debug, Clone, Copy, PartialEq, Eq, Structural)]
pub enum Outcome {
    Success,
    /// A failure, and whether it is of a kind that another attempt may mend.
    Failure { retryable: bool },
}

/// What the caller does next.
#[derive(Debug, Clone, Copy, PartialEq, Eq, Structural)]
pub enum RetryDecision {
    /// Hand the last result to the caller's caller.
    Return,
    /// Sleep, then make another attempt. `backoff_ms` is the backoff that
    /// was due, `delay_ms` the time to sleep: the backoff with its jitter.
    Retry { backoff_ms: u64, delay_ms: u64 },
}

/// Where a run of attempts stands.
#[derive(Debug, Clone, Copy, PartialEq, Eq, Structural)]
pub struct RetryState {
    pub max_retries: u32,
    /// The retries made so far.
    pub attempt: u32,
    /// The backoff due before the next retry, in milliseconds.
    pub backoff_ms: u64,
}

/// The backoff that follows `backoff_ms`: twice as long, but at most
/// `MAX_BACKOFF_MS`.
pub open spec fn next_backoff(backoff_ms: u64) -> u64 {
    if 2 * backoff_ms >= MAX_BACKOFF_MS {
        MAX_BACKOFF_MS
    } else {
        (2 * backoff_ms) as u64
    }
}

/// The time to sleep for a backoff of `backoff_ms` with a jitter of
/// `permille` thousandths: the product, rounded down, or `u64::MAX` where it
/// does not fit.
pub open spec fn jittered(backoff_ms: u64, permille: u64) -> u64 {
    if backoff_ms * permille / 1000 <= u64::MAX {
        (backoff_ms * permille / 1000) as u64
    } else {
        u64::MAX
    }
}

impl RetryState {
    /// Whether a retry follows the outcome: after a retryable failure, while
    /// fewer than `max_retries` retries were made, and unless the time that
    /// is left of the request's deadline is less than the backoff.
    pub open spec fn retries(self, outcome: Outcome, remaining_ms: Option<u64>) -> bool {
        &&& outcome == (Outcome::Failure { retryable: true })
        &&& self.attempt < self.max_retries
        &&& match remaining_ms {
            Some(left) => left >= self.backoff_ms,
            None => true,
        }
    }

    /// The state after a retry was decided.
    pub open spec fn advanced(self) -> RetryState {
        RetryState {
            max_retries: self.max_retries,
            attempt: (self.attempt + 1) as u32,
            backoff_ms: next_backoff(self.backoff_ms),
        }
    }

    /// The state after an outcome.
    pub open spec fn after(self, outcome: Outcome, remaining_ms: Option<u64>) -> RetryState {
        if self.retries(outcome, remaining_ms) {
            self.advanced()
        } else {
            self
        }
    }

    /// The number of retries that the engine decides when it is handed the
    /// outcomes of `outcomes` in order, with no deadline, until it decides to
    /// return or the outcomes run out.
    pub open spec fn retries_made(self, outcomes: Seq<Outcome>) -> nat
        decreases outcomes.len(),
    {
        if outcomes.len() == 0 {
            0
        } else if self.retries(outcomes[0], None) {
            1 + self.advanced().retries_made(outcomes.drop_first())
        } else {
            0
        }
    }

    /// The state before the first attempt.
    pub fn new(max_retries: u32, initial_backoff_ms: u64) -> (state: RetryState)
        ensures
            state == (RetryState { max_retries, attempt: 0, backoff_ms: initial_backoff_ms }),
    {
        RetryState { max_retries, attempt: 0, backoff_ms: initial_backoff_ms }
    }

    /// Takes the outcome of an attempt and decides what follows.
    /// `remaining_ms` is the time left until the request's deadline, where it
    /// has one; `permille` is the jitter in thousandths. A retry moves the
    /// state on and is counted for `llm_name`.
    pub fn decide(
        &mut self,
        outcome: Outcome,
        remaining_ms: Option<u64>,
        permille: u64,
        llm_name: &str,
        metrics: &mut Metrics,
    ) -> (decision: RetryDecision)
        ensures
            *final(self) == old(self).after(outcome, remaining_ms),
            decision == if old(self).retries(outcome, remaining_ms) {
                RetryDecision::Retry {
                    backoff_ms: old(self).backoff_ms,
                    delay_ms: jittered(old(self).backoff_ms, permille),
                }
            } else {
                RetryDecision::Return
            },
            if old(self).retries(outcome, remaining_ms) {
                &&& final(metrics).retry_count.differs_at(
                    old(metrics).retry_count,
                    seq![llm_name@],
                    wrapped_sum(old(metrics).retry_count.value(seq![llm_name@]), 1),
                )
                &&& (Metrics { retry_count: old(metrics).retry_count, ..*final(metrics) })
                    == *old(metrics)
            } else {
                *final(metrics) == *old(metrics)
            },
    {
        let retryable = match outcome {
            Outcome::Success => false,
            Outcome::Failure { retryable } => retryable,
        };
        let in_time = match remaining_ms {
            Some(left) => left >= self.backoff_ms,
            None => true,
        };
        if !retryable || self.attempt >= self.max_retries || !in_time {
            return RetryDecision::Return;
        }
        let backoff = self.backoff_ms;
        self.attempt = self.attempt + 1;
        self.backoff_ms = if backoff >= MAX_BACKOFF_MS / 2 {
            MAX_BACKOFF_MS
        } else {
            backoff * 2
        };
        track_retry(metrics, llm_name);
        proof {
            assert(backoff * permille <= 0xffff_ffff_ffff_ffff * 0xffff_ffff_ffff_ffff)
                by (nonlinear_arith)
                requires
                    0 <= backoff <= 0xffff_ffff_ffff_ffff,
                    0 <= permille <= 0xffff_ffff_ffff_ffff,
            ;
        }
        let product: u128 = (backoff as u128) * (permille as u128) / 1000;
        let delay_ms: u64 = if product <= u64::MAX as u128 {
            product as u64
        } else {
            u64::MAX
        };
        RetryDecision::Retry { backoff_ms: backoff, delay_ms }
    }

    /// Takes the outcome of an attempt and decides what follows, with a
    /// jitter drawn by chance between 950 and 1050 thousandths: the time to
    /// sleep lies between 95% and 105% of the backoff.
    pub fn on_result(
        &mut self,
        outcome: Outcome,
        remaining_ms: Option<u64>,
        llm_name: &str,
        metrics: &mut Metrics,
    ) -> (decision: RetryDecision)
        ensures
            *final(self) == old(self).after(outcome, remaining_ms),
            if old(self).retries(outcome, remaining_ms) {
                &&& decision matches RetryDecision::Retry { backoff_ms, delay_ms }
                &&& backoff_ms == old(self).backoff_ms
                &&& exists|permille: u64|
                    950 <= permille <= 1050 && delay_ms == #[trigger] jittered(
                        old(self).backoff_ms,
                        permille,
                    )
                &&& final(metrics).retry_count.differs_at(
                    old(metrics).retry_count,
                    seq![llm_name@],
                    wrapped_sum(old(metrics).retry_count.value(seq![llm_name@]), 1),
                )
                &&& (Metrics { retry_count: old(metrics).retry_count, ..*final(metrics) })
                    == *old(metrics)
            } else {
                &&& decision == RetryDecision::Return
                &&& *final(metrics) == *old(metrics)
            },
    {
        let permille: u64 = 950 + (random_number() % 101) as u64;
        self.decide(outcome, remaining_ms, permille, llm_name, metrics)
    }
}

/// The engine never makes more retries than `max_retries` allows.
pub proof fn lemma_retries_bounded(state: RetryState, outcomes: Seq<Outcome>)
    requires
        state.attempt <= state.max_retries,
    ensures
        state.retries_made(outcomes) <= state.max_retries - state.attempt,
    decreases outcomes.len(),
{
    if outcomes.len() > 0 && state.retries(outcomes[0], None) {
        lemma_retries_bounded(state.advanced(), outcomes.drop_first());
    }
}

/// Against a call that fails in a retryable way every time, the engine makes
/// as many retries as it is handed failures, up to the retries it has left,
/// and no more.
pub proof fn lemma_retries_when_never_recovering(state: RetryState, outcomes: Seq<Outcome>)
    requires
        state.attempt <= state.max_retries,
        forall|i: int|
            0 <= i < outcomes.len() ==> outcomes[i] == (Outcome::Failure { retryable: true }),
    ensures
        state.retries_made(outcomes) == if outcomes.len() <= state.max_retries - state.attempt {
            outcomes.len() as int
        } else {
            state.max_retries - state.attempt
        },
    decreases outcomes.len(),
{
    if outcomes.len() > 0 && state.retries(outcomes[0], None) {
        assert forall|i: int| 0 <= i < outcomes.drop_first().len() implies outcomes.drop_first()[i]
            == (Outcome::Failure { retryable: true }) by {
            assert(outcomes.drop_first()[i] == outcomes[i + 1]);
        }
        lemma_retries_when_never_recovering(state.advanced(), outcomes.drop_first());
    }
}

/// The backoff never grows past its cap once it is within it, and a delay
/// with a jitter between 950 and 1050 thousandths lies between 95% and 105%
/// of the backoff.
pub proof fn lemma_backoff_and_jitter(backoff_ms: u64, permille: u64)
    requires
        950 <= permille <= 1050,
    ensures
        next_backoff(backoff_ms) <= MAX_BACKOFF_MS,
        backoff_ms <= MAX_BACKOFF_MS ==> backoff_ms <= next_backoff(backoff_ms) || next_backoff(
            backoff_ms,
        ) == MAX_BACKOFF_MS,
        backoff_ms * 950 / 1000 <= jittered(backoff_ms, permille),
        jittered(backoff_ms, permille) <= backoff_ms * 1050 / 1000,
{
    assert(backoff_ms * 950 <= backoff_ms * permille <= backoff_ms * 1050) by (nonlinear_arith)
        requires
            950 <= permille <= 1050,
            backoff_ms >= 0,
    ;
}

} // verus!
