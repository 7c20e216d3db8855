//! The attempt engine: retry and fallback decisions.
//!
//! A request's budget `R` is clamped to `0..=10`. Each upstream is tried up
//! to `R - 1` additional times after its first attempt, and fallback to the
//! next upstream by priority is allowed once `R >= 1`. A transport failure or
//! a retryable status consumes the budget; any other response commits. The
//! host process dispatches one attempt, reports its outcome, and follows the
//! returned decision.

use vstd::prelude::*;

use crate::config::{clamp_retries, clamp_spec};

verus! {

/// The per-request attempt budget derived from `fallback_retries`.
#[derive(Debug, Clone, Copy)]
pub struct RetryBudget {
    /// Additional attempts against the same upstream after its first.
    pub retries_per_upstream: u32,
    /// Whether lower-priority upstreams may be tried at all.
    pub allow_fallback: bool,
}

/// Derive the attempt budget from the configured `fallback_retries`.
pub fn retry_budget(fallback_retries: u32) -> (r: RetryBudget)
    ensures
        r.retries_per_upstream as int == if clamp_spec(fallback_retries) >= 1 {
            clamp_spec(fallback_retries) - 1
        } else {
            0int
        },
        r.allow_fallback == (clamp_spec(fallback_retries) >= 1),
{
    let c = clamp_retries(fallback_retries);
    RetryBudget {
        retries_per_upstream: if c >= 1 {
            c - 1
        } else {
            0
        },
        allow_fallback: c >= 1,
    }
}

/// A status that consumes retry budget: any 5xx, 408 Request Timeout, or
/// 429 Too Many Requests.
pub open spec fn retryable_status(s: u16) -> bool {
    (500 <= s && s <= 599) || s == 408 || s == 429
}

/// Runtime test for [`retryable_status`].
pub fn should_retry_status(status: u16) -> (r: bool)
    ensures
        r == retryable_status(status),
{
    (500 <= status && status <= 599) || status == 408 || status == 429
}

/// What one dispatched attempt came to: a transport failure (connection,
/// DNS, timeout, TLS), or an HTTP response with its status.
#[derive(Debug, Clone, Copy, PartialEq, Eq, Structural)]
pub enum AttemptOutcome {
    Transport,
    Status(u16),
}

/// What the engine does after an attempt.
#[derive(Debug, Clone, Copy, PartialEq, Eq, Structural)]
pub enum AttemptDecision {
    /// Try the same upstream again.
    Retry,
    /// Move to the next upstream by priority.
    Fallback,
    /// Commit this response as the final outcome.
    Commit,
    /// Give up: every attempt is exhausted, answer 502.
    FailAll,
}

/// The status an attempt contributes: its response status, or 502 for a
/// transport failure.
pub open spec fn status_of(o: AttemptOutcome) -> u16 {
    match o {
        AttemptOutcome::Transport => 502,
        AttemptOutcome::Status(s) => s,
    }
}

/// The engine's decision for one outcome. A transport failure retries, falls
/// back, or gives up; a retryable status retries, falls back, or commits; any
/// other response commits.
pub open spec fn decision_of(o: AttemptOutcome, has_retry: bool, has_next: bool) -> AttemptDecision {
    match o {
        AttemptOutcome::Transport => if has_retry {
            AttemptDecision::Retry
        } else if has_next {
            AttemptDecision::Fallback
        } else {
            AttemptDecision::FailAll
        },
        AttemptOutcome::Status(s) => if retryable_status(s) {
            if has_retry {
                AttemptDecision::Retry
            } else if has_next {
                AttemptDecision::Fallback
            } else {
                AttemptDecision::Commit
            }
        } else {
            AttemptDecision::Commit
        },
    }
}

/// Decide what follows the attempt `(up_idx, attempt)` with the given
/// outcome; see [`decision_of`].
pub fn decide_attempt(
    outcome: &AttemptOutcome,
    up_idx: usize,
    attempt: u32,
    n_upstreams: usize,
    budget: &RetryBudget,
) -> (d: AttemptDecision)
    requires
        up_idx < n_upstreams,
    ensures
        d == decision_of(
            *outcome,
            (attempt as int) < budget.retries_per_upstream as int,
            budget.allow_fallback && up_idx + 1 < n_upstreams,
        ),
{
    let has_retry = attempt < budget.retries_per_upstream;
    let has_next = budget.allow_fallback && up_idx + 1 < n_upstreams;
    match outcome {
        AttemptOutcome::Transport => {
            if has_retry {
                AttemptDecision::Retry
            } else if has_next {
                AttemptDecision::Fallback
            } else {
                AttemptDecision::FailAll
            }
        },
        AttemptOutcome::Status(s) => {
            if should_retry_status(*s) {
                if has_retry {
                    AttemptDecision::Retry
                } else if has_next {
                    AttemptDecision::Fallback
                } else {
                    AttemptDecision::Commit
                }
            } else {
                AttemptDecision::Commit
            }
        },
    }
}

/// The `retry_action` recorded on a non-terminal attempt's sub-log entry.
pub fn sub_retry_action(d: &AttemptDecision) -> (r: Option<String>)
    ensures
        *d == AttemptDecision::Retry ==> (r matches Some(s) && s@ == "retry"@),
        *d == AttemptDecision::Fallback ==> (r matches Some(s) && s@ == "fallback"@),
        *d == AttemptDecision::FailAll ==> r is None,
        *d == AttemptDecision::Commit ==> r is None,
{
    match d {
        AttemptDecision::Retry => Some(String::from_str("retry")),
        AttemptDecision::Fallback => Some(String::from_str("fallback")),
        AttemptDecision::Commit => None,
        AttemptDecision::FailAll => None,
    }
}

/// The `retry_action` recorded on the main entry when a response commits:
/// `fallback` when a later upstream won, `retry` when a later attempt on the
/// first upstream won, absent when the first attempt won.
pub fn final_retry_action(up_idx: usize, attempt: u32) -> (r: Option<String>)
    ensures
        up_idx > 0 ==> (r matches Some(s) && s@ == "fallback"@),
        up_idx == 0 && attempt > 0 ==> (r matches Some(s) && s@ == "retry"@),
        up_idx == 0 && attempt == 0 ==> r is None,
{
    if up_idx > 0 {
        Some(String::from_str("fallback"))
    } else if attempt > 0 {
        Some(String::from_str("retry"))
    } else {
        None
    }
}

/// What a whole run of the engine over a sequence of attempt outcomes comes
/// to.
pub ghost struct RunSummary {
    /// A terminal decision was reached within the given outcomes.
    pub complete: bool,
    /// The terminal decision committed a response (rather than giving up).
    pub committed: bool,
    /// Outcomes consumed, i.e. attempts dispatched.
    pub attempts: int,
    /// Status of the committed response, or 502 after giving up.
    pub final_status: u16,
    /// Attempts that recorded an error against their upstream's counters.
    pub increments: int,
}

/// Run the engine from state `(up_idx, attempt)` over the outcomes the
/// upstreams would produce, one per dispatched attempt.
pub open spec fn run_engine(
    outcomes: Seq<AttemptOutcome>,
    up_idx: int,
    attempt: int,
    n_upstreams: int,
    rpu: int,
    allow_fallback: bool,
) -> RunSummary
    decreases outcomes.len(),
{
    if outcomes.len() == 0 {
        RunSummary {
            complete: false,
            committed: false,
            attempts: 0,
            final_status: 0,
            increments: 0,
        }
    } else {
        let o = outcomes.first();
        let d = decision_of(o, attempt < rpu, allow_fallback && up_idx + 1 < n_upstreams);
        if d == AttemptDecision::Commit {
            RunSummary {
                complete: true,
                committed: true,
                attempts: 1,
                final_status: status_of(o),
                increments: 0,
            }
        } else if d == AttemptDecision::FailAll {
            RunSummary {
                complete: true,
                committed: false,
                attempts: 1,
                final_status: 502,
                increments: 1,
            }
        } else {
            let rest = if d == AttemptDecision::Retry {
                run_engine(
                    outcomes.drop_first(),
                    up_idx,
                    attempt + 1,
                    n_upstreams,
                    rpu,
                    allow_fallback,
                )
            } else {
                run_engine(outcomes.drop_first(), up_idx + 1, 0, n_upstreams, rpu, allow_fallback)
            };
            RunSummary {
                complete: rest.complete,
                committed: rest.committed,
                attempts: rest.attempts + 1,
                final_status: rest.final_status,
                increments: rest.increments + 1,
            }
        }
    }
}

/// Accounting of a completed request: every dispatched attempt either
/// records one error increment against the upstream it went to or commits
/// the final response, so the error increments plus exactly one terminal
/// update on the winning upstream (present exactly when a response was
/// committed) equal the attempts dispatched.
pub proof fn lemma_attempt_accounting(
    outcomes: Seq<AttemptOutcome>,
    up_idx: int,
    attempt: int,
    n_upstreams: int,
    rpu: int,
    allow_fallback: bool,
)
    ensures
        ({
            let r = run_engine(outcomes, up_idx, attempt, n_upstreams, rpu, allow_fallback);
            &&& r.complete ==> r.attempts == r.increments + if r.committed {
                1int
            } else {
                0int
            }
            &&& 0 <= r.attempts <= outcomes.len()
            &&& 0 <= r.increments <= r.attempts
        }),
    decreases outcomes.len(),
{
    if outcomes.len() > 0 {
        let o = outcomes.first();
        let d = decision_of(o, attempt < rpu, allow_fallback && up_idx + 1 < n_upstreams);
        if d == AttemptDecision::Retry {
            lemma_attempt_accounting(
                outcomes.drop_first(),
                up_idx,
                attempt + 1,
                n_upstreams,
                rpu,
                allow_fallback,
            );
        } else if d == AttemptDecision::Fallback {
            lemma_attempt_accounting(
                outcomes.drop_first(),
                up_idx + 1,
                0,
                n_upstreams,
                rpu,
                allow_fallback,
            );
        }
    }
}

/// With no budget at all (`fallback_retries == 0`) the first attempt is
/// terminal: exactly one attempt is dispatched and no fallback happens.
pub proof fn lemma_no_budget_single_attempt(
    outcomes: Seq<AttemptOutcome>,
    up_idx: int,
    n_upstreams: int,
)
    requires
        outcomes.len() > 0,
    ensures
        run_engine(outcomes, up_idx, 0, n_upstreams, 0, false).complete,
        run_engine(outcomes, up_idx, 0, n_upstreams, 0, false).attempts == 1,
{
}

} // verus!
