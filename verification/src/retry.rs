//! Bounded exponential backoff with jitter, and the decision whether a failed
//! request is made again.

use vstd::prelude::*;
use rand::Rng;
use crate::error::{Failure, TranslationError};

verus! {

/// No wait between two attempts is longer than this.
pub const MAX_DELAY_MS: u64 = 30_000;

/// The least jitter added to a wait.
pub const MIN_JITTER_MS: u64 = 50;

/// The greatest jitter added to a wait.
pub const MAX_JITTER_MS: u64 = 220;

/// The attempt limit of a policy that nobody configured.
pub const DEFAULT_MAX_RETRIES: usize = 4;

/// The base delay of a policy that nobody configured.
pub const DEFAULT_BASE_DELAY_MS: u64 = 300;

/// The least base delay a policy can have.
pub const MIN_BASE_DELAY_MS: u64 = 50;

/// `base` doubled `times` times.
pub open spec fn doubled(base: int, times: nat) -> int
    decreases times,
{
    if times == 0 {
        base
    } else {
        2 * doubled(base, (times - 1) as nat)
    }
}

/// The part of the wait after attempt number `attempt` that does not depend
/// on chance: the base delay, doubled once for every attempt before this one.
pub open spec fn backoff_base_term(base_delay_ms: u64, attempt: usize) -> int {
    doubled(
        base_delay_ms as int,
        if attempt >= 1 {
            (attempt - 1) as nat
        } else {
            0
        },
    )
}

/// The wait after attempt number `attempt`: base term plus jitter, but never
/// more than [`MAX_DELAY_MS`].
pub open spec fn backoff_delay(base_delay_ms: u64, attempt: usize, jitter_ms: u64) -> int {
    let uncapped = backoff_base_term(base_delay_ms, attempt) + jitter_ms;
    if uncapped < MAX_DELAY_MS {
        uncapped
    } else {
        MAX_DELAY_MS as int
    }
}

pub proof fn lemma_doubled_grows(base: int, times: nat)
    requires
        base >= 0,
    ensures
        base <= doubled(base, times) <= doubled(base, times + 1),
    decreases times,
{
    if times > 0 {
        lemma_doubled_grows(base, (times - 1) as nat);
    }
}

pub proof fn lemma_doubled_monotonic(base: int, fewer: nat, more: nat)
    requires
        base >= 0,
        fewer <= more,
    ensures
        doubled(base, fewer) <= doubled(base, more),
    decreases more - fewer,
{
    if fewer < more {
        lemma_doubled_monotonic(base, fewer, (more - 1) as nat);
        lemma_doubled_grows(base, (more - 1) as nat);
    }
}

/// Waits never exceed the cap, and the base term never shrinks from one
/// attempt to a later one: a later wait is at least the base term of any
/// earlier attempt, as far as the cap lets it be.
pub proof fn lemma_backoff_bounded_and_growing(
    base_delay_ms: u64,
    earlier: usize,
    later: usize,
    jitter_ms: u64,
)
    requires
        earlier <= later,
    ensures
        backoff_delay(base_delay_ms, later, jitter_ms) <= MAX_DELAY_MS,
        backoff_base_term(base_delay_ms, earlier) <= backoff_base_term(base_delay_ms, later),
        backoff_base_term(base_delay_ms, earlier) <= MAX_DELAY_MS ==> backoff_delay(
            base_delay_ms,
            later,
            jitter_ms,
        ) >= backoff_base_term(base_delay_ms, earlier),
        backoff_base_term(base_delay_ms, earlier) > MAX_DELAY_MS ==> backoff_delay(
            base_delay_ms,
            later,
            jitter_ms,
        ) == MAX_DELAY_MS,
{
    let e: nat = if earlier >= 1 {
        (earlier - 1) as nat
    } else {
        0
    };
    let l: nat = if later >= 1 {
        (later - 1) as nat
    } else {
        0
    };
    lemma_doubled_monotonic(base_delay_ms as int, e, l);
}

/// A wait is never shorter than its jitter, as far as the cap lets it be.
pub proof fn lemma_backoff_at_least_jitter(base_delay_ms: u64, attempt: usize, jitter_ms: u64)
    ensures
        backoff_delay(base_delay_ms, attempt, jitter_ms) >= if jitter_ms < MAX_DELAY_MS {
            jitter_ms
        } else {
            MAX_DELAY_MS
        },
{
    lemma_doubled_grows(
        base_delay_ms as int,
        if attempt >= 1 {
            (attempt - 1) as nat
        } else {
            0
        },
    );
}

/// The wait after attempt number `attempt`, in milliseconds, for a jitter
/// that the caller has drawn.
pub fn backoff_delay_ms(base_delay_ms: u64, attempt: usize, jitter_ms: u64) -> (delay: u64)
    ensures
        delay == backoff_delay(base_delay_ms, attempt, jitter_ms),
{
    if jitter_ms >= MAX_DELAY_MS {
        proof {
            lemma_doubled_grows(base_delay_ms as int, 0);
            lemma_doubled_monotonic(
                base_delay_ms as int,
                0,
                if attempt >= 1 {
                    (attempt - 1) as nat
                } else {
                    0
                },
            );
        }
        return MAX_DELAY_MS;
    }
    let doublings: usize = if attempt >= 1 {
        attempt - 1
    } else {
        0
    };
    let mut term: u64 = base_delay_ms;
    let mut done: usize = 0;
    while done < doublings && 0 < term && term < MAX_DELAY_MS
        invariant
            done <= doublings,
            term == doubled(base_delay_ms as int, done as nat),
        decreases doublings - done,
    {
        term = term * 2;
        done += 1;
    }
    proof {
        if done < doublings {
            lemma_doubled_monotonic(base_delay_ms as int, done as nat, doublings as nat);
            if term == 0 {
                lemma_doubled_grows(base_delay_ms as int, done as nat);
                lemma_doubled_zero(doublings as nat);
            }
        }
    }
    if term >= MAX_DELAY_MS - jitter_ms {
        MAX_DELAY_MS
    } else {
        term + jitter_ms
    }
}

pub proof fn lemma_doubled_zero(times: nat)
    ensures
        doubled(0, times) == 0,
    decreases times,
{
    if times > 0 {
        lemma_doubled_zero((times - 1) as nat);
    }
}

/// Draws a number with `rand::thread_rng().gen_range(low..=high)`. The
/// generator promises a value inside the range and nothing about which one.
#[verifier::external_body]
fn random_between(low: u64, high: u64) -> (n: u64)
    requires
        low <= high,
    ensures
        low <= n <= high,
{
    rand::thread_rng().gen_range(low..=high)
}

/// How many attempts a request gets and how long to wait between them.
#[derive(Debug, Clone, Copy)]
pub struct RetryPolicy {
    max_retries: usize,
    base_delay_ms: u64,
}

/// What to do once an attempt has been classified.
#[derive(Debug, PartialEq, Eq)]
pub enum RetryDecision {
    /// The attempt succeeded: hand the text on.
    Deliver(String),
    /// The attempt failed for good: hand the failure on.
    GiveUp(TranslationError),
    /// The attempt failed for now: wait this long, then try again.
    RetryAfter { delay_ms: u64 },
}

/// The mathematical form of a [`RetryDecision`].
pub ghost enum Decision {
    Deliver(Seq<char>),
    GiveUp(Failure),
    RetryAfter { delay_ms: int },
}

impl View for RetryDecision {
    type V = Decision;

    open spec fn view(&self) -> Decision {
        match self {
            RetryDecision::Deliver(text) => Decision::Deliver(text@),
            RetryDecision::GiveUp(error) => Decision::GiveUp(error@),
            RetryDecision::RetryAfter { delay_ms } => Decision::RetryAfter {
                delay_ms: *delay_ms as int,
            },
        }
    }
}

impl RetryPolicy {
    /// A policy always allows one attempt, and never waits less than
    /// [`MIN_BASE_DELAY_MS`] as its base.
    #[verifier::type_invariant]
    pub closed spec fn well_formed(self) -> bool {
        self.max_retries >= 1 && self.base_delay_ms >= MIN_BASE_DELAY_MS
    }

    /// The greatest number of attempts.
    pub closed spec fn spec_max_retries(&self) -> usize {
        self.max_retries
    }

    /// The base delay in milliseconds.
    pub closed spec fn spec_base_delay_ms(&self) -> u64 {
        self.base_delay_ms
    }

    /// The policy with the given limits, each raised to its minimum where it
    /// is below.
    pub fn new(max_retries: usize, base_delay_ms: u64) -> (policy: Self)
        ensures
            policy.spec_max_retries() == if max_retries >= 1 {
                max_retries
            } else {
                1
            },
            policy.spec_base_delay_ms() == if base_delay_ms >= MIN_BASE_DELAY_MS {
                base_delay_ms
            } else {
                MIN_BASE_DELAY_MS
            },
    {
        RetryPolicy {
            max_retries: if max_retries >= 1 {
                max_retries
            } else {
                1
            },
            base_delay_ms: if base_delay_ms >= MIN_BASE_DELAY_MS {
                base_delay_ms
            } else {
                MIN_BASE_DELAY_MS
            },
        }
    }

    #[verifier::when_used_as_spec(spec_max_retries)]
    pub fn max_retries(&self) -> (n: usize)
        ensures
            n == self.spec_max_retries(),
            n >= 1,
    {
        proof {
            use_type_invariant(self);
        }
        self.max_retries
    }

    #[verifier::when_used_as_spec(spec_base_delay_ms)]
    pub fn base_delay_ms(&self) -> (ms: u64)
        ensures
            ms == self.spec_base_delay_ms(),
            ms >= MIN_BASE_DELAY_MS,
    {
        proof {
            use_type_invariant(self);
        }
        self.base_delay_ms
    }

    /// Whether attempt number `attempt` that ended in `failure` is followed by
    /// another attempt: only a transient failure is, and only while attempts
    /// are left.
    pub open spec fn retries(self, attempt: usize, failure: Failure) -> bool {
        failure.is_transient() && attempt < self.spec_max_retries()
    }

    /// What follows attempt number `attempt` with the given outcome, for a
    /// given jitter.
    pub open spec fn decision(
        self,
        attempt: usize,
        outcome: Result<Seq<char>, Failure>,
        jitter_ms: u64,
    ) -> Decision {
        match outcome {
            Ok(text) => Decision::Deliver(text),
            Err(failure) => if self.retries(attempt, failure) {
                Decision::RetryAfter {
                    delay_ms: backoff_delay(self.spec_base_delay_ms(), attempt, jitter_ms),
                }
            } else {
                Decision::GiveUp(failure)
            },
        }
    }

    /// The wait after attempt number `attempt`, with a freshly drawn jitter.
    pub fn retry_delay(&self, attempt: usize) -> (delay_ms: u64)
        ensures
            exists|jitter_ms: u64|
                MIN_JITTER_MS <= jitter_ms <= MAX_JITTER_MS && delay_ms == #[trigger] backoff_delay(
                    self.spec_base_delay_ms(),
                    attempt,
                    jitter_ms,
                ),
            delay_ms <= MAX_DELAY_MS,
    {
        let jitter_ms = random_between(MIN_JITTER_MS, MAX_JITTER_MS);
        let delay_ms = backoff_delay_ms(self.base_delay_ms, attempt, jitter_ms);
        assert(delay_ms == backoff_delay(self.spec_base_delay_ms(), attempt, jitter_ms));
        delay_ms
    }

    /// What follows attempt number `attempt` with the given outcome, for a
    /// jitter that the caller has drawn.
    pub fn decide_with_jitter(
        &self,
        attempt: usize,
        outcome: Result<String, TranslationError>,
        jitter_ms: u64,
    ) -> (decision: RetryDecision)
        ensures
            decision@ == self.decision(attempt, crate::error::outcome_view(outcome), jitter_ms),
    {
        match outcome {
            Ok(text) => RetryDecision::Deliver(text),
            Err(error) => {
                if error.is_transient() && attempt < self.max_retries {
                    RetryDecision::RetryAfter {
                        delay_ms: backoff_delay_ms(self.base_delay_ms, attempt, jitter_ms),
                    }
                } else {
                    RetryDecision::GiveUp(error)
                }
            },
        }
    }

    /// What follows attempt number `attempt` with the given outcome. The
    /// jitter of a wait is drawn here.
    pub fn decide(&self, attempt: usize, outcome: Result<String, TranslationError>) -> (decision:
        RetryDecision)
        ensures
            exists|jitter_ms: u64|
                MIN_JITTER_MS <= jitter_ms <= MAX_JITTER_MS && decision@ == #[trigger] self.decision(
                    attempt,
                    crate::error::outcome_view(outcome),
                    jitter_ms,
                ),
    {
        let jitter_ms = random_between(MIN_JITTER_MS, MAX_JITTER_MS);
        let ghost given = crate::error::outcome_view(outcome);
        let decision = self.decide_with_jitter(attempt, outcome, jitter_ms);
        assert(decision@ == self.decision(attempt, given, jitter_ms));
        decision
    }
}

impl Default for RetryPolicy {
    fn default() -> (policy: Self)
        ensures
            policy.spec_max_retries() == DEFAULT_MAX_RETRIES,
            policy.spec_base_delay_ms() == DEFAULT_BASE_DELAY_MS,
    {
        RetryPolicy { max_retries: DEFAULT_MAX_RETRIES, base_delay_ms: DEFAULT_BASE_DELAY_MS }
    }
}

/// How many requests are sent when the attempts, starting with attempt
/// number `attempt`, end as `outcomes` say, in order: one for each outcome up
/// to and including the first that is not retried.
pub open spec fn requests_sent(
    policy: RetryPolicy,
    attempt: usize,
    outcomes: Seq<Result<Seq<char>, Failure>>,
) -> nat
    decreases outcomes.len(),
{
    if outcomes.len() == 0 {
        0
    } else {
        match outcomes[0] {
            Err(failure) if policy.retries(attempt, failure) => 1 + requests_sent(
                policy,
                (attempt + 1) as usize,
                outcomes.drop_first(),
            ),
            _ => 1,
        }
    }
}

/// No more requests are sent than the policy allows attempts, however the
/// attempts end.
pub proof fn lemma_requests_sent_bounded(
    policy: RetryPolicy,
    attempt: usize,
    outcomes: Seq<Result<Seq<char>, Failure>>,
)
    requires
        1 <= attempt <= policy.spec_max_retries(),
    ensures
        requests_sent(policy, attempt, outcomes) <= policy.spec_max_retries() - attempt + 1,
        requests_sent(policy, attempt, outcomes) <= outcomes.len(),
    decreases outcomes.len(),
{
    if outcomes.len() > 0 {
        match outcomes[0] {
            Err(failure) => {
                if policy.retries(attempt, failure) {
                    lemma_requests_sent_bounded(
                        policy,
                        (attempt + 1) as usize,
                        outcomes.drop_first(),
                    );
                }
            },
            Ok(_) => {},
        }
    }
}

/// A success, a block and an unusable reply are never followed by another
/// request: whatever would come after them, exactly one request is sent.
pub proof fn lemma_no_retry_after_final_outcome(
    policy: RetryPolicy,
    attempt: usize,
    outcomes: Seq<Result<Seq<char>, Failure>>,
)
    requires
        outcomes.len() > 0,
        match outcomes[0] {
            Ok(_) => true,
            Err(failure) => !failure.is_transient(),
        },
    ensures
        requests_sent(policy, attempt, outcomes) == 1,
        forall|jitter_ms: u64|
            !(#[trigger] policy.decision(attempt, outcomes[0], jitter_ms) is RetryAfter),
{
}

} // verus!
