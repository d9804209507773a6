//! Retrying failed requests: which failures, how often, after how long.

use vstd::prelude::*;

use super::{ProviderError, ProviderErrorView};
use crate::time::Span;

verus! {

/// Which failures are worth another attempt.
pub enum Retryable<F> {
    /// Lost connections, timeouts, rate limits and server errors.
    Default,
    /// What the user's own predicate says.
    Custom(F),
}

/// The failures that are retried by default.
pub open spec fn is_transient(error: ProviderErrorView) -> bool {
    match error {
        ProviderErrorView::Network(_) => true,
        ProviderErrorView::Timeout(_) => true,
        ProviderErrorView::RateLimited { retry_after } => true,
        ProviderErrorView::Api { status, message } => status >= 500,
        _ => false,
    }
}

impl<F: Fn(&ProviderError) -> bool> Retryable<F> {
    /// Whether the user's predicate, if there is one, can be asked of `error`.
    pub open spec fn answers(&self, error: &ProviderError) -> bool {
        match self {
            Retryable::Default => true,
            Retryable::Custom(f) => f.requires((error,)),
        }
    }

    /// Whether `answer` is an answer to the question of retrying `error`.
    pub open spec fn may_say(&self, error: &ProviderError, answer: bool) -> bool {
        match self {
            Retryable::Default => answer == is_transient(error@),
            Retryable::Custom(f) => f.ensures((error,), answer),
        }
    }

    pub fn is_retryable(&self, error: &ProviderError) -> (r: bool)
        requires
            self.answers(error),
        ensures
            self.may_say(error, r),
    {
        match self {
            Retryable::Default => match error {
                ProviderError::Network(_) => true,
                ProviderError::Timeout(_) => true,
                ProviderError::RateLimited { retry_after: _ } => true,
                ProviderError::Api { status, message: _ } => *status >= 500,
                _ => false,
            },
            Retryable::Custom(f) => f(error),
        }
    }
}

/// How requests are retried; how long a backoff takes is computed elsewhere.
pub struct RetryPolicy<F> {
    /// The largest number of requests in all, the first one included.
    pub max_attempts: usize,
    pub retryable: Retryable<F>,
    /// Whether the waiting time that the endpoint names is kept.
    pub respect_retry_after: bool,
}

/// What to do after a failed attempt.
#[derive(Debug, Clone, Copy, PartialEq, Eq, Structural)]
pub enum RetryStep {
    /// Return the error.
    GiveUp,
    /// Wait as long as the endpoint asked, then try again.
    WaitFor(Span),
    /// Wait for the backoff of this attempt, then try again.
    Backoff,
}

/// The longest wait that an endpoint can ask for: 300 seconds.
pub open spec fn retry_after_cap() -> Span {
    Span { nanos: 300_000_000_000 }
}

/// What is done when `attempts` retries were made before this failure and the
/// failure is retryable or not.
pub open spec fn retry_step(
    max_attempts: usize,
    respect_retry_after: bool,
    error: ProviderErrorView,
    attempts: usize,
    retryable: bool,
) -> RetryStep {
    if !retryable || attempts + 1 >= max_attempts {
        RetryStep::GiveUp
    } else {
        match error {
            ProviderErrorView::RateLimited { retry_after: Some(d) } if respect_retry_after => {
                RetryStep::WaitFor(
                    if d.nanos <= retry_after_cap().nanos {
                        d
                    } else {
                        retry_after_cap()
                    },
                )
            },
            _ => RetryStep::Backoff,
        }
    }
}

/// Decides on another attempt once it is known whether the failure is
/// retryable.
pub fn decide_retry(
    max_attempts: usize,
    respect_retry_after: bool,
    error: &ProviderError,
    attempts: usize,
    retryable: bool,
) -> (r: RetryStep)
    ensures
        r == retry_step(max_attempts, respect_retry_after, error@, attempts, retryable),
{
    if !retryable || max_attempts == 0 || attempts >= max_attempts - 1 {
        return RetryStep::GiveUp;
    }
    match error {
        ProviderError::RateLimited { retry_after: Some(d) } => if respect_retry_after {
            RetryStep::WaitFor(d.min(Span { nanos: 300_000_000_000 }))
        } else {
            RetryStep::Backoff
        },
        _ => RetryStep::Backoff,
    }
}

impl<F: Fn(&ProviderError) -> bool> RetryPolicy<F> {
    /// Decides what to do after a failure that `attempts` retries preceded.
    pub fn retry_decision(&self, error: &ProviderError, attempts: usize) -> (r: RetryStep)
        requires
            self.retryable.answers(error),
        ensures
            exists|answer: bool| #[trigger]
                self.retryable.may_say(error, answer) && r == retry_step(
                    self.max_attempts,
                    self.respect_retry_after,
                    error@,
                    attempts,
                    answer,
                ),
    {
        let retryable = self.retryable.is_retryable(error);
        decide_retry(self.max_attempts, self.respect_retry_after, error, attempts, retryable)
    }
}

impl<F> Default for RetryPolicy<F> {
    /// Three requests at most, for the failures that are retried by default,
    /// after the waiting time that the endpoint names.
    fn default() -> (r: RetryPolicy<F>)
        ensures
            r.max_attempts == 3,
            r.retryable is Default,
            r.respect_retry_after,
    {
        RetryPolicy { max_attempts: 3, retryable: Retryable::Default, respect_retry_after: true }
    }
}

/// The retries of one call.
#[derive(Debug, Clone, Copy, PartialEq, Eq, Structural)]
pub struct RetryRun {
    /// The number of retries so far.
    pub attempts: usize,
}

impl RetryRun {
    pub fn new() -> (r: RetryRun)
        ensures
            r.attempts == 0,
    {
        RetryRun { attempts: 0 }
    }

    /// Takes a failure, and says what to do.
    pub fn failed<F: Fn(&ProviderError) -> bool>(
        &mut self,
        policy: &RetryPolicy<F>,
        error: &ProviderError,
    ) -> (step: RetryStep)
        requires
            policy.retryable.answers(error),
        ensures
            exists|answer: bool| #[trigger]
                policy.retryable.may_say(error, answer) && step == retry_step(
                    policy.max_attempts,
                    policy.respect_retry_after,
                    error@,
                    old(self).attempts,
                    answer,
                ),
            final(self).attempts == if step == RetryStep::GiveUp {
                old(self).attempts as int
            } else {
                old(self).attempts + 1
            },
    {
        let step = policy.retry_decision(error, self.attempts);
        match step {
            RetryStep::GiveUp => {},
            _ => {
                self.attempts = self.attempts + 1;
            },
        }
        step
    }
}

/// How a request ended: `None` for a reply, else whether the failure is
/// retryable. The number of the request, from 0 on, with which a call ends.
pub open spec fn last_request(max_attempts: usize, outcomes: Seq<Option<bool>>, n: nat) -> nat
    decreases outcomes.len() - n,
{
    if n >= outcomes.len() || outcomes[n as int] != Some(true) || n + 1 >= max_attempts {
        n
    } else {
        last_request(max_attempts, outcomes, n + 1)
    }
}

/// A call ends with its first reply, or with the first failure that is not
/// retryable, or with the last failure once its requests are used up: every
/// request before that failed and was retried. Where the last request failed,
/// it is the first failure at which the policy gives up.
pub proof fn law_call_ends_with_its_last_outcome(
    max_attempts: usize,
    outcomes: Seq<Option<bool>>,
    n: nat,
    respect_retry_after: bool,
    errors: Seq<ProviderErrorView>,
)
    requires
        n < max_attempts || n == 0,
        max_attempts <= outcomes.len(),
        outcomes.len() > 0,
    ensures
        n <= last_request(max_attempts, outcomes, n) < outcomes.len(),
        last_request(max_attempts, outcomes, n) < max_attempts || last_request(
            max_attempts,
            outcomes,
            n,
        ) == 0,
        forall|i: int|
            n <= i < last_request(max_attempts, outcomes, n) ==> #[trigger] outcomes[i] == Some(
                true,
            ),
        outcomes[last_request(max_attempts, outcomes, n) as int] == Some(true) ==> last_request(
            max_attempts,
            outcomes,
            n,
        ) + 1 >= max_attempts,
        forall|i: int|
            n <= i <= last_request(max_attempts, outcomes, n) && (#[trigger] outcomes[i]) is Some
                ==> (retry_step(
                max_attempts,
                respect_retry_after,
                errors[i],
                i as usize,
                outcomes[i]->0,
            ) == RetryStep::GiveUp <==> i == last_request(max_attempts, outcomes, n)),
    decreases outcomes.len() - n,
{
    if outcomes[n as int] == Some(true) && n + 1 < max_attempts {
        law_call_ends_with_its_last_outcome(
            max_attempts,
            outcomes,
            n + 1,
            respect_retry_after,
            errors,
        );
    }
}

/// No more than `max_attempts` requests are made (and one at least): a retry
/// after `attempts` earlier ones is request number `attempts + 2`.
pub proof fn law_attempts_are_bounded(
    max_attempts: usize,
    respect_retry_after: bool,
    error: ProviderErrorView,
    attempts: usize,
    retryable: bool,
)
    ensures
        retry_step(max_attempts, respect_retry_after, error, attempts, retryable)
            != RetryStep::GiveUp ==> attempts + 2 <= max_attempts && retryable,
{
}

/// An endpoint cannot make a client wait longer than the cap.
pub proof fn law_named_wait_is_capped(
    max_attempts: usize,
    error: ProviderErrorView,
    attempts: usize,
    respect: bool,
    retryable: bool,
)
    ensures
        retry_step(max_attempts, respect, error, attempts, retryable) matches RetryStep::WaitFor(d)
            ==> d.nanos <= retry_after_cap().nanos && (error matches ProviderErrorView::RateLimited {
            retry_after: Some(named),
        } && d.nanos <= named.nanos),
{
}

/// The state after `state` of the generator behind the jitter: a linear
/// congruence modulo 2^64, seeded when it has no state yet.
pub open spec fn jitter_state(state: u64, seed: u64) -> int {
    let from = if state == 0 {
        seed
    } else {
        state
    };
    (from * 6364136223846793005 + 1442695040888963407) % 0x1_0000_0000_0000_0000
}

/// Advances the generator. A generator without state is seeded and advanced at
/// once, so that the first draw does not show the seed's leading zeros.
pub fn next_jitter(state: u64, seed: u64) -> (r: u64)
    ensures
        r == jitter_state(state, seed),
{
    let from: u64 = if state == 0 {
        seed
    } else {
        state
    };
    let product: u128 = from as u128 * 6364136223846793005;
    let sum: u128 = product + 1442695040888963407;
    (sum % 0x1_0000_0000_0000_0000) as u64
}

/// The 24 bits that a state contributes to a draw.
pub fn jitter_bits(state: u64) -> (r: u32)
    ensures
        r == state as int / 0x100_0000_0000,
        r < 0x100_0000,
{
    (state / 0x100_0000_0000) as u32
}

/// Lost connections, timeouts, rate limits and server errors are worth another
/// attempt; a refused request, a broken protocol and a cancelled run are not.
pub proof fn law_transient_failures(error: ProviderErrorView)
    ensures
        is_transient(error) <==> {
            ||| error is Network
            ||| error is Timeout
            ||| error is RateLimited
            ||| error matches ProviderErrorView::Api { status, message } && status >= 500
        },
{
}

/// A failure that is worth it is retried as long as requests are left: after
/// the wait that the endpoint names, or 300 seconds where it names a longer
/// one; or else, and wherever such waits are not kept, after a backoff.
pub proof fn law_retries_keep_named_waits(
    max_attempts: usize,
    respect: bool,
    error: &ProviderError,
    attempts: usize,
    retryable: bool,
    step: RetryStep,
)
    requires
        call_ensures(decide_retry, (max_attempts, respect, error, attempts, retryable), step),
    ensures
        step == RetryStep::GiveUp <==> !retryable || attempts + 1 >= max_attempts,
        step != RetryStep::GiveUp ==> match error@ {
            ProviderErrorView::RateLimited { retry_after: Some(named) } => if !respect {
                step == RetryStep::Backoff
            } else if named.nanos <= 300_000_000_000 {
                step == RetryStep::WaitFor(named)
            } else {
                step == RetryStep::WaitFor(Span { nanos: 300_000_000_000 })
            },
            _ => step == RetryStep::Backoff,
        },
{
}

/// By default three requests are made, for the failures that are worth it.
pub proof fn law_default_policy<F: Fn(&ProviderError) -> bool>(
    policy: RetryPolicy<F>,
    error: &ProviderError,
    answer: bool,
)
    requires
        call_ensures(RetryPolicy::<F>::default, (), policy),
        call_ensures(Retryable::<F>::is_retryable, (&policy.retryable, error), answer),
    ensures
        policy.max_attempts == 3,
        policy.respect_retry_after,
        answer == is_transient(error@),
{
}

/// The generator behind the jitter is a linear congruence modulo 2^64 with these
/// constants, seeded when it has no state yet; a draw takes the upper 24 bits.
pub proof fn law_jitter(state: u64, seed: u64, next: u64, bits: u32)
    requires
        call_ensures(next_jitter, (state, seed), next),
        call_ensures(jitter_bits, (next,), bits),
    ensures
        state == 0 ==> next == (seed * 6364136223846793005 + 1442695040888963407)
            % 18446744073709551616,
        state != 0 ==> next == (state * 6364136223846793005 + 1442695040888963407)
            % 18446744073709551616,
        bits == next as int / 1099511627776,
{
}

} // verus!
