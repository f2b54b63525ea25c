//! Retry policy and backoff engine.
//!
//! A [`RetryPolicy`] is an immutable configuration value: an attempt limit
//! (unlimited or a positive finite count, counting the first call), an initial
//! backoff, a maximum backoff, and a backoff multiplier. Because a policy is
//! never mutated after construction, it can be shared freely by many
//! concurrent retry invocations.
//!
//! Durations are carried as whole milliseconds and the multiplier as
//! hundredths (a multiplier of `200` scales a wait by 2.0), so the whole
//! engine stays in exact integer arithmetic.

use vstd::prelude::*;

verus! {

/// Retry attempt limit.
#[derive(Debug, Clone, Copy, PartialEq, Eq, Structural)]
pub enum RetryLimit {
    /// Retry without an attempt cap.
    Unlimited,
    /// Retry up to the specified number of attempts (at least 1).
    Finite(usize),
}

/// Retry policy driving the retry loop.
#[derive(Debug, Clone, Copy)]
pub struct RetryPolicy {
    /// Maximum number of attempts including the first call.
    pub max_attempts: RetryLimit,
    /// Initial wait in milliseconds before the next retry.
    pub initial_backoff_ms: u64,
    /// Upper bound in milliseconds for the exponential backoff wait.
    pub max_backoff_ms: u64,
    /// Multiplication factor for exponential backoff, in hundredths
    /// (`200` means the wait doubles). Always at least `100`.
    pub backoff_multiplier_hundredths: u64,
}

impl RetryPolicy {
    /// A policy is well formed when a finite attempt limit is positive and
    /// the multiplier never shrinks the wait.
    pub open spec fn wf(self) -> bool {
        &&& (self.max_attempts matches RetryLimit::Finite(n) ==> n >= 1)
        &&& self.backoff_multiplier_hundredths >= 100
    }

    pub fn with_max_attempts(self, max_attempts: usize) -> (r: Self)
        requires
            max_attempts >= 1,
        ensures
            r == (Self { max_attempts: RetryLimit::Finite(max_attempts), ..self }),
    {
        Self { max_attempts: RetryLimit::Finite(max_attempts), ..self }
    }

    pub fn with_unlimited_attempts(self) -> (r: Self)
        ensures
            r == (Self { max_attempts: RetryLimit::Unlimited, ..self }),
    {
        Self { max_attempts: RetryLimit::Unlimited, ..self }
    }

    pub fn with_initial_backoff(self, initial_backoff_ms: u64) -> (r: Self)
        ensures
            r == (Self { initial_backoff_ms, ..self }),
    {
        Self { initial_backoff_ms, ..self }
    }

    pub fn with_max_backoff(self, max_backoff_ms: u64) -> (r: Self)
        ensures
            r == (Self { max_backoff_ms, ..self }),
    {
        Self { max_backoff_ms, ..self }
    }

    /// Sets the backoff multiplier, clamping it so a wait never shrinks.
    pub fn with_backoff_multiplier(self, backoff_multiplier_hundredths: u64) -> (r: Self)
        ensures
            r.backoff_multiplier_hundredths == if backoff_multiplier_hundredths >= 100 {
                backoff_multiplier_hundredths
            } else {
                100u64
            },
            r.max_attempts == self.max_attempts,
            r.initial_backoff_ms == self.initial_backoff_ms,
            r.max_backoff_ms == self.max_backoff_ms,
    {
        let clamped = if backoff_multiplier_hundredths >= 100 {
            backoff_multiplier_hundredths
        } else {
            100
        };
        Self { backoff_multiplier_hundredths: clamped, ..self }
    }
}

impl Default for RetryPolicy {
    /// Five attempts, 200 ms initial backoff doubling up to 5 s.
    fn default() -> (r: Self)
        ensures
            r.max_attempts == RetryLimit::Finite(5usize),
            r.initial_backoff_ms == 200u64,
            r.max_backoff_ms == 5000u64,
            r.backoff_multiplier_hundredths == 200u64,
            r.wf(),
    {
        Self {
            max_attempts: RetryLimit::Finite(5),
            initial_backoff_ms: 200,
            max_backoff_ms: 5000,
            backoff_multiplier_hundredths: 200,
        }
    }
}

/// A remote failure as the retry engine sees it: either an API error carrying
/// an HTTP-like status code, or an error with no status code at all
/// (transport, serialization, and similar).
#[derive(Debug, Clone, Copy, PartialEq, Eq, Structural)]
pub enum RemoteError {
    /// An API response with an HTTP-like status code.
    Api { code: u16 },
    /// An error that carries no status code.
    Statusless,
}

/// Whether the default classifier retries after `error`.
///
/// Status-coded errors retry only on 408, 429 and any 5xx; errors lacking a
/// status code are retryable by default.
pub open spec fn spec_default_retryable(error: RemoteError) -> bool {
    match error {
        RemoteError::Api { code } => code == 408 || code == 429 || (500 <= code <= 599),
        RemoteError::Statusless => true,
    }
}

/// Default retry condition.
///
/// For API errors, retries only on transient HTTP status codes (`408`, `429`,
/// `5xx`). For errors without a status code (transport/serialization/etc.),
/// retries are enabled by default.
pub fn default_retryable_error(error: &RemoteError) -> (r: bool)
    ensures
        r == spec_default_retryable(*error),
{
    match error {
        RemoteError::Api { code } => {
            let c = *code;
            c == 408 || c == 429 || (500 <= c && c <= 599)
        },
        RemoteError::Statusless => true,
    }
}

/// Whether a finite attempt limit is used up after `attempts` calls.
pub open spec fn spec_exhausted(limit: RetryLimit, attempts: nat) -> bool {
    match limit {
        RetryLimit::Unlimited => false,
        RetryLimit::Finite(n) => attempts >= n,
    }
}

/// The wait that follows `current`: the current wait scaled by the
/// multiplier, capped at the policy's maximum backoff.
pub open spec fn spec_next_backoff(current: u64, policy: RetryPolicy) -> u64 {
    let scaled = (current as int * policy.backoff_multiplier_hundredths as int) / 100;
    if scaled > policy.max_backoff_ms as int {
        policy.max_backoff_ms
    } else {
        scaled as u64
    }
}

/// Advances the backoff wait: scale by the multiplier, cap at the maximum.
pub fn next_backoff(current: u64, policy: &RetryPolicy) -> (r: u64)
    ensures
        r == spec_next_backoff(current, *policy),
{
    let wait: u128 = current as u128;
    let factor: u128 = policy.backoff_multiplier_hundredths as u128;
    proof {
        assert(wait * factor <= u64::MAX as int * u64::MAX as int) by (nonlinear_arith)
            requires
                0 <= wait <= u64::MAX,
                0 <= factor <= u64::MAX,
        ;
    }
    let scaled_wide: u128 = wait * factor / 100;
    if scaled_wide > policy.max_backoff_ms as u128 {
        policy.max_backoff_ms
    } else {
        scaled_wide as u64
    }
}

/// What one attempt of the wrapped operation came to, as the retry engine
/// sees it: success, or a failure already classified as retryable or not.
#[derive(Debug, Clone, Copy, PartialEq, Eq, Structural)]
pub enum AttemptOutcome {
    /// The operation returned a value.
    Success,
    /// The operation failed; `retryable` is the classifier's verdict.
    Failure { retryable: bool },
}

impl AttemptOutcome {
    /// Whether the retry loop stops at this outcome after `attempts` calls.
    pub open spec fn spec_stops(self, limit: RetryLimit, attempts: nat) -> bool {
        match self {
            AttemptOutcome::Success => true,
            AttemptOutcome::Failure { retryable } => spec_exhausted(limit, attempts)
                || !retryable,
        }
    }
}

/// The retry loop, as a function of the attempt outcomes it would observe.
///
/// `made` attempts have already happened. Each step makes one more attempt
/// and consumes the first outcome; the loop stops on success, on a
/// non-retryable failure, or when a finite limit is used up. The result is
/// the total number of attempts made together with the outcome the loop
/// stopped at, or `None` when the outcomes run out before the loop stops.
pub open spec fn spec_retry_run(
    limit: RetryLimit,
    outcomes: Seq<AttemptOutcome>,
    made: nat,
) -> Option<(nat, AttemptOutcome)>
    decreases outcomes.len(),
{
    if outcomes.len() == 0 {
        None
    } else {
        let outcome = outcomes[0];
        if outcome.spec_stops(limit, made + 1) {
            Some(((made + 1) as nat, outcome))
        } else {
            spec_retry_run(limit, outcomes.drop_first(), made + 1)
        }
    }
}

/// The retry loop started fresh: attempts made so far is zero.
pub open spec fn spec_retry_outcome(limit: RetryLimit, outcomes: Seq<AttemptOutcome>) -> Option<
    (nat, AttemptOutcome),
> {
    spec_retry_run(limit, outcomes, 0)
}

/// Under a finite limit of `n` attempts, an operation that keeps failing
/// with retryable errors is invoked exactly `n` times, and the loop hands
/// back the `n`th failure itself.
pub proof fn lemma_finite_retryable_exhausts(n: usize, outcomes: Seq<AttemptOutcome>)
    requires
        n >= 1,
        outcomes.len() >= n,
        forall|i: int|
            0 <= i < n ==> (#[trigger] outcomes[i]) == (AttemptOutcome::Failure {
                retryable: true,
            }),
    ensures
        spec_retry_outcome(RetryLimit::Finite(n), outcomes) == Some(
            (n as nat, outcomes[n - 1]),
        ),
{
    lemma_finite_retryable_exhausts_from(n, outcomes, 0);
}

proof fn lemma_finite_retryable_exhausts_from(n: usize, outcomes: Seq<AttemptOutcome>, made: nat)
    requires
        made < n,
        outcomes.len() >= n - made,
        forall|i: int|
            0 <= i < n - made ==> (#[trigger] outcomes[i]) == (AttemptOutcome::Failure {
                retryable: true,
            }),
    ensures
        spec_retry_run(RetryLimit::Finite(n), outcomes, made) == Some(
            (n as nat, outcomes[n - made - 1]),
        ),
    decreases n - made,
{
    if made + 1 == n {
        assert(outcomes[0].spec_stops(RetryLimit::Finite(n), made + 1));
    } else {
        assert(!outcomes[0].spec_stops(RetryLimit::Finite(n), made + 1));
        lemma_finite_retryable_exhausts_from(n, outcomes.drop_first(), made + 1);
        assert(outcomes.drop_first()[n - (made + 1) - 1] == outcomes[n - made - 1]);
    }
}

/// Under any limit, a first failure that the classifier marks non-retryable
/// ends the loop after exactly one invocation, and that error is returned
/// unchanged.
pub proof fn lemma_non_retryable_stops_first(limit: RetryLimit, outcomes: Seq<AttemptOutcome>)
    requires
        outcomes.len() >= 1,
        outcomes[0] == (AttemptOutcome::Failure { retryable: false }),
    ensures
        spec_retry_outcome(limit, outcomes) == Some((1nat, outcomes[0])),
{
    assert(outcomes[0].spec_stops(limit, 1));
}

/// Under an unlimited policy, an operation that first succeeds on attempt
/// `k` (failing retryably before that) is invoked exactly `k` times, and the
/// loop hands back that `k`th outcome.
pub proof fn lemma_unlimited_succeeds_at(k: usize, outcomes: Seq<AttemptOutcome>)
    requires
        k >= 1,
        outcomes.len() >= k,
        outcomes[k - 1] == AttemptOutcome::Success,
        forall|i: int|
            0 <= i < k - 1 ==> (#[trigger] outcomes[i]) == (AttemptOutcome::Failure {
                retryable: true,
            }),
    ensures
        spec_retry_outcome(RetryLimit::Unlimited, outcomes) == Some(
            (k as nat, outcomes[k - 1]),
        ),
{
    lemma_unlimited_succeeds_at_from(k, outcomes, 0);
}

proof fn lemma_unlimited_succeeds_at_from(k: usize, outcomes: Seq<AttemptOutcome>, made: nat)
    requires
        k >= 1,
        outcomes.len() >= k,
        outcomes[k - 1] == AttemptOutcome::Success,
        forall|i: int|
            0 <= i < k - 1 ==> (#[trigger] outcomes[i]) == (AttemptOutcome::Failure {
                retryable: true,
            }),
    ensures
        spec_retry_run(RetryLimit::Unlimited, outcomes, made) == Some(
            ((made + k) as nat, outcomes[k - 1]),
        ),
    decreases k,
{
    if k == 1 {
        assert(outcomes[0].spec_stops(RetryLimit::Unlimited, made + 1));
    } else {
        assert(outcomes[0] == (AttemptOutcome::Failure { retryable: true }));
        assert(!outcomes[0].spec_stops(RetryLimit::Unlimited, made + 1));
        lemma_unlimited_succeeds_at_from((k - 1) as usize, outcomes.drop_first(), made + 1);
        assert(outcomes.drop_first()[k - 2] == outcomes[k - 1]);
    }
}

/// The backoff sequence a policy generates: the wait before the first retry
/// is the initial backoff capped at the maximum, and each later wait is the
/// previous one advanced by [`spec_next_backoff`].
pub open spec fn spec_backoff_seq(policy: RetryPolicy, k: nat) -> u64
    decreases k,
{
    if k == 0 {
        if policy.initial_backoff_ms <= policy.max_backoff_ms {
            policy.initial_backoff_ms
        } else {
            policy.max_backoff_ms
        }
    } else {
        spec_next_backoff(spec_backoff_seq(policy, (k - 1) as nat), policy)
    }
}

/// Every wait in the backoff sequence stays at or below the policy's
/// maximum backoff.
pub proof fn lemma_backoff_capped(policy: RetryPolicy, k: nat)
    ensures
        spec_backoff_seq(policy, k) <= policy.max_backoff_ms,
    decreases k,
{
    if k > 0 {
        lemma_backoff_capped(policy, (k - 1) as nat);
    }
}

/// For a well-formed policy (multiplier at least 1.0), the backoff sequence
/// never decreases.
pub proof fn lemma_backoff_non_decreasing(policy: RetryPolicy, k: nat)
    requires
        policy.wf(),
    ensures
        spec_backoff_seq(policy, k) <= spec_backoff_seq(policy, k + 1),
{
    lemma_backoff_capped(policy, k);
    let cur = spec_backoff_seq(policy, k);
    assert(cur as int * policy.backoff_multiplier_hundredths as int >= cur as int * 100)
        by (nonlinear_arith)
        requires
            policy.backoff_multiplier_hundredths >= 100,
            cur >= 0,
    ;
}

/// Per-invocation retry progress: how many attempts were made and the wait
/// that precedes the next retry. Entirely local to one invocation; never
/// shared across calls.
#[derive(Debug, Clone, Copy, PartialEq, Eq, Structural)]
pub struct RetryState {
    /// Attempts made so far, counting the first call.
    pub attempts: usize,
    /// The wait, in milliseconds, to suspend for before the next retry.
    pub backoff_ms: u64,
}

/// What the retry loop does after an attempt: stop and hand the outcome to
/// the caller, or suspend for the given wait and try again.
#[derive(Debug, Clone, Copy, PartialEq, Eq, Structural)]
pub enum RetryDecision {
    /// Return the last outcome unchanged.
    Stop,
    /// Suspend for this many milliseconds, then make the next attempt.
    RetryAfter(u64),
}

impl RetryPolicy {
    /// Fresh state for one retry invocation: no attempts made, first wait
    /// equal to the initial backoff capped at the maximum backoff.
    pub fn begin(&self) -> (s: RetryState)
        ensures
            s.attempts == 0,
            s.backoff_ms == if self.initial_backoff_ms <= self.max_backoff_ms {
                self.initial_backoff_ms
            } else {
                self.max_backoff_ms
            },
    {
        let first = if self.initial_backoff_ms <= self.max_backoff_ms {
            self.initial_backoff_ms
        } else {
            self.max_backoff_ms
        };
        RetryState { attempts: 0, backoff_ms: first }
    }
}

/// Counts the attempt that just finished and decides what the loop does
/// next: stop on success, on a non-retryable failure, or on an exhausted
/// finite limit; otherwise retry after the current wait and advance the
/// backoff.
pub fn note_outcome(policy: &RetryPolicy, state: &mut RetryState, outcome: AttemptOutcome) -> (d:
    RetryDecision)
    requires
        old(state).attempts < usize::MAX,
    ensures
        final(state).attempts == old(state).attempts + 1,
        (d is Stop) == outcome.spec_stops(policy.max_attempts, final(state).attempts as nat),
        d matches RetryDecision::RetryAfter(wait) ==> wait == old(state).backoff_ms
            && final(state).backoff_ms == spec_next_backoff(old(state).backoff_ms, *policy),
        d is Stop ==> final(state).backoff_ms == old(state).backoff_ms,
{
    state.attempts = state.attempts + 1;
    let stops = match outcome {
        AttemptOutcome::Success => true,
        AttemptOutcome::Failure { retryable } => {
            let exhausted = match policy.max_attempts {
                RetryLimit::Unlimited => false,
                RetryLimit::Finite(n) => state.attempts >= n,
            };
            exhausted || !retryable
        },
    };
    if stops {
        RetryDecision::Stop
    } else {
        let wait = state.backoff_ms;
        state.backoff_ms = next_backoff(state.backoff_ms, policy);
        RetryDecision::RetryAfter(wait)
    }
}

/// The retry loop run against a fixed script of attempt outcomes, exactly as
/// the asynchronous driver runs it against live operations, minus the waits.
///
/// Returns how many attempts were made and the outcome the loop stopped at,
/// or `None` when the script runs out before the loop stops.
pub fn retry_with_outcomes(policy: &RetryPolicy, outcomes: &Vec<AttemptOutcome>) -> (r: Option<
    (usize, AttemptOutcome),
>)
    requires
        outcomes@.len() < usize::MAX,
    ensures
        match spec_retry_outcome(policy.max_attempts, outcomes@) {
            Some((attempts, outcome)) => r matches Some((a, o)) && a as nat == attempts && o
                == outcome,
            None => r is None,
        },
{
    let mut state = policy.begin();
    let mut i: usize = 0;
    proof {
        assert(outcomes@.skip(0) =~= outcomes@);
    }
    loop
        invariant
            i <= outcomes@.len(),
            outcomes@.len() < usize::MAX,
            state.attempts == i,
            spec_retry_run(policy.max_attempts, outcomes@.skip(i as int), i as nat)
                == spec_retry_outcome(policy.max_attempts, outcomes@),
        decreases outcomes@.len() - i,
    {
        if i == outcomes.len() {
            return None;
        }
        let outcome = outcomes[i];
        let ghost before = outcomes@.skip(i as int);
        assert(before[0] == outcomes@[i as int]);
        let d = note_outcome(policy, &mut state, outcome);
        i = i + 1;
        match d {
            RetryDecision::Stop => {
                return Some((i, outcome));
            },
            RetryDecision::RetryAfter(_wait) => {
                assert(before.drop_first() =~= outcomes@.skip(i as int));
            },
        }
    }
}

} // verus!
