//! When a failed operation is tried again.

use crate::error::PortError;
use vstd::prelude::*;

verus! {

/// How many attempts a bound allows: at least one.
pub open spec fn limit(max_attempts: u32) -> u32 {
    if max_attempts == 0 {
        1
    } else {
        max_attempts
    }
}

/// Whether attempts are left after the `attempt`-th.
pub open spec fn left(max_attempts: u32, attempt: u32) -> bool {
    attempt < limit(max_attempts)
}

/// Whether an operation that failed in its `attempt`-th attempt is tried again:
/// if that can help, and attempts are left.
pub open spec fn retries(max_attempts: u32, attempt: u32, e: PortError) -> bool {
    e.retryable() && left(max_attempts, attempt)
}

/// Whether attempts are left: see [`left`].
pub(crate) fn has_left(max_attempts: u32, attempt: u32) -> (r: bool)
    ensures
        r == left(max_attempts, attempt),
{
    let limit: u32 = if max_attempts == 0 {
        1
    } else {
        max_attempts
    };
    attempt < limit
}

/// Whether to try again: see [`retries`].
pub(crate) fn can_retry(max_attempts: u32, attempt: u32, e: &PortError) -> (r: bool)
    ensures
        r == retries(max_attempts, attempt, *e),
{
    e.is_retryable() && has_left(max_attempts, attempt)
}

/// How often, and after which pauses, a failed operation is tried again. Times
/// are in milliseconds.
#[derive(Debug, Clone, Copy, PartialEq, Eq, Structural)]
pub struct RetryPolicy {
    /// Attempts in all, the first one included.
    pub max_attempts: u32,
    /// The longest pause before the second attempt.
    pub base_delay: u64,
    /// The longest pause before any attempt.
    pub max_delay: u64,
}

impl Default for RetryPolicy {
    fn default() -> (r: RetryPolicy)
        ensures
            r == (RetryPolicy { max_attempts: 3, base_delay: 20, max_delay: 1000 }),
    {
        RetryPolicy { max_attempts: 3, base_delay: 20, max_delay: 1000 }
    }
}

impl RetryPolicy {
    /// The longest pause before an attempt: none before the first, the base
    /// before the second, twice as long before each further one, up to the
    /// maximum.
    pub open spec fn pause(self, attempt: nat) -> int
        decreases attempt,
    {
        if attempt <= 1 {
            0
        } else if attempt == 2 {
            if self.base_delay <= self.max_delay {
                self.base_delay as int
            } else {
                self.max_delay as int
            }
        } else {
            let doubled = 2 * self.pause((attempt - 1) as nat);
            if doubled <= self.max_delay {
                doubled
            } else {
                self.max_delay as int
            }
        }
    }

    /// The longest pause before an attempt, counted from one.
    pub fn pause_before(&self, attempt: u32) -> (r: u64)
        ensures
            r == self.pause(attempt as nat),
    {
        if attempt <= 1 {
            return 0;
        }
        let mut pause: u64 = if self.base_delay <= self.max_delay {
            self.base_delay
        } else {
            self.max_delay
        };
        let mut i: u32 = 2;
        while i < attempt
            invariant
                2 <= i <= attempt,
                pause == self.pause(i as nat),
                pause <= self.max_delay,
            decreases attempt - i,
        {
            pause = if pause <= self.max_delay - pause {
                pause + pause
            } else {
                self.max_delay
            };
            i = i + 1;
        }
        pause
    }
}

/// A pause with equal jitter: at least half of the longest one, and beyond that
/// as `chance` has it.
pub fn equal_jitter(longest: u64, chance: u64) -> (r: u64)
    ensures
        r == longest - longest / 2 + chance as int % (longest / 2 + 1),
        longest - longest / 2 <= r <= longest,
{
    let half: u64 = longest / 2;
    let extra: u64 = chance % (half + 1);
    longest - half + extra
}

/// A failed operation is tried again exactly if trying again can help, which an
/// unavailable dependency and a transient failure allow, and fewer attempts were
/// made than the bound says; a bound of zero means one attempt.
pub proof fn law_retries_end(max_attempts: u32, attempt: u32, e: PortError)
    ensures
        attempt >= 1 ==> (retries(max_attempts, attempt, e) <==> (e is Unavailable || e
            is Transient) && attempt < max_attempts),
        attempt >= 1 ==> (left(max_attempts, attempt) <==> attempt < max_attempts),
        1 <= limit(max_attempts),
        max_attempts >= 1 ==> limit(max_attempts) == max_attempts,
        max_attempts == 0 ==> limit(max_attempts) == 1,
{
}

/// Pauses back off exponentially: there is none before the first attempt, and the
/// one before the `n + 2`-th is the base delay doubled `n` times, but never more
/// than the maximum.
pub proof fn law_pauses_double(policy: RetryPolicy, n: nat)
    ensures
        policy.pause(0) == 0,
        policy.pause(1) == 0,
        ({
            let grown = policy.base_delay * vstd::arithmetic::power2::pow2(n);
            policy.pause(n + 2) == if grown <= policy.max_delay {
                grown
            } else {
                policy.max_delay as int
            }
        }),
        policy.pause(n + 2) <= policy.pause(n + 3),
    decreases n,
{
    vstd::arithmetic::power2::lemma2_to64();
    if n > 0 {
        let before = vstd::arithmetic::power2::pow2((n - 1) as nat);
        law_pauses_double(policy, (n - 1) as nat);
        vstd::arithmetic::power2::lemma_pow2_unfold(n);
        assert(policy.base_delay * (2 * before) == 2 * (policy.base_delay * before))
            by (nonlinear_arith);
    }
}

} // verus!
