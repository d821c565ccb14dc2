//! Trying again after a failure, with longer and longer waits.

use vstd::prelude::*;

verus! {

/// The longest wait after a failure, in seconds.
pub const MAX_BACKOFF_SECS: u64 = 60;

/// How often something is attempted while it fails: once more after the longest wait.
pub const MAX_ATTEMPTS: u32 = 8;

/// How long to wait after so many failed attempts: one second after the first, twice as
/// long after each further one, up to the longest wait.
pub open spec fn backoff(attempts: int) -> int {
    let doubled = vstd::arithmetic::power2::pow2((attempts - 1) as nat) as int;
    if doubled < MAX_BACKOFF_SECS {
        doubled
    } else {
        MAX_BACKOFF_SECS as int
    }
}

/// The waits start at one second, double, and never exceed the longest wait.
pub proof fn law_backoff_doubles(attempts: int)
    requires
        attempts >= 1,
    ensures
        backoff(1) == 1,
        1 <= backoff(attempts) <= 60,
        backoff(attempts + 1) == if 2 * backoff(attempts) < 60 {
            2 * backoff(attempts)
        } else {
            60
        },
{
    vstd::arithmetic::power2::lemma2_to64();
    vstd::arithmetic::power2::lemma_pow2_pos((attempts - 1) as nat);
    vstd::arithmetic::power2::lemma_pow2_unfold(attempts as nat);
}

/// The wait before the last attempt is the longest one, and the only one of its length.
pub proof fn law_longest_wait_comes_last(attempts: int)
    requires
        1 <= attempts < 8,
    ensures
        backoff(attempts) == 60 <==> attempts == 7,
{
    vstd::arithmetic::power2::lemma2_to64();
}

/// Computes [`backoff`].
fn backoff_secs(attempts: u32) -> (secs: u64)
    requires
        attempts >= 1,
    ensures
        secs == backoff(attempts as int),
{
    let mut secs: u64 = 1;
    let mut i: u32 = 1;
    proof {
        law_backoff_doubles(1);
    }
    while i < attempts
        invariant
            1 <= i <= attempts,
            secs == backoff(i as int),
            secs <= MAX_BACKOFF_SECS,
        decreases attempts - i,
    {
        proof {
            law_backoff_doubles(i as int);
        }
        secs = if 2 * secs < MAX_BACKOFF_SECS {
            2 * secs
        } else {
            MAX_BACKOFF_SECS
        };
        i += 1;
    }
    secs
}

/// Counts the attempts at one thing.
pub struct Retry {
    pub attempts: u32,
}

impl Retry {
    /// No attempt yet.
    pub fn new() -> (retry: Retry)
        ensures
            retry.attempts == 0,
    {
        Retry { attempts: 0 }
    }

    /// Takes the failure of one more attempt, and says how many seconds to wait before
    /// the next one; with nothing to wait for, the failure is final.
    pub fn after_failure(&mut self) -> (wait: Option<u64>)
        requires
            old(self).attempts < MAX_ATTEMPTS,
        ensures
            final(self).attempts == old(self).attempts + 1,
            match wait {
                Some(secs) => final(self).attempts < MAX_ATTEMPTS && secs == backoff(
                    final(self).attempts as int,
                ),
                None => final(self).attempts == MAX_ATTEMPTS,
            },
    {
        self.attempts = self.attempts + 1;
        if self.attempts < MAX_ATTEMPTS {
            Some(backoff_secs(self.attempts))
        } else {
            None
        }
    }
}

} // verus!
