//! When to ask a provider again.

use vstd::prelude::*;

verus! {

/// Maximum number of times to try fetching a proof.
pub const MAX_PROOF_RETRIES: u32 = 5;

/// Milliseconds to wait after the first failure.
pub const INITIAL_RETRY_BACKOFF: u64 = 1000;

/// Milliseconds to wait after so many failures. The wait doubles with each.
pub open spec fn backoff_after(failures: nat) -> nat
    decreases failures,
{
    if failures <= 1 {
        INITIAL_RETRY_BACKOFF as nat
    } else {
        2 * backoff_after((failures - 1) as nat)
    }
}

/// A request that has failed a number of times and can be made again.
#[derive(Debug)]
pub struct Retry {
    attempts: u32,
    backoff: u64,
}

/// What to do after a failure.
#[derive(Debug)]
pub enum RetryStep {
    /// Wait the number of milliseconds and ask again.
    Wait(u64, Retry),
    /// Report the failure of so many attempts.
    GiveUp(u32),
}

impl Retry {
    #[verifier::type_invariant]
    spec fn is_open(self) -> bool {
        self.attempts < MAX_PROOF_RETRIES && self.backoff == backoff_after(
            (self.attempts + 1) as nat,
        )
    }

    /// The number of attempts that have failed.
    pub closed spec fn failures(&self) -> nat {
        self.attempts as nat
    }

    /// A request that has not failed yet.
    pub fn new() -> (r: Self)
        ensures
            r.failures() == 0,
    {
        Retry { attempts: 0, backoff: INITIAL_RETRY_BACKOFF }
    }

    /// Decides what to do after another failure.
    pub fn failed(self) -> (r: RetryStep)
        ensures
            match r {
                RetryStep::Wait(backoff, retry) => {
                    &&& self.failures() + 1 < MAX_PROOF_RETRIES
                    &&& retry.failures() == self.failures() + 1
                    &&& backoff == backoff_after(retry.failures())
                },
                RetryStep::GiveUp(attempts) => {
                    &&& attempts == self.failures() + 1
                    &&& attempts == MAX_PROOF_RETRIES
                },
            },
    {
        proof {
            use_type_invariant(&self);
            assert(backoff_after(1) == 1000);
            assert(backoff_after(2) == 2000);
            assert(backoff_after(3) == 4000);
            assert(backoff_after(4) == 8000);
            assert(backoff_after(5) == 16000);
        }
        let attempts: u32 = self.attempts + 1;
        if attempts >= MAX_PROOF_RETRIES {
            return RetryStep::GiveUp(attempts);
        }
        RetryStep::Wait(self.backoff, Retry { attempts, backoff: self.backoff * 2 })
    }
}

/// Milliseconds waited in all through so many failures.
pub open spec fn total_backoff(failures: nat) -> nat
    decreases failures,
{
    if failures == 0 {
        0
    } else {
        total_backoff((failures - 1) as nat) + backoff_after(failures)
    }
}

/// The waits of a request that is given up add up to fifteen times the first wait.
pub proof fn law_total_backoff()
    ensures
        total_backoff((MAX_PROOF_RETRIES - 1) as nat) == 15 * INITIAL_RETRY_BACKOFF,
{
    assert(backoff_after(1) == 1000);
    assert(backoff_after(2) == 2000);
    assert(backoff_after(3) == 4000);
    assert(backoff_after(4) == 8000);
    assert(total_backoff(0) == 0);
    assert(total_backoff(1) == 1000);
    assert(total_backoff(2) == 3000);
    assert(total_backoff(3) == 7000);
    assert(total_backoff(4) == 15000);
}

/// The first wait is a second, and every wait is twice the one before.
pub proof fn law_backoff_doubles(failures: nat)
    requires
        failures >= 1,
    ensures
        backoff_after(1) == 1000,
        backoff_after(failures + 1) == 2 * backoff_after(failures),
{
}

} // verus!
