//! The retry policy of the fetcher: after a failed request, whether to try
//! again and after how long.
use vstd::prelude::*;

verus! {

/// Seconds to wait before repeating a failed request.
pub const RETRY_DELAY_SECS: u64 = 10;

/// How often a failing request is tried before the fetch is given up;
/// `None` tries until it succeeds.
#[derive(Clone, Copy, PartialEq, Eq, Structural, Debug)]
pub struct RetryPolicy {
    pub max_attempts: Option<u32>,
}

/// What follows a failed attempt.
#[derive(Clone, Copy, PartialEq, Eq, Structural, Debug)]
pub enum RetryStep {
    /// Wait this many seconds, then try again.
    RetryAfter(u64),
    /// Stop: the fetch is exhausted.
    GiveUp,
}

/// A fetch that failed on every allowed attempt.
#[derive(Clone, Copy, PartialEq, Eq, Structural, Debug)]
pub enum FetchError {
    Exhausted { attempts: u32 },
}

pub open spec fn retry_step(max_attempts: Option<u32>, failures: u32) -> RetryStep {
    match max_attempts {
        Some(n) => if failures >= n {
            RetryStep::GiveUp
        } else {
            RetryStep::RetryAfter(RETRY_DELAY_SECS)
        },
        None => RetryStep::RetryAfter(RETRY_DELAY_SECS),
    }
}

impl RetryPolicy {
    /// The policy of mandatory documents: retry until success.
    pub fn until_success() -> (r: RetryPolicy)
        ensures
            r.max_attempts is None,
    {
        RetryPolicy { max_attempts: None }
    }

    /// The policy of optional resources: at most `n` attempts.
    pub fn at_most(n: u32) -> (r: RetryPolicy)
        ensures
            r.max_attempts == Some(n),
    {
        RetryPolicy { max_attempts: Some(n) }
    }

    /// The step after `failures` failed attempts.
    pub fn after_failure(&self, failures: u32) -> (r: RetryStep)
        ensures
            r == retry_step(self.max_attempts, failures),
    {
        match self.max_attempts {
            Some(n) => if failures >= n {
                RetryStep::GiveUp
            } else {
                RetryStep::RetryAfter(RETRY_DELAY_SECS)
            },
            None => RetryStep::RetryAfter(RETRY_DELAY_SECS),
        }
    }

    /// The error that ends a fetch given up after `failures` attempts.
    pub fn exhausted(failures: u32) -> (r: FetchError)
        ensures
            r == (FetchError::Exhausted { attempts: failures }),
    {
        FetchError::Exhausted { attempts: failures }
    }
}

/// A policy without a bound never gives up; a bounded one gives up exactly
/// once its attempts are spent.
pub proof fn lemma_retry_bound(max_attempts: Option<u32>, failures: u32)
    ensures
        max_attempts is None ==> retry_step(max_attempts, failures) != RetryStep::GiveUp,
        max_attempts is Some ==> (retry_step(max_attempts, failures) == RetryStep::GiveUp
            <==> failures >= max_attempts->0),
{
}

/// Whether an HTTP status reports success: only a 2xx status does; any
/// other counts as a failed attempt.
pub fn is_success(status: u16) -> (r: bool)
    ensures
        r == (200 <= status && status <= 299),
{
    200 <= status && status <= 299
}

} // verus!
