//! How often the HTTP sources try a request, and how long they wait after
//! a failed try.
use vstd::prelude::*;

verus! {

/// The sources whose requests are retried.
#[derive(Debug, Clone, Copy, PartialEq, Eq, Structural)]
pub enum RetrySource {
    /// e-Gov law data: three tries, waiting 1, 2, 4 seconds.
    Egov,
    /// The official gazette: four tries, waiting 1, 2, 4, 8 seconds.
    Kanpo,
    /// The Diet minutes API: five tries, waiting 1, 3, 6, 12, 24 seconds.
    Kokkai,
}

/// `2` to the power `n`.
pub open spec fn two_pow(n: nat) -> nat
    decreases n,
{
    if n == 0 {
        1
    } else {
        2 * two_pow((n - 1) as nat)
    }
}

/// The number of tries of a request to `s`.
pub open spec fn attempts_spec(s: RetrySource) -> nat {
    match s {
        RetrySource::Egov => 3,
        RetrySource::Kanpo => 4,
        RetrySource::Kokkai => 5,
    }
}

/// The wait in milliseconds after the failed try `attempt` (counted from
/// 0) of a request to `s`: doubling from one second, except for the Diet
/// minutes API, whose waits are 1, 3, 6, 12 and 24 seconds.
pub open spec fn wait_ms_spec(s: RetrySource, attempt: nat) -> nat {
    match s {
        RetrySource::Kokkai => if attempt == 0 {
            1000
        } else if attempt == 1 {
            3000
        } else if attempt == 2 {
            6000
        } else if attempt == 3 {
            12000
        } else {
            24000
        },
        _ => 1000 * two_pow(attempt),
    }
}

/// The number of tries of a request to `s`.
pub fn fetch_attempts(s: RetrySource) -> (n: u32)
    ensures
        n == attempts_spec(s),
{
    match s {
        RetrySource::Egov => 3,
        RetrySource::Kanpo => 4,
        RetrySource::Kokkai => 5,
    }
}

/// The wait in milliseconds after the failed try `attempt` of a request
/// to `s`.
pub fn retry_wait_ms(s: RetrySource, attempt: u32) -> (ms: u64)
    requires
        attempt < attempts_spec(s),
    ensures
        ms == wait_ms_spec(s, attempt as nat),
{
    proof {
        reveal_with_fuel(two_pow, 5);
    }
    match s {
        RetrySource::Kokkai => {
            if attempt == 0 {
                1000
            } else if attempt == 1 {
                3000
            } else if attempt == 2 {
                6000
            } else if attempt == 3 {
                12000
            } else {
                24000
            }
        },
        _ => {
            if attempt == 0 {
                1000
            } else if attempt == 1 {
                2000
            } else if attempt == 2 {
                4000
            } else {
                8000
            }
        },
    }
}

} // verus!
