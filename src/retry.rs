use vstd::prelude::*;
use crate::classify::FileError;

verus! {

/// How many times one file's classification is attempted at most.
pub const MAX_ATTEMPTS: u32 = 3;

/// The pause after the first failed attempt; each later pause doubles it.
pub const BASE_DELAY_MS: u64 = 200;

/// The pause after the `n`-th failed attempt.
pub open spec fn backoff(n: nat) -> nat
    decreases n,
{
    if n <= 1 {
        BASE_DELAY_MS as nat
    } else {
        2 * backoff((n - 1) as nat)
    }
}

/// Whether a failure is worth another attempt: a model failure (a timeout or a
/// rate limit among them) while attempts remain. Any other failure is final.
pub open spec fn retried(err: FileError, attempts: u32) -> bool {
    err == FileError::Model && 1 <= attempts < MAX_ATTEMPTS
}

/// After `attempts` attempts, the last of which failed with `err`: how long to
/// wait before the next attempt, or `None` when the failure is final.
pub fn retry_delay(err: FileError, attempts: u32) -> (r: Option<u64>)
    ensures
        retried(err, attempts) ==> r == Some(backoff(attempts as nat) as u64),
        !retried(err, attempts) ==> r is None,
{
    if err != FileError::Model || attempts < 1 || attempts >= MAX_ATTEMPTS {
        return None;
    }
    let mut delay: u64 = BASE_DELAY_MS;
    let mut n: u32 = 1;
    while n < attempts
        invariant
            1 <= n <= attempts < MAX_ATTEMPTS,
            delay == backoff(n as nat),
            delay <= BASE_DELAY_MS * 4,
        decreases attempts - n,
    {
        delay = delay * 2;
        n = n + 1;
    }
    Some(delay)
}

} // verus!
