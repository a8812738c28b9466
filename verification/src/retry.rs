//! Bounded retry with exponential backoff.
//!
//! One operation that may fail transiently is given a few extra chances:
//! after the failed attempt numbered `attempt` (attempts are numbered from
//! one) the caller's sleep runs for two-to-the-`attempt` seconds, and after
//! `max_attempts` retries the last failure is returned. The executor knows
//! nothing of what the operation does; sleeping is the caller's, handed in
//! as a callback, so the pause blocks only the worker that asked for it.

use vstd::prelude::*;
use vstd::arithmetic::power2::{lemma_pow2_strictly_increases, lemma_pow2_unfold, lemma2_to64, pow2};

verus! {

/// Seconds to wait after failed attempt number `attempt`.
pub fn backoff_delay_seconds(attempt: u32) -> (r: u64)
    requires
        attempt <= 31,
    ensures
        r as nat == pow2(attempt as nat),
{
    let mut r: u64 = 1;
    let mut i: u32 = 0;
    proof {
        lemma2_to64();
    }
    while i < attempt
        invariant
            i <= attempt <= 31,
            r as nat == pow2(i as nat),
        decreases attempt - i,
    {
        proof {
            lemma2_to64();
            if (i as nat) < 31 {
                lemma_pow2_strictly_increases(i as nat, 31);
            }
            lemma_pow2_unfold((i + 1) as nat);
        }
        r = r * 2;
        i += 1;
    }
    r
}

/// Runs `operation`; on failure retries up to `max_attempts` more times,
/// sleeping two-to-the-`attempt` seconds after failed attempt `attempt`.
/// Whatever comes back, success or the last failure, is an outcome of the
/// operation itself.
pub fn retry<T, E, F: Fn() -> Result<T, E>, S: Fn(u64)>(
    operation: F,
    max_attempts: u32,
    sleep: S,
) -> (r: Result<T, E>)
    requires
        max_attempts <= 31,
        call_requires(operation, ()),
        forall|d: u64| #[trigger] call_requires(sleep, (d,)),
    ensures
        call_ensures(operation, (), r),
{
    let mut attempt: u32 = 1;
    loop
        invariant
            1 <= attempt <= max_attempts + 1,
            max_attempts <= 31,
            call_requires(operation, ()),
            forall|d: u64| #[trigger] call_requires(sleep, (d,)),
        decreases max_attempts + 1 - attempt,
    {
        match operation() {
            Ok(t) => {
                return Ok(t);
            },
            Err(e) => {
                if attempt > max_attempts {
                    return Err(e);
                }
                let d = backoff_delay_seconds(attempt);
                sleep(d);
                attempt += 1;
            },
        }
    }
}

} // verus!
