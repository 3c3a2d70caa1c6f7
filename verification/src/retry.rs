//! When a cloud request is tried again, and after how long.

use vstd::prelude::*;
use crate::text::{chars_of, parse_u64, parse_u64_seq};

verus! {

/// Requests are tried at most this many times more after a throttled or
/// unavailable answer.
pub const MAX_RETRIES: u32 = 5;

/// `2^n`.
pub open spec fn pow2(n: nat) -> nat
    decreases n,
{
    if n == 0 {
        1
    } else {
        2 * pow2((n - 1) as nat)
    }
}

/// `2_u64.pow(n)` for a small `n`.
pub fn pow2_u64(n: u32) -> (r: u64)
    requires
        n <= 16,
    ensures
        r == pow2(n as nat),
{
    let mut r: u64 = 1;
    let mut i: u32 = 0;
    while i < n
        invariant
            i <= n <= 16,
            r == pow2(i as nat),
        decreases n - i,
    {
        proof {
            lemma_pow2_mono(i as nat + 1, 16);
            assert(pow2(16) == 65536) by {
                reveal_with_fuel(pow2, 17);
            }
        }
        r = r * 2;
        i = i + 1;
    }
    r
}

pub proof fn lemma_pow2_mono(a: nat, b: nat)
    requires
        a <= b,
    ensures
        pow2(a) <= pow2(b),
    decreases b,
{
    if a < b {
        lemma_pow2_mono(a, (b - 1) as nat);
    }
}

/// The delay, in seconds, that a `Retry-After` header asks for, when it is
/// a whole number of seconds.
pub open spec fn retry_after_secs(header: Option<Seq<char>>) -> Option<u64> {
    match header {
        Some(h) => parse_u64_seq(h),
        None => None,
    }
}

/// What to do after a throttled answer.
#[derive(Debug)]
pub enum RetryStep {
    /// Try again after waiting `delay_secs`; `attempts` counts the retries.
    Retry { attempts: u32, delay_secs: u64 },
    /// Stop trying.
    GiveUp,
}

/// After a throttled or unavailable answer: one more attempt, after the
/// delay that `Retry-After` gives or else `2^attempts` seconds, at most a
/// minute; after five retries, give up.
pub open spec fn throttled_spec(attempts: u32, header: Option<Seq<char>>) -> (bool, u32, u64) {
    let next: int = attempts + 1;
    if next > MAX_RETRIES {
        (false, 0, 0)
    } else {
        let d: nat = match retry_after_secs(header) {
            Some(s) => s as nat,
            None => pow2(next as nat),
        };
        (true, next as u32, if d < 60 { d as u64 } else { 60 })
    }
}

pub fn throttled_step(attempts: u32, retry_after: Option<&str>) -> (r: RetryStep)
    requires
        attempts <= MAX_RETRIES,
    ensures
        ({
            let (go, a, d) = throttled_spec(attempts, match retry_after {
                Some(h) => Some(h@),
                None => None,
            });
            match r {
                RetryStep::Retry { attempts: ra, delay_secs } => go && ra == a && delay_secs == d,
                RetryStep::GiveUp => !go,
            }
        }),
{
    let next: u32 = attempts + 1;
    if next > MAX_RETRIES {
        return RetryStep::GiveUp;
    }
    let parsed = match retry_after {
        Some(h) => {
            let cs = chars_of(h);
            parse_u64(cs.as_slice())
        },
        None => None,
    };
    let delay: u64 = match parsed {
        Some(s) => s,
        None => pow2_u64(next),
    };
    RetryStep::Retry { attempts: next, delay_secs: if delay < 60 { delay } else { 60 } }
}

/// After a connection error or a timeout: retried while fewer than five
/// retries were made, waiting `2^attempts` seconds, at most half a minute.
pub open spec fn reconnect_spec(attempts: u32, transient: bool) -> Option<(u32, u64)> {
    if transient && attempts < MAX_RETRIES {
        let next: int = attempts + 1;
        let d: nat = pow2(next as nat);
        Some((next as u32, if d < 30 { d as u64 } else { 30 }))
    } else {
        None
    }
}

pub fn reconnect_step(attempts: u32, transient: bool) -> (r: Option<(u32, u64)>)
    requires
        attempts <= MAX_RETRIES,
    ensures
        r == reconnect_spec(attempts, transient),
{
    if transient && attempts < MAX_RETRIES {
        let next: u32 = attempts + 1;
        let d: u64 = pow2_u64(next);
        Some((next, if d < 30 { d } else { 30 }))
    } else {
        None
    }
}


/// Each retry counts one more attempt, waits at most a minute after a
/// throttled answer and at most half a minute after a connection error,
/// and no request is tried more than five extra times.
pub proof fn law_retry_bounded(attempts: u32, header: Option<Seq<char>>, transient: bool)
    requires
        attempts <= MAX_RETRIES,
    ensures
        ({
            let (go, a, d) = throttled_spec(attempts, header);
            go ==> a == attempts + 1 && a <= MAX_RETRIES && d <= 60
        }),
        reconnect_spec(attempts, transient) matches Some((a, d)) ==> a == attempts + 1 && a <= MAX_RETRIES && d <= 30,
        !throttled_spec(MAX_RETRIES, header).0,
        reconnect_spec(MAX_RETRIES, transient) is None,
{
}

} // verus!
