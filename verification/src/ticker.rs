//! The jittered poll schedule.
//!
//! Resolver cycles are not driven by a fixed-period ticker: each next
//! deadline is placed uniformly at random in `[4/5·interval, 6/5·interval]`
//! after the previous one, and a scheduler that has fallen behind skips the
//! missed slots by adding further jittered periods until the deadline lies
//! in the future — it never fires in a burst.  Times are nanosecond counts
//! on a monotonic clock kept by the I/O shell.

use vstd::prelude::*;

verus! {

#[verifier::external_type_specification]
#[verifier::external_body]
pub struct ExThreadRng(rand::rngs::ThreadRng);

/// Relies on `rand::rng`: a handle to the thread-local generator, seeded
/// from the operating system.  Nothing is promised of it.  The call can
/// panic inside the outside crate if the operating system's entropy source
/// fails at a thread's first seeding — an environmental failure no input
/// of ours causes or avoids.
#[verifier::external_body]
pub fn new_rng() -> rand::rngs::ThreadRng {
    rand::rng()
}

/// Relies on `rand::RngExt::random_range` over `lo..=hi`: a value drawn
/// from the inclusive range.  The call panics on an empty range, so the
/// bounds must be ordered; nothing is promised about the distribution.
#[verifier::external_body]
fn random_in_range(rng: &mut rand::rngs::ThreadRng, lo: u64, hi: u64) -> (r: u64)
    requires
        lo <= hi,
    ensures
        lo <= r <= hi,
{
    rand::RngExt::random_range(rng, lo..=hi)
}

/// Advances the poll deadline past `now`: adds jittered periods drawn from
/// `[4/5·interval, 6/5·interval]` to `prev` until the deadline lies in the
/// future.  The shell has already slept until `prev`, so `prev <= now`.
///
/// The result always lies at least `4/5·interval` after the previous
/// deadline and at most `6/5·interval` after `now`; and a scheduler that is
/// on time (less than `4/5·interval` behind) advances by exactly one
/// period, so consecutive on-time deadlines are spaced within
/// `[4/5·interval, 6/5·interval]`.
pub fn advance_deadline(
    rng: &mut rand::rngs::ThreadRng,
    prev: u64,
    now: u64,
    interval: u64,
) -> (r: u64)
    requires
        prev <= now,
        5 <= interval,
        interval <= u64::MAX / 6,
        now + (interval * 6) / 5 < u64::MAX,
    ensures
        r > now,
        r <= now + (interval * 6) / 5,
        r >= prev + (interval * 4) / 5,
        now < prev + (interval * 4) / 5 ==> r <= prev + (interval * 6) / 5,
{
    let lo = interval * 4 / 5;
    let hi = interval * 6 / 5;
    proof {
        assert(lo <= hi) by (nonlinear_arith)
            requires
                lo == interval * 4 / 5,
                hi == interval * 6 / 5,
                interval <= u64::MAX / 6,
        ;
        assert(lo >= 4) by (nonlinear_arith)
            requires
                lo == interval * 4 / 5,
                5 <= interval,
                interval <= u64::MAX / 6,
        ;
    }
    let mut instant = prev;
    while instant <= now
        invariant
            lo == interval * 4 / 5,
            hi == interval * 6 / 5,
            4 <= lo <= hi,
            now + hi < u64::MAX,
            prev <= now,
            prev <= instant,
            instant == prev || instant >= prev + lo,
            instant == prev || instant <= now + hi,
            instant == prev || (now < prev + lo ==> instant <= prev + hi),
        decreases now + hi - instant,
    {
        let d = random_in_range(rng, lo, hi);
        proof {
            assert(instant + d < u64::MAX);
        }
        let next = instant + d;
        proof {
            assert(next >= instant + lo);
            if instant > prev && now < prev + lo {
                assert(instant >= prev + lo);
                assert(false);
            }
        }
        instant = next;
    }
    instant
}

} // verus!
