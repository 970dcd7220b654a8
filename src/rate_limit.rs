//! Token-bucket pacing of one connection's inbound messages.
//!
//! Time is in nanoseconds of a monotonic clock and tokens are counted in
//! billionths, so refills are exact: `elapsed_ns * rate_per_sec` billionths
//! of a token.

use vstd::prelude::*;

verus! {

/// Billionths of a token in one token; nanoseconds in one second.
pub const UNITS_PER_TOKEN: u128 = 1_000_000_000;

/// A token bucket. With a rate of zero every message is allowed.
#[derive(Clone, Copy, Debug)]
pub struct RateLimiter {
    pub rate_per_sec: u64,
    pub burst: u64,
    /// Billionths of a token available.
    pub tokens: u128,
    /// Clock reading of the last refill, in nanoseconds.
    pub last_refill: u64,
}

/// The largest number of token billionths the bucket holds.
pub open spec fn capacity(burst: u64) -> int {
    burst as int * UNITS_PER_TOKEN as int
}

/// The bucket after one `allow` at `now`, and its answer.
pub open spec fn bucket_step(l: RateLimiter, now: u64) -> (RateLimiter, bool) {
    if l.rate_per_sec == 0 {
        (l, true)
    } else {
        let elapsed = if now >= l.last_refill {
            now - l.last_refill
        } else {
            0
        };
        let filled = l.tokens as int + elapsed * l.rate_per_sec as int;
        let tokens = if filled > capacity(l.burst) {
            capacity(l.burst)
        } else {
            filled
        };
        if tokens >= UNITS_PER_TOKEN {
            (RateLimiter { tokens: (tokens - UNITS_PER_TOKEN) as u128, last_refill: now, ..l }, true)
        } else {
            (RateLimiter { tokens: tokens as u128, last_refill: now, ..l }, false)
        }
    }
}

impl RateLimiter {
    /// Tokens never exceed the burst.
    pub open spec fn wf(&self) -> bool {
        self.tokens <= capacity(self.burst)
    }

    /// A full bucket, last refilled at `now`.
    pub fn new(rate_per_sec: u64, burst: u64, now: u64) -> (r: RateLimiter)
        ensures
            r.wf(),
            r.rate_per_sec == rate_per_sec,
            r.burst == burst,
            r.tokens == capacity(burst),
            r.last_refill == now,
    {
        RateLimiter {
            rate_per_sec,
            burst,
            tokens: burst as u128 * UNITS_PER_TOKEN,
            last_refill: now,
        }
    }

    /// Refills for the time since the last call, capped at the burst; then
    /// takes one token if there is one.
    pub fn allow(&mut self, now: u64) -> (r: bool)
        requires
            old(self).wf(),
        ensures
            final(self).wf(),
            (*final(self), r) == bucket_step(*old(self), now),
    {
        if self.rate_per_sec == 0 {
            return true;
        }
        let elapsed: u64 = if now >= self.last_refill {
            now - self.last_refill
        } else {
            0
        };
        self.last_refill = now;
        let cap: u128 = self.burst as u128 * UNITS_PER_TOKEN;
        assert((elapsed as int) * (self.rate_per_sec as int) <= (u64::MAX as int) * (
        u64::MAX as int)) by (nonlinear_arith)
            requires
                0 <= elapsed <= u64::MAX,
                0 <= self.rate_per_sec <= u64::MAX,
        ;
        let add: u128 = elapsed as u128 * self.rate_per_sec as u128;
        let room: u128 = cap - self.tokens;
        self.tokens = if add >= room {
            cap
        } else {
            self.tokens + add
        };
        if self.tokens >= UNITS_PER_TOKEN {
            self.tokens = self.tokens - UNITS_PER_TOKEN;
            true
        } else {
            false
        }
    }
}

/// The bucket after a series of calls, and how many were allowed.
pub open spec fn bucket_run(l: RateLimiter, times: Seq<u64>) -> (RateLimiter, nat)
    decreases times.len(),
{
    if times.len() == 0 {
        (l, 0)
    } else {
        let (before, n) = bucket_run(l, times.drop_last());
        let (after, ok) = bucket_step(before, times.last());
        (after, if ok {
            n + 1
        } else {
            n
        })
    }
}

/// Whether clock readings never go backwards and none precedes `start`.
pub open spec fn monotone_from(start: u64, times: Seq<u64>) -> bool {
    &&& forall|i: int| 0 <= i < times.len() ==> start <= #[trigger] times[i]
    &&& forall|i: int, j: int| 0 <= i < j < times.len() ==> #[trigger] times[i] <= #[trigger] times[j]
}

proof fn lemma_bucket_run(rate: u64, burst: u64, start: u64, times: Seq<u64>)
    requires
        rate > 0,
        monotone_from(start, times),
    ensures
        ({
            let (l, n) = bucket_run(RateLimiter::new_spec(rate, burst, start), times);
            let end = if times.len() == 0 {
                start
            } else {
                times.last()
            };
            &&& l.rate_per_sec == rate
            &&& l.burst == burst
            &&& l.last_refill == end
            &&& l.tokens <= capacity(burst)
            &&& n * UNITS_PER_TOKEN + l.tokens <= capacity(burst) + (end - start) * rate
        }),
    decreases times.len(),
{
    if times.len() > 0 {
        let prev = times.drop_last();
        assert(monotone_from(start, prev));
        lemma_bucket_run(rate, burst, start, prev);
        let (l, n) = bucket_run(RateLimiter::new_spec(rate, burst, start), prev);
        let t = times.last();
        let last = l.last_refill;
        assert(last <= t) by {
            if prev.len() > 0 {
                assert(prev.last() == times[prev.len() - 1]);
            }
        }
        let elapsed = t - last;
        assert((t - start) * rate == (last - start) * rate + elapsed * rate) by (nonlinear_arith)
            requires
                elapsed == t - last,
                start <= last,
        ;
        assert(elapsed * rate >= 0) by (nonlinear_arith)
            requires
                elapsed >= 0,
                rate >= 0,
        ;
    }
}

impl RateLimiter {
    /// `new` as a value.
    pub open spec fn new_spec(rate_per_sec: u64, burst: u64, now: u64) -> RateLimiter {
        RateLimiter {
            rate_per_sec,
            burst,
            tokens: capacity(burst) as u128,
            last_refill: now,
        }
    }
}

/// Over any series of calls on a monotonic clock, a bucket created at
/// `start` allows at most `burst + T * rate_per_sec` messages, `T` being the
/// seconds from `start` to the last call (here in nanoseconds and billionths).
pub proof fn allowed_messages_are_bounded(rate_per_sec: u64, burst: u64, start: u64, times: Seq<u64>)
    requires
        rate_per_sec > 0,
        times.len() > 0,
        monotone_from(start, times),
    ensures
        bucket_run(RateLimiter::new_spec(rate_per_sec, burst, start), times).1 * UNITS_PER_TOKEN
            <= capacity(burst) + (times.last() - start) * rate_per_sec,
{
    lemma_bucket_run(rate_per_sec, burst, start, times);
}

} // verus!
