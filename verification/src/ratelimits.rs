//! A simple timeout-based rate limiter.
//!
//! The limiter remembers the time of the last recorded hit and a minimum
//! interval between hits. Clock readings are supplied by the caller as
//! milliseconds, so every decision here is pure arithmetic.

use vstd::prelude::*;

verus! {

/// The number of milliseconds a caller must still wait at time `now` before
/// a limiter with the given state grants another hit: zero once
/// `min_interval` has elapsed since `last_hit`, the remainder otherwise.
/// When `last_hit + timeout` does not fit in a `u64` the wait is reported as
/// zero (the deadline is treated as unrepresentable rather than blocking
/// forever).
pub open spec fn wait_millis(last_hit: u64, timeout: u64, now: u64) -> u64 {
    if last_hit + timeout > u64::MAX {
        0u64
    } else if last_hit + timeout >= now {
        (last_hit + timeout - now) as u64
    } else {
        0u64
    }
}

/// Simple timeout-based rate limiter.
#[derive(Debug)]
pub struct RateLimiter {
    /// Time of the last recorded hit, in milliseconds.
    pub last_hit: u64,
    /// Minimum interval between hits, in milliseconds.
    pub timeout: u64,
}

impl RateLimiter {
    /// A fresh limiter at time `now` whose first query is allowed as soon as
    /// the clock advances past `now`.
    pub fn new(timeout: u64, now: u64) -> (r: Self)
        ensures
            r.timeout == timeout,
            r.last_hit == if now >= timeout { (now - timeout) as u64 } else { 0u64 },
    {
        Self { last_hit: now.saturating_sub(timeout), timeout }
    }

    /// Whether a hit may be dispatched at time `now`: strictly more than
    /// `timeout` milliseconds must have passed since `last_hit`.
    pub fn can_query(&self, now: u64) -> (r: bool)
        ensures
            r == (now > self.last_hit + self.timeout),
    {
        if now >= self.last_hit {
            now - self.last_hit > self.timeout
        } else {
            false
        }
    }

    /// How long to wait, from time `now`, until the minimum interval since
    /// the last hit has elapsed.
    pub fn get_timeout(&self, now: u64) -> (r: u64)
        ensures
            r == wait_millis(self.last_hit, self.timeout, now),
    {
        match self.last_hit.checked_add(self.timeout) {
            Some(deadline) => deadline.saturating_sub(now),
            None => 0,
        }
    }

    /// Record a hit at time `now`. The last-hit time only ever moves forward.
    pub fn update(&mut self, now: u64)
        requires
            now >= old(self).last_hit,
        ensures
            final(self).last_hit == now,
            final(self).timeout == old(self).timeout,
    {
        self.last_hit = now;
    }
}

/// The wait reported at time `now` ends at a representable time.
pub proof fn lemma_wait_fits(last_hit: u64, timeout: u64, now: u64)
    ensures
        now + wait_millis(last_hit, timeout, now) <= u64::MAX,
{
}

/// Once the wait reported by `get_timeout` has elapsed, and the deadline was
/// representable, any strictly later clock reading is granted a query.
pub proof fn lemma_wait_is_sufficient(rl: RateLimiter, now: u64, later: u64)
    requires
        rl.last_hit + rl.timeout <= u64::MAX,
        later > now + wait_millis(rl.last_hit, rl.timeout, now),
    ensures
        later > rl.last_hit + rl.timeout,
{
}

/// Before the wait reported by `get_timeout` has elapsed, no query is
/// granted: the throughput stays bounded by one hit per interval.
pub proof fn lemma_wait_is_necessary(rl: RateLimiter, now: u64, earlier: u64)
    requires
        now <= earlier <= now + wait_millis(rl.last_hit, rl.timeout, now),
        rl.last_hit + rl.timeout <= u64::MAX,
        now <= rl.last_hit + rl.timeout,
    ensures
        !(earlier > rl.last_hit + rl.timeout),
{
}

} // verus!
