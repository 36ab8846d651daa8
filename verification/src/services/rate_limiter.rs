//! Spacing of requests to the translation service, and the delays between
//! retries of a failed request.

use vstd::prelude::*;

verus! {

/// The request times of `times` that are still inside the window at `now`:
/// those less than `window` milliseconds old (a time after `now` counts as
/// inside), in order.
pub open spec fn recent(times: Seq<u64>, now: u64, window: u32) -> Seq<u64>
    decreases times.len(),
{
    if times.len() == 0 {
        seq![]
    } else {
        let r = recent(times.drop_last(), now, window);
        if (now as int) - (times.last() as int) < window as int {
            r.push(times.last())
        } else {
            r
        }
    }
}

/// How long a request at `now` waits when the window holds `kept`: nothing
/// below `max_requests` requests; else the rest of the oldest request's
/// window, at most 500 ms, if any is left.
pub open spec fn wait_for(kept: Seq<u64>, now: u64, max_requests: u32, window: u32) -> Option<u32> {
    if kept.len() >= max_requests && kept.len() > 0 {
        let left = (window as int) - ((now as int) - (kept[0] as int));
        if left > 0 {
            Some(if left < 500 { left as u32 } else { 500u32 })
        } else {
            None
        }
    } else {
        None
    }
}

/// Allows at most `max_requests` requests in any window of
/// `window_duration_ms` milliseconds, by asking the caller to wait.
#[derive(Debug, Clone)]
pub struct RateLimiter {
    pub max_requests: u32,
    pub window_duration_ms: u32,
    /// The times of the requests made, in milliseconds, oldest first.
    pub last_requests: Vec<u64>,
}

impl RateLimiter {
    /// A limiter that has seen no request.
    pub fn new(max_requests: u32, window_duration_ms: u32) -> (r: RateLimiter)
        ensures
            r.max_requests == max_requests,
            r.window_duration_ms == window_duration_ms,
            r.last_requests@.len() == 0,
    {
        RateLimiter { max_requests, window_duration_ms, last_requests: Vec::new() }
    }

    /// Records a request at `now` (milliseconds): forgets the requests that
    /// left the window, and returns how many milliseconds to wait before
    /// sending it (`None`: send at once).
    pub fn acquire(&mut self, now: u64) -> (wait: Option<u32>)
        ensures
            final(self).max_requests == old(self).max_requests,
            final(self).window_duration_ms == old(self).window_duration_ms,
            final(self).last_requests@ == recent(old(self).last_requests@, now, old(self).window_duration_ms).push(now),
            wait == wait_for(
                recent(old(self).last_requests@, now, old(self).window_duration_ms),
                now,
                old(self).max_requests,
                old(self).window_duration_ms,
            ),
    {
        let ghost times = self.last_requests@;
        let window = self.window_duration_ms;
        let mut kept: Vec<u64> = Vec::new();
        let mut i: usize = 0;
        while i < self.last_requests.len()
            invariant
                times == self.last_requests@,
                window == self.window_duration_ms,
                i <= times.len(),
                kept@ == recent(times.take(i as int), now, window),
            decreases self.last_requests.len() - i,
        {
            assert(times.take(i + 1).drop_last() =~= times.take(i as int));
            assert(times.take(i + 1).last() == times[i as int]);
            let t = self.last_requests[i];
            let inside = if t > now { true } else { now - t < window as u64 };
            if inside {
                kept.push(t);
            }
            i += 1;
        }
        assert(times.take(times.len() as int) =~= times);
        let count = kept.len();
        let mut wait: Option<u32> = None;
        if count >= self.max_requests as usize && count > 0 {
            let oldest = kept[0];
            // The rest of the oldest request's window: window - (now - oldest).
            if oldest > now {
                let left: u128 = window as u128 + (oldest - now) as u128;
                wait = Some(if left < 500 { left as u32 } else { 500u32 });
            } else {
                let age = now - oldest;
                if age < window as u64 {
                    let left = window as u64 - age;
                    wait = Some(if left < 500 { left as u32 } else { 500u32 });
                }
            }
        }
        kept.push(now);
        self.last_requests = kept;
        wait
    }
}

/// How a failed request is retried. The delay grows by the factor
/// `backoff_numerator / backoff_denominator` after each failure.
#[derive(Debug, Clone, Copy)]
pub struct RetryConfig {
    pub max_attempts: u32,
    pub base_delay_ms: u32,
    pub max_delay_ms: u32,
    pub backoff_numerator: u32,
    pub backoff_denominator: u32,
}

impl Default for RetryConfig {
    /// Two attempts, 200 ms first delay, at most 2000 ms, factor 1.5.
    fn default() -> (r: RetryConfig)
        ensures
            r.max_attempts == 2,
            r.base_delay_ms == 200,
            r.max_delay_ms == 2000,
            r.backoff_numerator == 3,
            r.backoff_denominator == 2,
    {
        RetryConfig { max_attempts: 2, base_delay_ms: 200, max_delay_ms: 2000, backoff_numerator: 3, backoff_denominator: 2 }
    }
}

/// Where a sequence of attempts stands: the number of the next attempt
/// and the delay before the one after it.
#[derive(Debug, Clone, Copy, PartialEq, Eq, Structural)]
pub struct RetryState {
    pub attempt: u32,
    pub delay_ms: u32,
}

/// What to do after an attempt failed.
#[derive(Debug, Clone, Copy, PartialEq, Eq, Structural)]
pub enum RetryAction {
    /// Report the failure: it was the last attempt.
    GiveUp,
    /// Wait this many milliseconds, then try again.
    RetryAfter(u32),
}

/// The delay after `delay`: grown by the factor, at most `max_delay_ms`.
pub open spec fn grown_delay(c: RetryConfig, delay: u32) -> u32 {
    let g = (delay as int) * (c.backoff_numerator as int) / (c.backoff_denominator as int);
    if g < c.max_delay_ms as int {
        g as u32
    } else {
        c.max_delay_ms
    }
}

impl RetryConfig {
    /// The state before the first attempt.
    pub fn start(&self) -> (s: RetryState)
        ensures
            s.attempt == 1,
            s.delay_ms == self.base_delay_ms,
    {
        RetryState { attempt: 1, delay_ms: self.base_delay_ms }
    }

    /// After attempt `state.attempt` failed: give up if it was the last
    /// one; else wait `state.delay_ms` and go on with the next attempt and
    /// the grown delay.
    pub fn after_failure(&self, state: RetryState) -> (r: (RetryAction, RetryState))
        requires
            self.backoff_denominator > 0,
            state.attempt < u32::MAX,
        ensures
            state.attempt >= self.max_attempts ==> r.0 == RetryAction::GiveUp && r.1 == state,
            state.attempt < self.max_attempts ==> r.0 == RetryAction::RetryAfter(state.delay_ms) && r.1 == (RetryState {
                attempt: (state.attempt + 1) as u32,
                delay_ms: grown_delay(*self, state.delay_ms),
            }),
    {
        if state.attempt >= self.max_attempts {
            return (RetryAction::GiveUp, state);
        }
        let d = state.delay_ms as u64;
        let n = self.backoff_numerator as u64;
        assert(d * n <= 0xffff_ffff * 0xffff_ffffu64) by (nonlinear_arith)
            requires
                d <= 0xffff_ffff,
                n <= 0xffff_ffff,
        ;
        let g: u64 = d * n / self.backoff_denominator as u64;
        let next: u32 = if g < self.max_delay_ms as u64 { g as u32 } else { self.max_delay_ms };
        (RetryAction::RetryAfter(state.delay_ms), RetryState { attempt: state.attempt + 1, delay_ms: next })
    }
}

} // verus!
