use vstd::prelude::*;
use vstd::string::StringExecFns;

verus! {

/// Requests allowed in one long window.
pub const MAX_REQUESTS_PER_2MIN: u32 = 100;

/// Requests allowed in one short window.
pub const MAX_REQUESTS_PER_SEC: u32 = 20;

/// Length of the long window, in seconds.
pub const LONG_WINDOW_SECS: i64 = 120;

/// Length of the short window, in seconds.
pub const SHORT_WINDOW_SECS: i64 = 1;

/// Milliseconds in a second.
pub const MILLIS_PER_SECOND: i64 = 1_000;

/// The requests a player has spent in two fixed windows: a long window of two
/// minutes and a short window of one second. Times are in milliseconds since
/// the Unix epoch.
#[derive(Debug)]
pub struct RequestLog {
    pub player: String,
    pub requests_per_2min: u32,
    pub requests_per_sec: u32,
    pub last_request: i64,
    pub window_2min_start: i64,
    pub window_1sec_start: i64,
}

/// A window opened at `start` has run out at `now`: more time than its
/// length has passed.
pub open spec fn window_expired(start: int, now: int, length_secs: int) -> bool {
    now - start > length_secs * MILLIS_PER_SECOND
}

/// Both windows have room for another request.
pub open spec fn can_request(log: RequestLog) -> bool {
    log.requests_per_2min < MAX_REQUESTS_PER_2MIN && log.requests_per_sec < MAX_REQUESTS_PER_SEC
}

/// One more than `count`, stopping at the largest `u32`.
pub open spec fn count_up(count: u32) -> u32 {
    if count < u32::MAX {
        (count + 1) as u32
    } else {
        count
    }
}

/// The log after one request made at `now`.
pub open spec fn after_request(log: RequestLog, now: i64) -> RequestLog {
    RequestLog {
        requests_per_2min: count_up(log.requests_per_2min),
        requests_per_sec: count_up(log.requests_per_sec),
        last_request: now,
        ..log
    }
}

/// The log after `k` requests made at `now`.
pub open spec fn after_requests(log: RequestLog, k: nat, now: i64) -> RequestLog
    decreases k,
{
    if k == 0 {
        log
    } else {
        after_request(after_requests(log, (k - 1) as nat, now), now)
    }
}

/// The log at `now`, with each expired window emptied and reopened at `now`.
pub open spec fn refreshed(log: RequestLog, now: i64) -> RequestLog {
    let long_expired = window_expired(log.window_2min_start as int, now as int, LONG_WINDOW_SECS as int);
    let short_expired = window_expired(log.window_1sec_start as int, now as int, SHORT_WINDOW_SECS as int);
    RequestLog {
        requests_per_2min: if long_expired {
            0
        } else {
            log.requests_per_2min
        },
        window_2min_start: if long_expired {
            now
        } else {
            log.window_2min_start
        },
        requests_per_sec: if short_expired {
            0
        } else {
            log.requests_per_sec
        },
        window_1sec_start: if short_expired {
            now
        } else {
            log.window_1sec_start
        },
        ..log
    }
}

/// Whether a window opened at `start` has run out at `now`.
fn expired(start: i64, now: i64, length_secs: i64) -> (r: bool)
    requires
        0 <= length_secs <= 1_000_000,
    ensures
        r == window_expired(start as int, now as int, length_secs as int),
{
    (now as i128 - start as i128) > (length_secs as i128) * (MILLIS_PER_SECOND as i128)
}

impl RequestLog {
    /// A log for `player` with both windows empty and opened at `now`.
    pub fn new(player: &str, now: i64) -> (r: RequestLog)
        ensures
            r.player@ == player@,
            r.requests_per_2min == 0,
            r.requests_per_sec == 0,
            r.last_request == now,
            r.window_2min_start == now,
            r.window_1sec_start == now,
    {
        RequestLog {
            player: String::from_str(player),
            requests_per_2min: 0,
            requests_per_sec: 0,
            last_request: now,
            window_2min_start: now,
            window_1sec_start: now,
        }
    }

    /// Empties and reopens at `now` each window that has run out.
    pub fn refresh_windows(&mut self, now: i64)
        ensures
            *final(self) == refreshed(*old(self), now),
    {
        if expired(self.window_2min_start, now, LONG_WINDOW_SECS) {
            self.requests_per_2min = 0;
            self.window_2min_start = now;
        }
        if expired(self.window_1sec_start, now, SHORT_WINDOW_SECS) {
            self.requests_per_sec = 0;
            self.window_1sec_start = now;
        }
    }

    /// Whether both windows have room for another request.
    pub fn can_make_request(&self) -> (r: bool)
        ensures
            r == can_request(*self),
    {
        self.requests_per_2min < MAX_REQUESTS_PER_2MIN && self.requests_per_sec
            < MAX_REQUESTS_PER_SEC
    }

    /// Counts one request, made at `now`, in both windows. A counter that
    /// has reached the largest `u32` stays there.
    pub fn record_request(&mut self, now: i64)
        ensures
            *final(self) == after_request(*old(self), now),
    {
        self.requests_per_2min = self.requests_per_2min.saturating_add(1);
        self.requests_per_sec = self.requests_per_sec.saturating_add(1);
        self.last_request = now;
    }

    /// Requests left in the long and in the short window; none where a
    /// window is already full.
    pub fn get_remaining(&self) -> (r: (u32, u32))
        ensures
            r.0 == if self.requests_per_2min >= MAX_REQUESTS_PER_2MIN {
                0
            } else {
                MAX_REQUESTS_PER_2MIN - self.requests_per_2min
            },
            r.1 == if self.requests_per_sec >= MAX_REQUESTS_PER_SEC {
                0
            } else {
                MAX_REQUESTS_PER_SEC - self.requests_per_sec
            },
    {
        (
            MAX_REQUESTS_PER_2MIN.saturating_sub(self.requests_per_2min),
            MAX_REQUESTS_PER_SEC.saturating_sub(self.requests_per_sec),
        )
    }

    /// When the long and the short window end, in milliseconds since the Unix epoch.
    pub fn get_reset_times(&self) -> (r: (i64, i64))
        requires
            self.window_2min_start <= i64::MAX - LONG_WINDOW_SECS * MILLIS_PER_SECOND,
            self.window_1sec_start <= i64::MAX - SHORT_WINDOW_SECS * MILLIS_PER_SECOND,
        ensures
            r.0 == self.window_2min_start + LONG_WINDOW_SECS * MILLIS_PER_SECOND,
            r.1 == self.window_1sec_start + SHORT_WINDOW_SECS * MILLIS_PER_SECOND,
    {
        (
            self.window_2min_start + LONG_WINDOW_SECS * MILLIS_PER_SECOND,
            self.window_1sec_start + SHORT_WINDOW_SECS * MILLIS_PER_SECOND,
        )
    }
}

/// The smaller of `a` and `b`.
pub open spec fn at_most(a: int, b: int) -> int {
    if a < b {
        a
    } else {
        b
    }
}

proof fn lemma_after_requests_counts(log: RequestLog, k: nat, now: i64)
    ensures
        after_requests(log, k, now).requests_per_2min == at_most(
            log.requests_per_2min + k,
            u32::MAX as int,
        ),
        after_requests(log, k, now).requests_per_sec == at_most(
            log.requests_per_sec + k,
            u32::MAX as int,
        ),
        after_requests(log, k, now).window_2min_start == log.window_2min_start,
        after_requests(log, k, now).window_1sec_start == log.window_1sec_start,
    decreases k,
{
    if k > 0 {
        lemma_after_requests_counts(log, (k - 1) as nat, now);
    }
}

/// Once a window holds its maximum of requests, no request is allowed after
/// any number of further requests, and a refresh that does not find the
/// window expired keeps it so; a refresh at a time when more than the
/// window's length has passed since it opened empties it.
pub proof fn lemma_window_exhaustion(log: RequestLog, k: nat, now: i64, later: i64)
    requires
        log.requests_per_2min + k >= MAX_REQUESTS_PER_2MIN || log.requests_per_sec + k
            >= MAX_REQUESTS_PER_SEC,
    ensures
        !can_request(after_requests(log, k, now)),
        log.requests_per_2min + k >= MAX_REQUESTS_PER_2MIN && !window_expired(
            log.window_2min_start as int,
            later as int,
            LONG_WINDOW_SECS as int,
        ) ==> !can_request(refreshed(after_requests(log, k, now), later)),
        log.requests_per_sec + k >= MAX_REQUESTS_PER_SEC && !window_expired(
            log.window_1sec_start as int,
            later as int,
            SHORT_WINDOW_SECS as int,
        ) ==> !can_request(refreshed(after_requests(log, k, now), later)),
        window_expired(log.window_2min_start as int, later as int, LONG_WINDOW_SECS as int)
            ==> refreshed(after_requests(log, k, now), later).requests_per_2min == 0
            && refreshed(after_requests(log, k, now), later).window_2min_start == later,
        window_expired(log.window_1sec_start as int, later as int, SHORT_WINDOW_SECS as int)
            ==> refreshed(after_requests(log, k, now), later).requests_per_sec == 0
            && refreshed(after_requests(log, k, now), later).window_1sec_start == later,
{
    lemma_after_requests_counts(log, k, now);
}

} // verus!
