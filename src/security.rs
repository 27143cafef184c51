use vstd::prelude::*;
use std::time::Instant;
use crate::clock::{millis_since, monotonic_now};

verus! {

/// Why a request was refused by a security check.
#[derive(Debug)]
pub enum SecurityError {
    RateLimitExceeded,
    InvalidTransaction(String),
    ValidationFailed(String),
    BlacklistedAddress,
}

/// The times, in milliseconds on the limiter's clock, of one caller's
/// recent requests.
pub struct RequestLog {
    pub identifier: String,
    pub times: Vec<u64>,
}

/// Sliding-window rate limiter: at most `max_requests` requests per caller
/// within any window of `window_millis` milliseconds.
pub struct RateLimiter {
    pub requests: Vec<RequestLog>,
    pub max_requests: usize,
    pub window_millis: u64,
    /// Where the limiter's clock starts.
    pub origin: Instant,
}

/// Counters reported by the security layer.
pub struct SecurityStats {
    pub blacklisted_addresses: usize,
    pub failed_attempts_tracked: usize,
    pub max_failed_attempts: u32,
    pub rate_limits: RateLimitStats,
}

/// The limits of the security layer's rate limiters.
pub struct RateLimitStats {
    pub transaction_limit: usize,
    pub mining_limit: usize,
    pub connection_limit: usize,
}

/// The times of `times` that still fall within the window ending at `now`.
pub open spec fn keep_recent(times: Seq<u64>, now: int, window: int) -> Seq<u64>
    decreases times.len(),
{
    if times.len() == 0 {
        Seq::empty()
    } else if times.last() + window > now {
        keep_recent(times.drop_last(), now, window).push(times.last())
    } else {
        keep_recent(times.drop_last(), now, window)
    }
}

/// The request times logged for `id`; empty when there is no log.
pub open spec fn log_of(logs: Seq<RequestLog>, id: Seq<char>) -> Seq<u64>
    decreases logs.len(),
{
    if logs.len() == 0 {
        Seq::empty()
    } else if logs.last().identifier@ == id {
        logs.last().times@
    } else {
        log_of(logs.drop_last(), id)
    }
}

/// One request at `now` against the log `before`: stale times are dropped,
/// and `now` is logged unless the times left reach `max` (a refusal).
pub open spec fn rate_step(before: Seq<u64>, after: Seq<u64>, now: u64, window: u64, max: usize, refused: bool) -> bool {
    let kept = keep_recent(before, now as int, window as int);
    &&& (refused <==> kept.len() >= max)
    &&& after == if refused { kept } else { kept.push(now) }
}

pub open spec fn unique_ids(logs: Seq<RequestLog>) -> bool {
    forall|a: int, b: int| 0 <= a < logs.len() && 0 <= b < logs.len() && a != b
        ==> logs[a].identifier@ != logs[b].identifier@
}

proof fn lemma_log_absent(logs: Seq<RequestLog>, id: Seq<char>)
    requires
        forall|k: int| 0 <= k < logs.len() ==> logs[k].identifier@ != id,
    ensures
        log_of(logs, id) == Seq::<u64>::empty(),
    decreases logs.len(),
{
    if logs.len() > 0 {
        lemma_log_absent(logs.drop_last(), id);
    }
}

proof fn lemma_log_at(logs: Seq<RequestLog>, i: int)
    requires
        0 <= i < logs.len(),
        unique_ids(logs),
    ensures
        log_of(logs, logs[i].identifier@) == logs[i].times@,
    decreases logs.len(),
{
    if i < logs.len() - 1 {
        assert(logs.last() == logs[logs.len() - 1]);
        lemma_log_at(logs.drop_last(), i);
    }
}

proof fn lemma_log_update(logs: Seq<RequestLog>, i: int, e: RequestLog, id: Seq<char>)
    requires
        0 <= i < logs.len(),
        unique_ids(logs),
        e.identifier@ == logs[i].identifier@,
    ensures
        log_of(logs.update(i, e), id) == if id == e.identifier@ { e.times@ } else { log_of(logs, id) },
    decreases logs.len(),
{
    let t = logs.update(i, e);
    if i == logs.len() - 1 {
        assert(t.drop_last() =~= logs.drop_last());
    } else {
        assert(t.drop_last() =~= logs.drop_last().update(i, e));
        assert(logs.last() == logs[logs.len() - 1]);
        lemma_log_update(logs.drop_last(), i, e, id);
        if id == e.identifier@ {
            assert(logs[logs.len() - 1].identifier@ != logs[i].identifier@);
        }
    }
}

/// The times of `times` still within the window ending at `now`.
fn recent_times(times: &Vec<u64>, now: u64, window: u64) -> (r: Vec<u64>)
    ensures
        r@ == keep_recent(times@, now as int, window as int),
{
    let mut out: Vec<u64> = Vec::new();
    let mut i: usize = 0;
    while i < times.len()
        invariant
            i <= times@.len(),
            out@ == keep_recent(times@.subrange(0, i as int), now as int, window as int),
        decreases times@.len() - i,
    {
        proof {
            assert(times@.subrange(0, i as int + 1).drop_last() =~= times@.subrange(0, i as int));
        }
        let t = times[i];
        if t as u128 + window as u128 > now as u128 {
            out.push(t);
        }
        i += 1;
    }
    assert(times@.subrange(0, i as int) =~= times@);
    out
}

impl RateLimiter {
    pub open spec fn wf(&self) -> bool {
        unique_ids(self.requests@)
    }

    /// The logged request times of `id`.
    pub open spec fn log(&self, id: Seq<char>) -> Seq<u64> {
        log_of(self.requests@, id)
    }

    /// `after` is this limiter once, as of `now`, every logged time that has
    /// left the window and every caller left with none were dropped.
    pub open spec fn cleaned(&self, after: Self, now: u64) -> bool {
        &&& forall|id: Seq<char>| #[trigger] after.log(id) == keep_recent(self.log(id), now as int, self.window_millis as int)
        &&& forall|k: int| 0 <= k < after.requests@.len() ==> #[trigger] after.requests@[k].times@.len() > 0
    }

    /// A limiter allowing `max_requests` requests per `window_seconds`
    /// seconds (a window too long to count in milliseconds is held at the
    /// largest one that can).
    pub fn new(max_requests: usize, window_seconds: u64) -> (r: Self)
        ensures
            r.wf(),
            r.requests@.len() == 0,
            r.max_requests == max_requests,
            r.window_millis == if window_seconds <= u64::MAX / 1000 { window_seconds * 1000 } else { u64::MAX as int },
    {
        let window_millis = if window_seconds <= u64::MAX / 1000 { window_seconds * 1000 } else { u64::MAX };
        RateLimiter { requests: Vec::new(), max_requests, window_millis, origin: monotonic_now() }
    }

    fn find_log(&self, id: &String) -> (r: Option<usize>)
        requires
            self.wf(),
        ensures
            r is None ==> forall|k: int| 0 <= k < self.requests@.len() ==> self.requests@[k].identifier@ != id@,
            r is Some ==> r->Some_0 < self.requests@.len() && self.requests@[r->Some_0 as int].identifier@ == id@,
    {
        let mut i: usize = 0;
        while i < self.requests.len()
            invariant
                i <= self.requests@.len(),
                forall|k: int| 0 <= k < i ==> self.requests@[k].identifier@ != id@,
            decreases self.requests@.len() - i,
        {
            if self.requests[i].identifier == *id {
                return Some(i);
            }
            i += 1;
        }
        None
    }

    /// Records a request from `identifier` now, unless its requests within the
    /// current window already reach the limit.
    pub fn check_rate_limit(&mut self, identifier: &str) -> (r: Result<(), SecurityError>)
        requires
            old(self).wf(),
        ensures
            final(self).wf(),
            final(self).max_requests == old(self).max_requests,
            final(self).window_millis == old(self).window_millis,
            exists|now: u64| #[trigger] rate_step(old(self).log(identifier@), final(self).log(identifier@), now,
                old(self).window_millis, old(self).max_requests, r is Err),
            forall|id: Seq<char>| id != identifier@ ==> #[trigger] final(self).log(id) == old(self).log(id),
    {
        let now = millis_since(&self.origin);
        let r = self.check_rate_limit_at(identifier, now);
        assert(rate_step(old(self).log(identifier@), self.log(identifier@), now, self.window_millis, self.max_requests, r is Err));
        r
    }

    /// Records a request from `identifier` at time `now`. Logged times that
    /// have left the window are dropped first; the request is refused, and
    /// not logged, when the times left already number `max_requests`.
    pub fn check_rate_limit_at(&mut self, identifier: &str, now: u64) -> (r: Result<(), SecurityError>)
        requires
            old(self).wf(),
        ensures
            final(self).wf(),
            final(self).max_requests == old(self).max_requests,
            final(self).window_millis == old(self).window_millis,
            rate_step(old(self).log(identifier@), final(self).log(identifier@), now, old(self).window_millis, old(self).max_requests, r is Err),
            r is Err ==> r->Err_0 is RateLimitExceeded,
            forall|id: Seq<char>| id != identifier@ ==> #[trigger] final(self).log(id) == old(self).log(id),
    {
        let id = identifier.to_owned();
        let ghost prev = self.requests@;
        let i = match self.find_log(&id) {
            Some(i) => {
                proof {
                    lemma_log_at(prev, i as int);
                }
                i
            },
            None => {
                proof {
                    lemma_log_absent(prev, id@);
                }
                self.requests.push(RequestLog { identifier: id.clone(), times: Vec::new() });
                proof {
                    assert forall|id2: Seq<char>| id2 != identifier@ implies #[trigger] log_of(self.requests@, id2) == log_of(prev, id2) by {
                        assert(self.requests@.drop_last() =~= prev);
                    }
                    assert(self.requests@.drop_last() =~= prev);
                    assert forall|a: int, b: int| 0 <= a < self.requests@.len() && 0 <= b < self.requests@.len() && a != b
                        implies self.requests@[a].identifier@ != self.requests@[b].identifier@ by {
                        if a < prev.len() && b < prev.len() {
                            assert(prev[a].identifier@ != prev[b].identifier@);
                        }
                    }
                }
                self.requests.len() - 1
            },
        };
        let ghost mid = self.requests@;
        proof {
            lemma_log_at(mid, i as int);
        }
        let mut kept = recent_times(&self.requests[i].times, now, self.window_millis);
        let refused = kept.len() >= self.max_requests;
        if !refused {
            kept.push(now);
        }
        let e = RequestLog { identifier: id, times: kept };
        self.requests.set(i, e);
        proof {
            assert forall|id2: Seq<char>| id2 != identifier@ implies #[trigger] log_of(self.requests@, id2) == log_of(prev, id2) by {
                lemma_log_update(mid, i as int, e, id2);
            }
            lemma_log_update(mid, i as int, e, identifier@);
            assert forall|a: int, b: int| 0 <= a < self.requests@.len() && 0 <= b < self.requests@.len() && a != b
                implies self.requests@[a].identifier@ != self.requests@[b].identifier@ by {
                assert(mid[a].identifier@ != mid[b].identifier@);
            }
        }
        if refused {
            Err(SecurityError::RateLimitExceeded)
        } else {
            Ok(())
        }
    }

    /// Drops every logged time that has left the window, and every caller
    /// left with none.
    pub fn cleanup_old_entries(&mut self)
        requires
            old(self).wf(),
        ensures
            final(self).wf(),
            final(self).max_requests == old(self).max_requests,
            final(self).window_millis == old(self).window_millis,
            exists|now: u64| #[trigger] old(self).cleaned(*final(self), now),
    {
        let now = millis_since(&self.origin);
        self.cleanup_old_entries_at(now);
    }

    /// Drops, as of `now`, every logged time that has left the window, and
    /// every caller left with none.
    pub fn cleanup_old_entries_at(&mut self, now: u64)
        requires
            old(self).wf(),
        ensures
            final(self).wf(),
            final(self).max_requests == old(self).max_requests,
            final(self).window_millis == old(self).window_millis,
            old(self).cleaned(*final(self), now),
    {
        let ghost prev = self.requests@;
        let window = self.window_millis;
        let mut kept_logs: Vec<RequestLog> = Vec::new();
        let mut i: usize = 0;
        while i < self.requests.len()
            invariant
                self.requests@ == prev,
                unique_ids(prev),
                window == self.window_millis,
                i <= prev.len(),
                unique_ids(kept_logs@),
                forall|k: int| 0 <= k < kept_logs@.len() ==> #[trigger] kept_logs@[k].times@.len() > 0,
                forall|k: int, j: int| 0 <= k < kept_logs@.len() && i <= j < prev.len()
                    ==> #[trigger] kept_logs@[k].identifier@ != #[trigger] prev[j].identifier@,
                forall|id: Seq<char>| #[trigger] log_of(kept_logs@, id)
                    == keep_recent(log_of(prev.subrange(0, i as int), id), now as int, window as int),
            decreases prev.len() - i,
        {
            let ghost before = kept_logs@;
            let ghost pre = prev.subrange(0, i as int);
            let ghost post = prev.subrange(0, i as int + 1);
            proof {
                assert(post.drop_last() =~= pre);
                assert(post.last() == prev[i as int]);
                assert forall|k: int| 0 <= k < pre.len() implies pre[k].identifier@ != prev[i as int].identifier@ by {
                    assert(prev[k].identifier@ != prev[i as int].identifier@);
                }
                lemma_log_absent(pre, prev[i as int].identifier@);
            }
            let recent = recent_times(&self.requests[i].times, now, window);
            if recent.len() > 0 {
                let e = RequestLog { identifier: self.requests[i].identifier.clone(), times: recent };
                kept_logs.push(e);
                proof {
                    assert(kept_logs@.drop_last() =~= before);
                    assert forall|id: Seq<char>| #[trigger] log_of(kept_logs@, id)
                        == keep_recent(log_of(post, id), now as int, window as int) by {
                        assert(kept_logs@.last() == e);
                        if id != e.identifier@ {
                            assert(log_of(post, id) == log_of(pre, id));
                            assert(log_of(kept_logs@, id) == log_of(before, id));
                        } else {
                            assert(log_of(kept_logs@, id) == e.times@);
                            assert(log_of(post, id) == prev[i as int].times@);
                        }
                    }
                    assert forall|k: int| 0 <= k < before.len() implies before[k].identifier@ != e.identifier@ by {
                        assert(before[k].identifier@ != prev[i as int].identifier@);
                    }
                    assert forall|a: int, b: int| 0 <= a < kept_logs@.len() && 0 <= b < kept_logs@.len() && a != b
                        implies kept_logs@[a].identifier@ != kept_logs@[b].identifier@ by {
                        if a < before.len() && b < before.len() {
                            assert(before[a].identifier@ != before[b].identifier@);
                        }
                    }
                    assert forall|k: int, j: int| 0 <= k < kept_logs@.len() && i + 1 <= j < prev.len()
                        implies #[trigger] kept_logs@[k].identifier@ != #[trigger] prev[j].identifier@ by {
                        if k < before.len() {
                            assert(before[k].identifier@ != prev[j].identifier@);
                        } else {
                            assert(prev[i as int].identifier@ != prev[j].identifier@);
                        }
                    }
                }
            } else {
                proof {
                    assert forall|k: int| 0 <= k < before.len() implies before[k].identifier@ != prev[i as int].identifier@ by {
                        assert(before[k].identifier@ != prev[i as int].identifier@);
                    }
                    lemma_log_absent(before, prev[i as int].identifier@);
                    assert(recent@ =~= Seq::<u64>::empty());
                    assert forall|id: Seq<char>| #[trigger] log_of(kept_logs@, id)
                        == keep_recent(log_of(post, id), now as int, window as int) by {
                        if id != prev[i as int].identifier@ {
                            assert(log_of(post, id) == log_of(pre, id));
                        }
                    }
                }
            }
            i += 1;
        }
        assert(prev.subrange(0, i as int) =~= prev);
        self.requests = kept_logs;
    }

    /// How many of `identifier`'s requests fall within the current window.
    pub fn get_current_requests(&self, identifier: &str) -> (r: usize)
        requires
            self.wf(),
        ensures
            exists|now: u64| r == (#[trigger] keep_recent(self.log(identifier@), now as int, self.window_millis as int)).len(),
    {
        let now = millis_since(&self.origin);
        let r = self.current_requests_at(identifier, now);
        assert(r == keep_recent(self.log(identifier@), now as int, self.window_millis as int).len());
        r
    }

    /// How many of `identifier`'s requests fall within the window ending at `now`.
    pub fn current_requests_at(&self, identifier: &str, now: u64) -> (r: usize)
        requires
            self.wf(),
        ensures
            r == keep_recent(self.log(identifier@), now as int, self.window_millis as int).len(),
    {
        let id = identifier.to_owned();
        match self.find_log(&id) {
            Some(i) => {
                proof {
                    lemma_log_at(self.requests@, i as int);
                }
                recent_times(&self.requests[i].times, now, self.window_millis).len()
            },
            None => {
                proof {
                    lemma_log_absent(self.requests@, id@);
                }
                0
            },
        }
    }
}

} // verus!
