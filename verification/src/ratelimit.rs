//! Per-client rate limiting with fixed windows. Times are monotonic instants
//! in milliseconds, handed in by the caller.
use vstd::prelude::*;

verus! {

/// A client address: IPv4 addresses hold their 32 bits in `bits`, IPv6
/// addresses their 128 bits.
#[derive(Clone, Copy, Debug, PartialEq, Eq, Structural)]
pub struct ClientIp {
    pub v6: bool,
    pub bits: u128,
}

/// The requests counted in the current window of a client, and when the
/// window started.
#[derive(Clone, Copy, Debug, PartialEq, Eq, Structural)]
pub struct Window {
    pub count: u32,
    pub started_at: u64,
}

#[derive(Clone, Copy, Debug, PartialEq, Eq, Structural)]
pub enum RateLimitResult {
    Allowed { remaining: u32 },
    Limited { retry_after_secs: u64 },
}

/// Above this many clients, expired windows are dropped first.
pub const CLEANUP_THRESHOLD: usize = 50_000;

/// The time since `started`, or zero if `started` is later.
pub open spec fn elapsed(now: int, started: int) -> int {
    if now >= started {
        now - started
    } else {
        0
    }
}

/// The window of a client after a request at `now`, and the answer.
pub open spec fn decide(w: Option<(int, int)>, now: int, limit: int, window: int) -> ((int, int), RateLimitResult) {
    let (c, s) = match w {
        Some(x) => x,
        None => (0, now),
    };
    if elapsed(now, s) >= window {
        ((1, now), RateLimitResult::Allowed { remaining: (limit - 1) as u32 })
    } else if c < limit {
        ((c + 1, s), RateLimitResult::Allowed { remaining: (limit - (c + 1)) as u32 })
    } else {
        let secs = (window - elapsed(now, s)) / 1000;
        ((c, s), RateLimitResult::Limited { retry_after_secs: (if secs < 1 { 1 } else { secs }) as u64 })
    }
}

pub type WindowsV = Seq<(ClientIp, (int, int))>;

/// The window of the first entry for `ip`.
pub open spec fn window_of(s: WindowsV, ip: ClientIp) -> Option<(int, int)>
    decreases s.len(),
{
    if s.len() == 0 {
        None
    } else if s[0].0 == ip {
        Some(s[0].1)
    } else {
        window_of(s.drop_first(), ip)
    }
}

/// A window that has not expired by `now`.
pub open spec fn live(w: (int, int), now: int, window: int) -> bool {
    elapsed(now, w.1) < window
}

pub struct MemoryRateLimiter {
    windows: Vec<(ClientIp, Window)>,
    limit: u32,
    window: u64,
}

pub open spec fn win_view(w: Window) -> (int, int) {
    (w.count as int, w.started_at as int)
}

impl MemoryRateLimiter {
    pub closed spec fn windows_view(&self) -> WindowsV {
        self.windows@.map_values(|e: (ClientIp, Window)| (e.0, win_view(e.1)))
    }

    /// The window kept for a client.
    pub open spec fn holds(&self, ip: ClientIp) -> Option<(int, int)> {
        window_of(self.windows_view(), ip)
    }

    pub closed spec fn limit_spec(&self) -> int {
        self.limit as int
    }

    pub closed spec fn window_spec(&self) -> int {
        self.window as int
    }

    pub closed spec fn client_count(&self) -> nat {
        self.windows@.len()
    }

    /// No client is kept twice, the limit is positive, and no window
    /// counts more requests than the limit.
    pub closed spec fn well_formed(&self) -> bool {
        &&& self.limit > 0
        &&& forall|i: int, j: int|
            0 <= i < j < self.windows@.len() ==> #[trigger] self.windows@[i].0 != #[trigger] self.windows@[j].0
        &&& forall|i: int| 0 <= i < self.windows@.len() ==> (#[trigger] self.windows@[i]).1.count <= self.limit
    }

    /// A limiter allowing `requests_per_second` requests per client per
    /// second.
    pub fn new(requests_per_second: u32) -> (r: Self)
        requires
            requests_per_second > 0,
        ensures
            r.well_formed(),
            r.limit_spec() == requests_per_second,
            r.window_spec() == 1000,
            forall|ip: ClientIp| r.holds(ip) is None,
    {
        let r = MemoryRateLimiter { windows: Vec::new(), limit: requests_per_second, window: 1000 };
        proof {
            assert forall|ip: ClientIp| r.holds(ip) is None by {
                assert(r.windows_view().len() == 0);
            }
        }
        r
    }
}

proof fn lemma_window_at(s: WindowsV, ip: ClientIp, i: int)
    requires
        0 <= i < s.len(),
        s[i].0 == ip,
        forall|j: int| 0 <= j < s.len() && j != i ==> s[j].0 != ip,
    ensures
        window_of(s, ip) == Some(s[i].1),
    decreases i,
{
    if i > 0 {
        lemma_window_at(s.drop_first(), ip, i - 1);
    }
}

proof fn lemma_window_absent(s: WindowsV, ip: ClientIp)
    requires
        forall|j: int| 0 <= j < s.len() ==> s[j].0 != ip,
    ensures
        window_of(s, ip) is None,
    decreases s.len(),
{
    if s.len() > 0 {
        lemma_window_absent(s.drop_first(), ip);
    }
}

proof fn lemma_window_unique(s: WindowsV, ip: ClientIp)
    requires
        forall|i: int, j: int| 0 <= i < j < s.len() ==> s[i].0 != s[j].0,
    ensures
        match window_of(s, ip) {
            Some(v) => exists|i: int| 0 <= i < s.len() && s[i].0 == ip && v == s[i].1,
            None => forall|j: int| 0 <= j < s.len() ==> s[j].0 != ip,
        },
    decreases s.len(),
{
    if s.len() > 0 {
        lemma_window_unique(s.drop_first(), ip);
        if s[0].0 != ip {
            match window_of(s.drop_first(), ip) {
                Some(v) => {
                    let i = choose|i: int| 0 <= i < s.drop_first().len() && s.drop_first()[i].0 == ip && v == s.drop_first()[i].1;
                    assert(s[i + 1].0 == ip);
                },
                None => {
                    assert forall|j: int| 0 <= j < s.len() implies s[j].0 != ip by {
                        if j > 0 {
                            assert(s.drop_first()[j - 1] == s[j]);
                        }
                    }
                },
            }
        }
    }
}


impl MemoryRateLimiter {
    /// One call `check(ip, now)`: on the limiter `self` it leaves `after`
    /// and answers `r`, deciding on the client's window as `decide` does.
    pub open spec fn check_step(&self, after: MemoryRateLimiter, ip: ClientIp, now: int, r: RateLimitResult) -> bool {
        let cleaned = self.client_count() >= CLEANUP_THRESHOLD;
        let d = decide(self.prior(ip, now, cleaned), now, self.limit_spec(), self.window_spec());
        &&& after.limit_spec() == self.limit_spec()
        &&& after.window_spec() == self.window_spec()
        &&& r == d.1
        &&& after.holds(ip) == Some(d.0)
    }

    /// The window of a client before a request at `now` is decided: when
    /// `cleaned`, expired windows have been dropped.
    pub open spec fn prior(&self, ip: ClientIp, now: int, cleaned: bool) -> Option<(int, int)> {
        match self.holds(ip) {
            Some(w) => if cleaned && !live(w, now, self.window_spec()) {
                None
            } else {
                Some(w)
            },
            None => None,
        }
    }

    proof fn lemma_view(&self, i: int)
        requires
            0 <= i < self.windows@.len(),
        ensures
            self.windows_view()[i] == (self.windows@[i].0, win_view(self.windows@[i].1)),
            self.windows_view().len() == self.windows@.len(),
    {
    }

    fn drop_expired(&mut self, now: u64)
        requires
            old(self).well_formed(),
        ensures
            final(self).well_formed(),
            final(self).limit_spec() == old(self).limit_spec(),
            final(self).window_spec() == old(self).window_spec(),
            forall|k: ClientIp| #[trigger] final(self).holds(k) == old(self).prior(k, now as int, true),
    {
        let ghost s0 = self.windows_view();
        let ghost old_self = *self;
        let mut kept: Vec<(ClientIp, Window)> = Vec::new();
        let mut i: usize = 0;
        proof {
            assert forall|a: int, b: int| 0 <= a < b < s0.len() implies s0[a].0 != s0[b].0 by {
                self.lemma_view(a);
                self.lemma_view(b);
            }
        }
        while i < self.windows.len()
            invariant
                i <= self.windows.len(),
                *self == old_self,
                s0 == old_self.windows_view(),
                old_self.well_formed(),
                forall|a: int, b: int| 0 <= a < b < s0.len() ==> s0[a].0 != s0[b].0,
                forall|t: int| 0 <= t < kept@.len() ==> (#[trigger] kept@[t]).1.count <= self.limit,
                forall|t: int| 0 <= t < kept@.len() ==> exists|j: int| 0 <= j < i && s0[j] == (#[trigger] kept@[t].0, win_view(kept@[t].1)) && live(s0[j].1, now as int, self.window as int),
                forall|a: int, b: int| 0 <= a < b < kept@.len() ==> #[trigger] kept@[a].0 != #[trigger] kept@[b].0,
                forall|j: int| 0 <= j < i && live(s0[j].1, now as int, self.window as int) ==> exists|t: int| 0 <= t < kept@.len() && #[trigger] kept@[t].0 == s0[j].0,
            decreases self.windows.len() - i,
        {
            let e = self.windows[i];
            proof {
                self.lemma_view(i as int);
            }
            let el = if now >= e.1.started_at {
                now - e.1.started_at
            } else {
                0
            };
            if el < self.window {
                let ghost before = kept@;
                proof {
                    assert forall|t: int| 0 <= t < before.len() implies before[t].0 != e.0 by {
                        let j = choose|j: int| 0 <= j < i && s0[j] == (before[t].0, win_view(before[t].1)) && live(s0[j].1, now as int, self.window as int);
                        assert(s0[j].0 != s0[i as int].0);
                    }
                }
                kept.push(e);
                proof {
                    assert(kept@[before.len() as int] == e);
                    assert forall|t: int| 0 <= t < kept@.len() implies exists|j: int| 0 <= j < i + 1 && s0[j] == (#[trigger] kept@[t].0, win_view(kept@[t].1)) && live(s0[j].1, now as int, self.window as int) by {
                        if t < before.len() {
                            assert(kept@[t] == before[t]);
                        } else {
                            assert(s0[i as int] == (kept@[t].0, win_view(kept@[t].1)));
                        }
                    }
                    assert forall|j: int| 0 <= j < i + 1 && live(s0[j].1, now as int, self.window as int) implies exists|t: int| 0 <= t < kept@.len() && #[trigger] kept@[t].0 == s0[j].0 by {
                        if j == i {
                            assert(kept@[before.len() as int].0 == s0[j].0);
                        } else {
                            let t = choose|t: int| 0 <= t < before.len() && #[trigger] before[t].0 == s0[j].0;
                            assert(kept@[t] == before[t]);
                        }
                    }
                }
            }
            i = i + 1;
        }
        self.windows = kept;
        proof {
            let s1 = self.windows_view();
            assert forall|a: int, b: int| 0 <= a < b < s1.len() implies s1[a].0 != s1[b].0 by {
                self.lemma_view(a);
                self.lemma_view(b);
            }
            assert forall|k: ClientIp| #[trigger] self.holds(k) == old_self.prior(k, now as int, true) by {
                lemma_window_unique(s0, k);
                lemma_window_unique(s1, k);
                match window_of(s0, k) {
                    Some(w) => {
                        let j = choose|j: int| 0 <= j < s0.len() && s0[j].0 == k && w == s0[j].1;
                        if live(w, now as int, self.window as int) {
                            let t = choose|t: int| 0 <= t < kept@.len() && #[trigger] kept@[t].0 == s0[j].0;
                            self.lemma_view(t);
                            let j2 = choose|j2: int| 0 <= j2 < s0.len() && s0[j2] == (kept@[t].0, win_view(kept@[t].1)) && live(s0[j2].1, now as int, self.window as int);
                            assert(j2 == j);
                            assert forall|x: int| 0 <= x < s1.len() && x != t implies s1[x].0 != k by {
                                self.lemma_view(x);
                            }
                            lemma_window_at(s1, k, t);
                        } else {
                            assert forall|x: int| 0 <= x < s1.len() implies s1[x].0 != k by {
                                self.lemma_view(x);
                                let j2 = choose|j2: int| 0 <= j2 < s0.len() && s0[j2] == (kept@[x].0, win_view(kept@[x].1)) && live(s0[j2].1, now as int, self.window as int);
                                if kept@[x].0 == k {
                                    assert(j2 == j);
                                }
                            }
                            lemma_window_absent(s1, k);
                        }
                    },
                    None => {
                        assert forall|x: int| 0 <= x < s1.len() implies s1[x].0 != k by {
                            self.lemma_view(x);
                            let j2 = choose|j2: int| 0 <= j2 < s0.len() && s0[j2] == (kept@[x].0, win_view(kept@[x].1)) && live(s0[j2].1, now as int, self.window as int);
                        }
                        lemma_window_absent(s1, k);
                    },
                }
            }
        }
    }
}


impl MemoryRateLimiter {
    fn position(&self, ip: ClientIp) -> (r: Option<usize>)
        ensures
            match r {
                Some(i) => i < self.windows.len() && self.windows@[i as int].0 == ip,
                None => forall|i: int| 0 <= i < self.windows.len() ==> self.windows@[i].0 != ip,
            },
    {
        let mut i: usize = 0;
        while i < self.windows.len()
            invariant
                i <= self.windows.len(),
                forall|j: int| 0 <= j < i ==> self.windows@[j].0 != ip,
            decreases self.windows.len() - i,
        {
            if self.windows[i].0 == ip {
                return Some(i);
            }
            i = i + 1;
        }
        None
    }

    /// Counts a request from `ip` at `now` and answers whether it is
    /// allowed. When many clients are kept, expired windows are dropped
    /// first.
    pub fn check(&mut self, ip: ClientIp, now: u64) -> (r: RateLimitResult)
        requires
            old(self).well_formed(),
        ensures
            final(self).well_formed(),
            final(self).limit_spec() == old(self).limit_spec(),
            final(self).window_spec() == old(self).window_spec(),
            old(self).check_step(*final(self), ip, now as int, r),
            ({
                let cleaned = old(self).client_count() >= CLEANUP_THRESHOLD;
                let d = decide(
                    old(self).prior(ip, now as int, cleaned),
                    now as int,
                    old(self).limit_spec(),
                    old(self).window_spec(),
                );
                &&& r == d.1
                &&& final(self).holds(ip) == Some(d.0)
                &&& forall|k: ClientIp| k != ip ==> #[trigger] final(self).holds(k) == old(self).prior(k, now as int, cleaned)
            }),
    {
        let ghost start = *self;
        let cleaned = self.windows.len() >= CLEANUP_THRESHOLD;
        if cleaned {
            self.drop_expired(now);
        }
        proof {
            assert forall|k: ClientIp| #[trigger] self.holds(k) == start.prior(k, now as int, cleaned) by {
                if !cleaned {
                    assert(self.holds(k) == start.holds(k));
                }
            }
        }
        let ghost s0 = self.windows_view();
        let ghost mid = *self;
        proof {
            assert forall|a: int, b: int| 0 <= a < b < s0.len() implies s0[a].0 != s0[b].0 by {
                self.lemma_view(a);
                self.lemma_view(b);
            }
        }
        let pos = self.position(ip);
        let current: Option<Window> = match pos {
            Some(i) => Some(self.windows[i].1),
            None => None,
        };
        proof {
            match pos {
                Some(i) => {
                    self.lemma_view(i as int);
                    assert forall|j: int| 0 <= j < s0.len() && j != i implies s0[j].0 != ip by {
                        self.lemma_view(j);
                    }
                    lemma_window_at(s0, ip, i as int);
                },
                None => {
                    assert forall|j: int| 0 <= j < s0.len() implies s0[j].0 != ip by {
                        self.lemma_view(j);
                    }
                    lemma_window_absent(s0, ip);
                },
            }
        }
        let (count, started) = match current {
            Some(w) => (w.count, w.started_at),
            None => (0, now),
        };
        let el = if now >= started {
            now - started
        } else {
            0
        };
        let (next, result) = if el >= self.window {
            (Window { count: 1, started_at: now }, RateLimitResult::Allowed { remaining: self.limit - 1 })
        } else if count < self.limit {
            (
                Window { count: count + 1, started_at: started },
                RateLimitResult::Allowed { remaining: self.limit - (count + 1) },
            )
        } else {
            let secs = (self.window - el) / 1000;
            (
                Window { count, started_at: started },
                RateLimitResult::Limited { retry_after_secs: if secs < 1 { 1 } else { secs } },
            )
        };
        proof {
            match pos {
                Some(i) => {
                    assert(self.windows@[i as int].1.count <= self.limit);
                },
                None => {},
            }
        }
        match pos {
            Some(i) => {
                self.windows.set(i, (ip, next));
            },
            None => {
                self.windows.push((ip, next));
            },
        }
        proof {
            let s1 = self.windows_view();
            let n0 = s0.len() as int;
            let at = match pos {
                Some(i) => i as int,
                None => n0,
            };
            assert forall|j: int| 0 <= j < s1.len() implies #[trigger] s1[j] == if j == at {
                (ip, win_view(next))
            } else {
                s0[j]
            } by {
                self.lemma_view(j);
                if j != at {
                    mid.lemma_view(j);
                }
            }
            assert forall|a: int, b: int| 0 <= a < b < self.windows@.len() implies #[trigger] self.windows@[a].0
                != #[trigger] self.windows@[b].0 by {
                self.lemma_view(a);
                self.lemma_view(b);
                assert(s1[a].0 != s1[b].0);
            }
            assert forall|j: int| 0 <= j < self.windows@.len() implies (#[trigger] self.windows@[j]).1.count <= self.limit by {
                if j != at {
                    self.lemma_view(j);
                    mid.lemma_view(j);
                }
            }
            lemma_window_at(s1, ip, at);
            assert forall|k: ClientIp| k != ip implies #[trigger] self.holds(k) == start.prior(k, now as int, cleaned) by {
                lemma_window_unique(s0, k);
                match window_of(s0, k) {
                    Some(w) => {
                        let j = choose|j: int| 0 <= j < s0.len() && s0[j].0 == k && w == s0[j].1;
                        lemma_window_at(s1, k, j);
                    },
                    None => {
                        lemma_window_absent(s1, k);
                    },
                }
                assert(mid.holds(k) == start.prior(k, now as int, cleaned));
            }
            assert(mid.holds(ip) == start.prior(ip, now as int, cleaned));
        }
        result
    }
}


/// The window after a run of requests from one client at the given times,
/// and how many of them were allowed.
pub open spec fn run(w: Option<(int, int)>, times: Seq<int>, limit: int, window: int) -> (Option<(int, int)>, nat)
    decreases times.len(),
{
    if times.len() == 0 {
        (w, 0)
    } else {
        let prev = run(w, times.drop_last(), limit, window);
        let d = decide(prev.0, times.last(), limit, window);
        (Some(d.0), prev.1 + if d.1 is Allowed {
            1nat
        } else {
            0nat
        })
    }
}

/// A client without a live window is allowed at most `limit` requests
/// within one window from its first request.
pub proof fn lemma_at_most_limit_per_window(w: Option<(int, int)>, times: Seq<int>, limit: int, window: int)
    requires
        limit > 0,
        window > 0,
        times.len() > 0,
        w matches Some(x) ==> !live(x, times[0], window),
        forall|i: int, j: int| 0 <= i <= j < times.len() ==> times[i] <= times[j],
        forall|i: int| 0 <= i < times.len() ==> #[trigger] times[i] < times[0] + window,
    ensures
        run(w, times, limit, window).1 <= limit,
{
    lemma_run_window(w, times, limit, window, times.len() as int);
    assert(times.take(times.len() as int) =~= times);
}

proof fn lemma_run_window(w: Option<(int, int)>, times: Seq<int>, limit: int, window: int, k: int)
    requires
        limit > 0,
        window > 0,
        1 <= k <= times.len(),
        w matches Some(x) ==> !live(x, times[0], window),
        forall|i: int, j: int| 0 <= i <= j < times.len() ==> times[i] <= times[j],
        forall|i: int| 0 <= i < times.len() ==> #[trigger] times[i] < times[0] + window,
    ensures
        run(w, times.take(k), limit, window).0 == Some((run(w, times.take(k), limit, window).1 as int, times[0])),
        run(w, times.take(k), limit, window).1 <= limit,
    decreases k,
{
    assert(times.take(k).drop_last() =~= times.take(k - 1));
    assert(times.take(k).last() == times[k - 1]);
    if k == 1 {
        assert(times.take(0) =~= Seq::<int>::empty());
    } else {
        lemma_run_window(w, times, limit, window, k - 1);
        assert(times[0] <= times[k - 1]);
    }
}

/// Dropping an expired window changes no answer: a request finds the same
/// as if the client were new.
pub proof fn lemma_expired_same_as_new(w: (int, int), now: int, limit: int, window: int)
    requires
        limit > 0,
        window > 0,
        !live(w, now, window),
    ensures
        decide(Some(w), now, limit, window) == decide(None, now, limit, window),
{
}

/// A window never counts more requests than the limit.
pub proof fn lemma_count_within_limit(w: Option<(int, int)>, now: int, limit: int, window: int)
    requires
        limit > 0,
        w matches Some(x) ==> x.0 <= limit,
    ensures
        decide(w, now, limit, window).0.0 <= limit,
{
}

/// The answer to a request counted by a Redis script: the count and the
/// window's remaining time in seconds, or nothing when Redis failed, in which
/// case the request is allowed.
pub open spec fn redis_answer(limit: u32, reply: Option<(i64, i64)>) -> RateLimitResult {
    match reply {
        None => RateLimitResult::Allowed { remaining: limit },
        Some((count, ttl)) => {
            let c = count as u32;
            if c <= limit {
                RateLimitResult::Allowed { remaining: (limit - c) as u32 }
            } else {
                RateLimitResult::Limited { retry_after_secs: (if ttl < 1 { 1 } else { ttl }) as u64 }
            }
        },
    }
}

/// Decides a request from the reply of the Redis counting script.
pub fn redis_decision(limit: u32, reply: Option<(i64, i64)>) -> (r: RateLimitResult)
    ensures
        r == redis_answer(limit, reply),
{
    match reply {
        None => RateLimitResult::Allowed { remaining: limit },
        Some((count, ttl)) => {
            let c = count as u32;
            if c <= limit {
                RateLimitResult::Allowed { remaining: limit - c }
            } else {
                let t = if ttl < 1 {
                    1
                } else {
                    ttl
                };
                RateLimitResult::Limited { retry_after_secs: t as u64 }
            }
        },
    }
}

/// Successive calls of `check` for one client within one window: when the
/// client has no live window at the first call, and the calls come in time
/// order within one window of the first, exactly the first `limit` of them
/// are allowed and every later one is limited.
pub proof fn lemma_check_calls_within_window(
    ls: Seq<MemoryRateLimiter>,
    rs: Seq<RateLimitResult>,
    times: Seq<int>,
    ip: ClientIp,
)
    requires
        times.len() > 0,
        ls.len() == times.len() + 1,
        rs.len() == times.len(),
        ls[0].limit_spec() > 0,
        ls[0].window_spec() > 0,
        ls[0].holds(ip) matches Some(w) ==> !live(w, times[0], ls[0].window_spec()),
        forall|i: int, j: int| 0 <= i <= j < times.len() ==> times[i] <= times[j],
        forall|i: int| 0 <= i < times.len() ==> #[trigger] times[i] < times[0] + ls[0].window_spec(),
        forall|k: int| #![trigger rs[k]] 0 <= k < times.len() ==> ls[k].check_step(ls[k + 1], ip, times[k], rs[k]),
    ensures
        forall|k: int| 0 <= k < times.len() ==> ((#[trigger] rs[k] is Allowed) <==> k < ls[0].limit_spec()),
{
    lemma_check_calls_upto(ls, rs, times, ip, times.len() as int);
}

proof fn lemma_check_calls_upto(ls: Seq<MemoryRateLimiter>, rs: Seq<RateLimitResult>, times: Seq<int>, ip: ClientIp, n: int)
    requires
        1 <= n <= times.len(),
        ls.len() == times.len() + 1,
        rs.len() == times.len(),
        ls[0].limit_spec() > 0,
        ls[0].window_spec() > 0,
        ls[0].holds(ip) matches Some(w) ==> !live(w, times[0], ls[0].window_spec()),
        forall|i: int, j: int| 0 <= i <= j < times.len() ==> times[i] <= times[j],
        forall|i: int| 0 <= i < times.len() ==> #[trigger] times[i] < times[0] + ls[0].window_spec(),
        forall|k: int| #![trigger rs[k]] 0 <= k < times.len() ==> ls[k].check_step(ls[k + 1], ip, times[k], rs[k]),
    ensures
        ls[n].limit_spec() == ls[0].limit_spec(),
        ls[n].window_spec() == ls[0].window_spec(),
        ls[n].holds(ip) == Some((if n < ls[0].limit_spec() { n } else { ls[0].limit_spec() }, times[0])),
        forall|k: int| 0 <= k < n ==> ((#[trigger] rs[k] is Allowed) <==> k < ls[0].limit_spec()),
    decreases n,
{
    let limit = ls[0].limit_spec();
    let window = ls[0].window_spec();
    if n == 1 {
        assert(ls[0].check_step(ls[1], ip, times[0], rs[0]));
    } else {
        lemma_check_calls_upto(ls, rs, times, ip, n - 1);
        let k = n - 1;
        assert(ls[k].check_step(ls[k + 1], ip, times[k], rs[k]));
        assert(times[0] <= times[k]);
        assert(times[k] < times[0] + window);
        let c = if k < limit { k } else { limit };
        assert(live((c, times[0]), times[k], window));
    }
}

} // verus!
