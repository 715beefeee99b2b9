//! A permit pacer that spaces permits at least a configured interval apart.
//!
//! The pacer only computes, in milliseconds, when the next permit may be
//! granted; the caller is expected to sleep until the granted instant before
//! acting. The pacing guarantee is proved on the pacer's mathematical model:
//! however many permits are requested, and whenever they are requested, two
//! successive grants always lie at least one interval apart.
use vstd::prelude::*;

verus! {

/// An unkeyed rate limiter: permits are granted at least `interval_ms`
/// milliseconds apart.
#[derive(Clone, Copy, Debug, PartialEq, Eq, Structural)]
pub struct RateLimiter {
    /// Minimum number of milliseconds between two grants.
    pub interval_ms: u64,
    /// Earliest instant, in milliseconds, at which the next permit may be
    /// granted.
    pub next_free_ms: u64,
}

/// The mathematical state of the pacer, free of machine bounds.
pub ghost struct Pacer {
    pub interval: int,
    pub next_free: int,
}

impl RateLimiter {
    /// The pacer that this limiter implements.
    pub open spec fn pacer(self) -> Pacer {
        Pacer { interval: self.interval_ms as int, next_free: self.next_free_ms as int }
    }

    /// A fresh limiter that will grant its first permit immediately.
    pub fn new(interval_ms: u64) -> (r: Self)
        ensures
            r.interval_ms == interval_ms,
            r.next_free_ms == 0,
    {
        Self { interval_ms, next_free_ms: 0 }
    }

    /// Request a permit at instant `now_ms`; the returned instant is when
    /// the permit becomes usable, never before `now_ms` nor before the
    /// previously promised earliest instant. The caller waits until then.
    pub fn acquire(&mut self, now_ms: u64) -> (grant: u64)
        requires
            now_ms + old(self).interval_ms <= u64::MAX,
            old(self).next_free_ms + old(self).interval_ms <= u64::MAX,
        ensures
            grant == grant_time(old(self).pacer(), now_ms as int),
            final(self).pacer() == after_grant(old(self).pacer(), now_ms as int),
            grant >= now_ms,
            grant >= old(self).next_free_ms,
            final(self).next_free_ms == grant + old(self).interval_ms,
            final(self).interval_ms == old(self).interval_ms,
    {
        let g = if now_ms >= self.next_free_ms {
            now_ms
        } else {
            self.next_free_ms
        };
        self.next_free_ms = g + self.interval_ms;
        g
    }
}

/// The instant at which a permit requested at `now` is granted.
pub open spec fn grant_time(g: Pacer, now: int) -> int {
    if now >= g.next_free {
        now
    } else {
        g.next_free
    }
}

/// The pacer state after granting a permit requested at `now`.
pub open spec fn after_grant(g: Pacer, now: int) -> Pacer {
    Pacer { interval: g.interval, next_free: grant_time(g, now) + g.interval }
}

/// The grant instants of a sequence of permit requests at instants `nows`,
/// starting from the pacer state `g`.
pub open spec fn grant_times(g: Pacer, nows: Seq<int>) -> Seq<int>
    decreases nows.len(),
{
    if nows.len() == 0 {
        Seq::empty()
    } else {
        seq![grant_time(g, nows[0])] + grant_times(
            after_grant(g, nows[0]),
            nows.subrange(1, nows.len() as int),
        )
    }
}

/// One grant instant per request.
pub proof fn lemma_grant_times_len(g: Pacer, nows: Seq<int>)
    ensures
        grant_times(g, nows).len() == nows.len(),
    decreases nows.len(),
{
    if nows.len() > 0 {
        lemma_grant_times_len(after_grant(g, nows[0]), nows.subrange(1, nows.len() as int));
    }
}

/// Pacing law: whatever the instants at which permits are requested, two
/// successive grants are at least one interval apart. This is the guarantee
/// the engine relies on between tracker-mutating calls.
pub proof fn lemma_pacing(g: Pacer, nows: Seq<int>, k: int)
    requires
        0 <= k,
        k + 1 < nows.len(),
    ensures
        grant_times(g, nows)[k + 1] >= grant_times(g, nows)[k] + g.interval,
    decreases k,
{
    let g0 = grant_time(g, nows[0]);
    let g1 = after_grant(g, nows[0]);
    let rest = nows.subrange(1, nows.len() as int);
    lemma_grant_times_len(g1, rest);
    assert(grant_times(g, nows) == seq![g0] + grant_times(g1, rest));
    if k == 0 {
        assert(grant_times(g1, rest)[0] == grant_time(g1, rest[0]));
        assert(grant_time(g1, rest[0]) >= g1.next_free);
    } else {
        lemma_pacing(g1, rest, k - 1);
        assert(grant_times(g, nows)[k] == grant_times(g1, rest)[k - 1]);
        assert(grant_times(g, nows)[k + 1] == grant_times(g1, rest)[k]);
    }
}

} // verus!
