//! Per-minute request budgets for search, open and mutation requests, kept per
//! client identity. A limit of 0 means unlimited.
use crate::error::NetRailError;
use crate::text::{chars_eq, chars_of, eq_str};
use std::time::Instant;
use vstd::prelude::*;

verus! {

pub const DEFAULT_SEARCH_PER_MIN: u32 = 90;

pub const DEFAULT_OPEN_PER_MIN: u32 = 120;

/// Settings, history purge and collection mutations.
pub const DEFAULT_MUTATE_PER_MIN: u32 = 60;

/// The length of a window, in seconds.
pub const WINDOW_SECS: u64 = 60;

/// Past this many identities, buckets idle for two windows are dropped.
pub const MAX_IDENTITIES: usize = 1024;

#[verifier::external_type_specification]
#[verifier::external_body]
pub struct ExInstant(std::time::Instant);

/// `Instant::now`: a reading of the monotonic clock.
#[verifier::external_body]
fn clock_now() -> (r: Instant) {
    Instant::now()
}

/// Whether `now` is at least `secs` seconds after `start`
/// (`now.duration_since(start) >= Duration::from_secs(secs)`); what it returns
/// depends on the clock readings and is not stated.
#[verifier::external_body]
fn at_least_apart(start: &Instant, now: &Instant, secs: u64) -> (r: bool) {
    now.duration_since(*start) >= std::time::Duration::from_secs(secs)
}

/// The requests counted in the current window.
pub struct WindowCounter {
    pub window_start: Instant,
    pub count: u32,
}

/// The count a window starts from: zero when the window has run out.
pub open spec fn base_count(count: u32, expired: bool) -> u32 {
    if expired {
        0
    } else {
        count
    }
}

impl WindowCounter {
    /// A counter whose window starts now.
    pub fn new() -> (r: WindowCounter)
        ensures
            r.count == 0,
    {
        WindowCounter { window_start: clock_now(), count: 0 }
    }

    /// One request at time `now`, where `expired` says whether the window has
    /// run out: the window restarts at `now` if it has, then the request is
    /// counted if the window has room.
    pub fn acquire_at(&mut self, limit: u32, now: Instant, expired: bool) -> (r: bool)
        ensures
            limit == 0 ==> r && final(self).count == old(self).count && final(self).window_start
                == old(self).window_start,
            limit > 0 ==> r == (base_count(old(self).count, expired) < limit),
            limit > 0 ==> final(self).count == (if r {
                base_count(old(self).count, expired) + 1
            } else {
                base_count(old(self).count, expired) as int
            }),
            limit > 0 ==> final(self).window_start == (if expired {
                now
            } else {
                old(self).window_start
            }),
    {
        if limit == 0 {
            return true;
        }
        if expired {
            self.window_start = now;
            self.count = 0;
        }
        if self.count >= limit {
            return false;
        }
        self.count = self.count + 1;
        true
    }

    /// One request now, against a per-minute `limit` (0 = unlimited).
    pub fn try_acquire(&mut self, limit: u32) -> (r: bool)
        ensures
            limit == 0 ==> r && final(self).count == old(self).count,
            limit > 0 && old(self).count < limit ==> r,
            limit > 0 && r ==> 1 <= final(self).count <= limit,
            limit > 0 && r ==> final(self).count == old(self).count + 1 || final(self).count == 1,
            limit > 0 && !r ==> final(self).count == old(self).count && old(self).count >= limit,
    {
        if limit == 0 {
            return true;
        }
        let now = clock_now();
        let expired = at_least_apart(&self.window_start, &now, WINDOW_SECS);
        self.acquire_at(limit, now, expired)
    }

    /// Whether the counter has been idle for two windows as of `now`.
    fn idle_at(&self, now: &Instant) -> (r: bool) {
        at_least_apart(&self.window_start, now, 2 * WINDOW_SECS)
    }
}

/// A window never holds more requests than its limit.
pub proof fn lemma_count_within_limit(old_count: u32, expired: bool, limit: u32, new_count: u32, r: bool)
    requires
        limit > 0,
        old_count <= limit,
        r == (base_count(old_count, expired) < limit),
        new_count == (if r {
            base_count(old_count, expired) + 1
        } else {
            base_count(old_count, expired) as int
        }),
    ensures
        new_count <= limit,
{
}

/// Whether `id` has a counter.
pub open spec fn has_identity(counts: Seq<(Seq<char>, u32)>, id: Seq<char>) -> bool {
    exists|k: int| 0 <= k < counts.len() && #[trigger] counts[k].0 == id
}

/// What one request of `id` against `limit` (0 = unlimited) does to the
/// per-identity counts `before`, leaving `after`, with verdict `ok`.
/// - Unlimited: allowed, nothing counted.
/// - A new identity, or one under its limit, is allowed.
/// - An allowed request leaves `id` with a count of one more than before, or
///   of one when its window had run out (a new identity starts at one).
/// - A refused request leaves `id` at its count, which is at the limit.
/// - Other identities keep their counts; only when the table is full may idle
///   ones be dropped.
pub open spec fn acquired(
    before: Seq<(Seq<char>, u32)>,
    after: Seq<(Seq<char>, u32)>,
    id: Seq<char>,
    limit: u32,
    ok: bool,
) -> bool {
    &&& limit == 0 ==> ok && after == before
    &&& limit > 0 ==> (forall|c: u32| before.contains((id, c)) && c < limit ==> ok)
    &&& limit > 0 && !has_identity(before, id) ==> ok
    &&& limit > 0 && !ok ==> (forall|c: u32|
        before.contains((id, c)) ==> c >= limit && after.contains((id, c)))
    &&& limit > 0 && ok ==> (exists|c2: u32|
        #[trigger] after.contains((id, c2)) && 1 <= c2 <= limit && (forall|c: u32|
            before.contains((id, c)) ==> c2 == c + 1 || c2 == 1) && (!has_identity(before, id)
            ==> c2 == 1))
    &&& forall|i: int|
        0 <= i < after.len() && after[i].0 != id ==> before.contains(#[trigger] after[i])
    &&& before.len() < MAX_IDENTITIES ==> forall|i: int|
        0 <= i < before.len() && before[i].0 != id ==> after.contains(#[trigger] before[i])
}

// ---------------------------------------------------------------------------
// Buckets per identity
// ---------------------------------------------------------------------------

/// One counter per client identity.
pub struct Buckets {
    entries: Vec<(String, WindowCounter)>,
}

impl Buckets {
    /// The identities and their counts, in insertion order.
    pub closed spec fn counts(&self) -> Seq<(Seq<char>, u32)> {
        self.entries@.map_values(|e: (String, WindowCounter)| (e.0@, e.1.count))
    }

    /// No identity has two counters.
    pub closed spec fn wf(&self) -> bool {
        forall|i: int, j: int|
            0 <= i < j < self.entries@.len() ==> self.entries@[i].0@ != self.entries@[j].0@
    }

    pub fn new() -> (r: Buckets)
        ensures
            r.wf(),
            r.counts() == Seq::<(Seq<char>, u32)>::empty(),
    {
        let b = Buckets { entries: Vec::new() };
        assert(b.counts() =~= Seq::<(Seq<char>, u32)>::empty());
        b
    }

    pub fn len(&self) -> (r: usize)
        ensures
            r == self.counts().len(),
    {
        self.entries.len()
    }

    fn position(&self, identity: &str) -> (r: Option<usize>)
        ensures
            match r {
                Some(j) => j < self.entries@.len() && self.entries@[j as int].0@ == identity@,
                None => forall|k: int|
                    0 <= k < self.entries@.len() ==> self.entries@[k].0@ != identity@,
            },
    {
        let id = chars_of(identity);
        let mut j: usize = 0;
        while j < self.entries.len()
            invariant
                j <= self.entries@.len(),
                id@ == identity@,
                forall|k: int| 0 <= k < j ==> self.entries@[k].0@ != identity@,
            decreases self.entries.len() - j,
        {
            let name = chars_of(self.entries[j].0.as_str());
            if chars_eq(name.as_slice(), id.as_slice()) {
                return Some(j);
            }
            j = j + 1;
        }
        None
    }

    /// Drops the counters idle for two windows; which ones are idle depends on
    /// the clock, so only what survives is stated: a subsequence of the
    /// counters, among them `keep` when it was there.
    fn prune(&mut self, keep: &str)
        requires
            old(self).wf(),
        ensures
            final(self).wf(),
            forall|i: int|
                0 <= i < final(self).counts().len() ==> old(self).counts().contains(
                    #[trigger] final(self).counts()[i],
                ),
            forall|c: u32|
                old(self).counts().contains((keep@, c)) ==> final(self).counts().contains(
                    (keep@, c),
                ),
    {
        let now = clock_now();
        let keep_v = chars_of(keep);
        let ghost old_counts = self.counts();
        let ghost old_entries = self.entries@;
        let mut kept: Vec<(String, WindowCounter)> = Vec::new();
        let mut taken: Vec<(String, WindowCounter)> = Vec::new();
        std::mem::swap(&mut taken, &mut self.entries);
        let ghost src = taken@;
        assert(src == old_entries);
        let mut i: usize = 0;
        while i < taken.len()
            invariant
                i <= taken@.len(),
                taken@ == src,
                src == old_entries,
                keep_v@ == keep@,
                old_counts == old_entries.map_values(
                    |e: (String, WindowCounter)| (e.0@, e.1.count),
                ),
                forall|a: int, b: int|
                    0 <= a < b < src.len() ==> src[a].0@ != src[b].0@,
                forall|a: int|
                    0 <= a < kept@.len() ==> exists|b: int|
                        0 <= b < i && #[trigger] kept@[a].0@ == src[b].0@ && kept@[a].1.count
                            == src[b].1.count,
                forall|a: int, b: int|
                    0 <= a < b < kept@.len() ==> kept@[a].0@ != kept@[b].0@,
                forall|b: int|
                    0 <= b < i && src[b].0@ == keep@ ==> exists|a: int|
                        0 <= a < kept@.len() && #[trigger] kept@[a].0@ == keep@ && kept@[a].1.count
                            == src[b].1.count,
            decreases taken.len() - i,
        {
            let name = chars_of(taken[i].0.as_str());
            let is_keep = chars_eq(name.as_slice(), keep_v.as_slice());
            if is_keep || !taken[i].1.idle_at(&now) {
                let n = taken[i].0.clone();
                let c = WindowCounter { window_start: taken[i].1.window_start, count: taken[i].1.count };
                let ghost k0 = kept@;
                kept.push((n, c));
                proof {
                    assert(kept@[k0.len() as int].0@ == src[i as int].0@);
                    assert forall|a: int, b: int| 0 <= a < b < kept@.len() implies kept@[a].0@
                        != kept@[b].0@ by {
                        if b == k0.len() {
                            let w = choose|w: int|
                                0 <= w < i && #[trigger] kept@[a].0@ == src[w].0@
                                    && kept@[a].1.count == src[w].1.count;
                            assert(kept@[a] == k0[a]);
                        } else {
                            assert(kept@[a] == k0[a]);
                            assert(kept@[b] == k0[b]);
                        }
                    }
                    assert forall|a: int| 0 <= a < kept@.len() implies exists|b: int|
                        0 <= b < i + 1 && #[trigger] kept@[a].0@ == src[b].0@ && kept@[a].1.count
                            == src[b].1.count by {
                        if a == k0.len() {
                            assert(kept@[a].0@ == src[i as int].0@);
                        } else {
                            assert(kept@[a] == k0[a]);
                            let w = choose|w: int|
                                0 <= w < i && #[trigger] k0[a].0@ == src[w].0@ && k0[a].1.count
                                    == src[w].1.count;
                            assert(kept@[a].0@ == src[w].0@);
                        }
                    }
                    assert forall|b: int| 0 <= b < i + 1 && src[b].0@ == keep@ implies exists|a: int|
                        0 <= a < kept@.len() && #[trigger] kept@[a].0@ == keep@ && kept@[a].1.count
                            == src[b].1.count by {
                        if b == i {
                            assert(kept@[k0.len() as int].0@ == keep@);
                        } else {
                            let a = choose|a: int|
                                0 <= a < k0.len() && #[trigger] k0[a].0@ == keep@ && k0[a].1.count
                                    == src[b].1.count;
                            assert(kept@[a] == k0[a]);
                        }
                    }
                }
            } else {
                proof {
                    assert(src[i as int].0@ != keep@);
                    assert forall|a: int| 0 <= a < kept@.len() implies exists|b: int|
                        0 <= b < i + 1 && #[trigger] kept@[a].0@ == src[b].0@ && kept@[a].1.count
                            == src[b].1.count by {
                        let w = choose|w: int|
                            0 <= w < i && #[trigger] kept@[a].0@ == src[w].0@ && kept@[a].1.count
                                == src[w].1.count;
                    }
                }
            }
            i = i + 1;
        }
        self.entries = kept;
        proof {
            assert forall|a: int| 0 <= a < self.counts().len() implies old_counts.contains(
                #[trigger] self.counts()[a],
            ) by {
                let w = choose|w: int|
                    0 <= w < src.len() && #[trigger] self.entries@[a].0@ == src[w].0@
                        && self.entries@[a].1.count == src[w].1.count;
                assert(old_counts[w] == self.counts()[a]);
            }
            assert forall|c: u32| old_counts.contains((keep@, c)) implies self.counts().contains(
                (keep@, c),
            ) by {
                let w = choose|w: int| 0 <= w < old_counts.len() && old_counts[w] == (keep@, c);
                assert(src[w].0@ == keep@);
                let a = choose|a: int|
                    0 <= a < self.entries@.len() && #[trigger] self.entries@[a].0@ == keep@
                        && self.entries@[a].1.count == src[w].1.count;
                assert(self.counts()[a] == (keep@, c));
            }
        }
    }

    /// One request of `identity` against `limit` (0 = unlimited). A new
    /// identity starts with an empty window.
    pub fn acquire(&mut self, identity: &str, limit: u32) -> (r: bool)
        requires
            old(self).wf(),
        ensures
            final(self).wf(),
            acquired(old(self).counts(), final(self).counts(), identity@, limit, r),
    {
        if limit == 0 {
            return true;
        }
        let ghost before = self.counts();
        let ghost mut fresh = false;
        let j = match self.position(identity) {
            Some(j) => j,
            None => {
                proof {
                    fresh = true;
                }
                let ghost e0 = self.entries@;
                self.entries.push((String::from_str(identity), WindowCounter::new()));
                proof {
                    assert forall|a: int, b: int| 0 <= a < b < self.entries@.len() implies self.entries@[a].0@
                        != self.entries@[b].0@ by {
                        if b == e0.len() {
                            assert(self.entries@[a] == e0[a]);
                        } else {
                            assert(self.entries@[a] == e0[a]);
                            assert(self.entries@[b] == e0[b]);
                        }
                    }
                }
                self.entries.len() - 1
            },
        };
        let ghost mid = self.counts();
        let ghost mid_entries = self.entries@;
        assert(fresh ==> mid_entries[j as int].1.count == 0);
        assert(fresh ==> !has_identity(before, identity@));
        assert(!fresh ==> mid == before);
        assert(!fresh ==> before[j as int].0 == identity@);
        assert(!fresh ==> has_identity(before, identity@));
        let name = self.entries[j].0.clone();
        let mut counter = WindowCounter {
            window_start: self.entries[j].1.window_start,
            count: self.entries[j].1.count,
        };
        assert(counter.count == mid_entries[j as int].1.count);
        let ghost c_before = counter.count;
        let ok = counter.try_acquire(limit);
        if ok {
            self.entries.set(j, (name, counter));
            proof {
                assert forall|a: int, b: int| 0 <= a < b < self.entries@.len() implies self.entries@[a].0@
                    != self.entries@[b].0@ by {
                    assert(self.entries@[a].0@ == mid_entries[a].0@);
                    assert(self.entries@[b].0@ == mid_entries[b].0@);
                }
            }
        } else {
            proof {
                assert(self.counts() == mid);
            }
        }
        let ghost after_set = self.counts();
        if self.entries.len() > MAX_IDENTITIES {
            self.prune(identity);
        }
        proof {
            assert forall|i: int|
                0 <= i < self.counts().len() && self.counts()[i].0 != identity@ implies before.contains(
                #[trigger] self.counts()[i],
            ) by {
                let x = self.counts()[i];
                if self.counts() != after_set {
                    assert(after_set.contains(x));
                }
                let w = choose|w: int| 0 <= w < after_set.len() && after_set[w] == x;
                assert(after_set[w] == mid[w]);
                if w < before.len() {
                    assert(mid[w] == before[w]);
                }
            }
            if ok {
                let c2 = counter.count;
                assert(after_set[j as int] == (identity@, c2));
                assert(after_set.contains((identity@, c2)));
                assert(self.counts().contains((identity@, c2)));
                assert(fresh ==> c_before == 0);
                assert forall|c: u32| before.contains((identity@, c)) implies c2 == c + 1 || c2 == 1 by {
                    let w = choose|w: int| 0 <= w < before.len() && before[w] == (identity@, c);
                    assert(before[w].0 == identity@);
                    assert(!fresh);
                    assert(mid_entries[w].0@ == identity@);
                    assert(w == j);
                }
                assert(!has_identity(before, identity@) ==> c2 == 1);
            }
            if before.len() < MAX_IDENTITIES {
                assert(self.counts() == after_set);
                assert forall|i: int| 0 <= i < before.len() && before[i].0 != identity@ implies self.counts().contains(
                    #[trigger] before[i],
                ) by {
                    assert(mid[i] == before[i]);
                    assert(i != j);
                    assert(after_set[i] == before[i]);
                }
            }
            if !ok {
                assert(!fresh);
                assert(mid =~= before);
                assert forall|c: u32| before.contains((identity@, c)) implies c >= limit
                    && self.counts().contains((identity@, c)) by {
                    let w = choose|w: int| 0 <= w < before.len() && before[w] == (identity@, c);
                    assert(mid_entries[w].0@ == identity@);
                    assert(w == j);
                    assert(after_set.contains((identity@, c))) by {
                        assert(after_set[w] == (identity@, c));
                    }
                }
            }
        }
        ok
    }
}

// ---------------------------------------------------------------------------
// The limiter
// ---------------------------------------------------------------------------

/// Whether rate limiting is on for the value of `NETRAIL_RATE_LIMIT`: unless
/// it is `0` or `false` (any case).
pub open spec fn limiting_on(flag: Option<Seq<char>>) -> bool {
    match flag {
        Some(v) => v != "0"@ && crate::auth::ascii_lowered(v) != "false"@,
        None => true,
    }
}

pub fn rate_limit_enabled(flag: Option<&str>) -> (r: bool)
    ensures
        r == limiting_on(crate::auth::opt_s(flag)),
{
    match flag {
        Some(v) => {
            let c = chars_of(v);
            let mut l: Vec<char> = Vec::new();
            let mut i: usize = 0;
            while i < c.len()
                invariant
                    i <= c@.len(),
                    c@ == v@,
                    l@ == crate::auth::ascii_lowered(c@).take(i as int),
                decreases c.len() - i,
            {
                let x = crate::text::ascii_lower_char_exec(c[i]);
                l.push(x);
                assert(crate::auth::ascii_lowered(c@).take(i + 1) =~= crate::auth::ascii_lowered(
                    c@,
                ).take(i as int).push(x));
                i = i + 1;
            }
            assert(crate::auth::ascii_lowered(c@).take(c@.len() as int) =~= crate::auth::ascii_lowered(c@));
            !eq_str(c.as_slice(), "0") && !eq_str(l.as_slice(), "false")
        },
        None => true,
    }
}

/// Per-identity budgets for searches, opens and mutations.
pub struct RateLimiter {
    pub search: Buckets,
    pub open: Buckets,
    pub mutate: Buckets,
    pub search_limit: u32,
    pub open_limit: u32,
    pub mutate_limit: u32,
}

impl RateLimiter {
    pub closed spec fn wf(&self) -> bool {
        self.search.wf() && self.open.wf() && self.mutate.wf()
    }

    pub closed spec fn search_counts(&self) -> Seq<(Seq<char>, u32)> {
        self.search.counts()
    }

    pub closed spec fn open_counts(&self) -> Seq<(Seq<char>, u32)> {
        self.open.counts()
    }

    pub closed spec fn mutate_counts(&self) -> Seq<(Seq<char>, u32)> {
        self.mutate.counts()
    }

    /// A limiter with explicit per-window caps (0 = unlimited) and no counts.
    pub fn with_limits(search: u32, open: u32, mutate: u32) -> (r: RateLimiter)
        ensures
            r.wf(),
            r.search_limit == search,
            r.open_limit == open,
            r.mutate_limit == mutate,
            r.search_counts().len() == 0,
            r.open_counts().len() == 0,
            r.mutate_counts().len() == 0,
    {
        RateLimiter {
            search: Buckets::new(),
            open: Buckets::new(),
            mutate: Buckets::new(),
            search_limit: search,
            open_limit: open,
            mutate_limit: mutate,
        }
    }

    /// The default limits, or none when `NETRAIL_RATE_LIMIT` switches them off.
    pub fn from_env(flag: Option<&str>) -> (r: RateLimiter)
        ensures
            r.wf(),
            limiting_on(crate::auth::opt_s(flag)) ==> r.search_limit == DEFAULT_SEARCH_PER_MIN
                && r.open_limit == DEFAULT_OPEN_PER_MIN && r.mutate_limit
                == DEFAULT_MUTATE_PER_MIN,
            !limiting_on(crate::auth::opt_s(flag)) ==> r.search_limit == 0 && r.open_limit == 0
                && r.mutate_limit == 0,
    {
        let enabled = rate_limit_enabled(flag);
        if enabled {
            Self::with_limits(DEFAULT_SEARCH_PER_MIN, DEFAULT_OPEN_PER_MIN, DEFAULT_MUTATE_PER_MIN)
        } else {
            Self::with_limits(0, 0, 0)
        }
    }

    pub fn check_search(&mut self, identity: &str) -> (r: Result<(), NetRailError>)
        requires
            old(self).wf(),
        ensures
            final(self).wf(),
            final(self).search_limit == old(self).search_limit,
            final(self).open_limit == old(self).open_limit,
            final(self).mutate_limit == old(self).mutate_limit,
            final(self).open_counts() == old(self).open_counts(),
            final(self).mutate_counts() == old(self).mutate_counts(),
            acquired(
                old(self).search_counts(),
                final(self).search_counts(),
                identity@,
                old(self).search_limit,
                r is Ok,
            ),
            r matches Err(e) ==> e.code_view() == "RATE_LIMITED"@ && e.status_view() == 429
                && e.detail_view() == "Rate limited: "@ + "Too many searches (max 90/minute). Wait a moment."@,
    {
        if self.search.acquire(identity, self.search_limit) {
            Ok(())
        } else {
            Err(
                NetRailError::RateLimited {
                    code: "RATE_LIMITED",
                    message: String::from_str("Too many searches (max 90/minute). Wait a moment."),
                },
            )
        }
    }

    pub fn check_open(&mut self, identity: &str) -> (r: Result<(), NetRailError>)
        requires
            old(self).wf(),
        ensures
            final(self).wf(),
            final(self).search_limit == old(self).search_limit,
            final(self).open_limit == old(self).open_limit,
            final(self).mutate_limit == old(self).mutate_limit,
            final(self).search_counts() == old(self).search_counts(),
            final(self).mutate_counts() == old(self).mutate_counts(),
            acquired(
                old(self).open_counts(),
                final(self).open_counts(),
                identity@,
                old(self).open_limit,
                r is Ok,
            ),
            r matches Err(e) ==> e.code_view() == "RATE_LIMITED"@ && e.status_view() == 429
                && e.detail_view() == "Rate limited: "@ + "Too many open requests (max 120/minute). Wait a moment."@,
    {
        if self.open.acquire(identity, self.open_limit) {
            Ok(())
        } else {
            Err(
                NetRailError::RateLimited {
                    code: "RATE_LIMITED",
                    message: String::from_str(
                        "Too many open requests (max 120/minute). Wait a moment.",
                    ),
                },
            )
        }
    }

    pub fn check_mutate(&mut self, identity: &str) -> (r: Result<(), NetRailError>)
        requires
            old(self).wf(),
        ensures
            final(self).wf(),
            final(self).search_limit == old(self).search_limit,
            final(self).open_limit == old(self).open_limit,
            final(self).mutate_limit == old(self).mutate_limit,
            final(self).search_counts() == old(self).search_counts(),
            final(self).open_counts() == old(self).open_counts(),
            acquired(
                old(self).mutate_counts(),
                final(self).mutate_counts(),
                identity@,
                old(self).mutate_limit,
                r is Ok,
            ),
            r matches Err(e) ==> e.code_view() == "RATE_LIMITED"@ && e.status_view() == 429
                && e.detail_view() == "Rate limited: "@ + "Too many configuration/history mutations (max 60/minute)."@,
    {
        if self.mutate.acquire(identity, self.mutate_limit) {
            Ok(())
        } else {
            Err(
                NetRailError::RateLimited {
                    code: "RATE_LIMITED",
                    message: String::from_str(
                        "Too many configuration/history mutations (max 60/minute).",
                    ),
                },
            )
        }
    }
}

/// How requests are grouped for rate limiting, as the health report names
/// it: `per-token` when an API token is configured, else `process`.
pub fn rate_limit_mode(env_token: Option<&str>) -> (r: &'static str)
    ensures
        r@ == (if crate::auth::configured_token(crate::auth::opt_s(env_token)) is Some {
            "per-token"@
        } else {
            "process"@
        }),
{
    if crate::auth::token_required(env_token) {
        "per-token"
    } else {
        "process"
    }
}

} // verus!
