//! Sliding-window rate limiting with per-key and aggregate budgets.
//!
//! Admission control works over explicit millisecond timestamps handed in by
//! the caller (an injectable monotonic clock): 100 requests per 60-second
//! window per API key, 1000 requests per 60-second window across all keys.
//! Three modes are supported: `AutoDelay` (wait until admissible),
//! `ThrowOnLimit` (fail fast) and `Ignore` (bypass admission entirely).

use vstd::prelude::*;

use crate::config::RateLimitMode;
use crate::key_pool::{mask_key, masked_of, KeyPool};

verus! {

/// Whether a request made at `ts` still counts against the budget at `now`
/// (both in milliseconds): it does while less than 60 seconds old. Elapsed
/// time saturates at zero, so a timestamp "in the future" still counts.
pub open spec fn in_window(ts: u64, now: u64) -> bool {
    now <= ts || now - ts < 60000
}

/// The timestamps of `times` that still count against the budget at `now`.
pub open spec fn pruned_of(times: Seq<u64>, now: u64) -> Seq<u64> {
    times.filter(|ts: u64| in_window(ts, now))
}

/// The first position of `k` in `keys`, or `-1` if `k` does not occur.
pub open spec fn key_index_of(keys: Seq<Seq<char>>, k: Seq<char>) -> int
    decreases keys.len(),
{
    if keys.len() == 0 {
        -1
    } else if keys[0] == k {
        0
    } else {
        let rest = key_index_of(keys.drop_first(), k);
        if rest < 0 {
            -1
        } else {
            rest + 1
        }
    }
}

/// What `key_index_of` finds: the first matching position if any, `-1`
/// exactly when the key does not occur.
pub proof fn lemma_key_index_of(keys: Seq<Seq<char>>, k: Seq<char>)
    ensures
        key_index_of(keys, k) == -1 || 0 <= key_index_of(keys, k) < keys.len(),
        key_index_of(keys, k) == -1 <==> (forall|j: int| 0 <= j < keys.len() ==> keys[j] != k),
        key_index_of(keys, k) >= 0 ==> keys[key_index_of(keys, k)] == k,
        forall|j: int|
            0 <= j < key_index_of(keys, k) ==> keys[j] != k,
    decreases keys.len(),
{
    if keys.len() > 0 && keys[0] != k {
        lemma_key_index_of(keys.drop_first(), k);
        assert(forall|j: int|
            1 <= j < keys.len() ==> keys[j] == keys.drop_first()[j - 1]);
    }
}

/// How the first position of `k` changes when one key is appended.
pub proof fn lemma_key_index_of_push(keys: Seq<Seq<char>>, w: Seq<char>, k: Seq<char>)
    ensures
        key_index_of(keys.push(w), k) == if key_index_of(keys, k) >= 0 {
            key_index_of(keys, k)
        } else if w == k {
            keys.len() as int
        } else {
            -1
        },
    decreases keys.len(),
{
    let kp = keys.push(w);
    if keys.len() == 0 {
        assert(kp[0] == w);
        if w != k {
            assert(kp.drop_first() =~= Seq::<Seq<char>>::empty());
            assert(key_index_of(kp.drop_first(), k) == -1);
        }
    } else if keys[0] == k {
        assert(kp[0] == keys[0]);
        assert(key_index_of(kp, k) == 0);
    } else {
        assert(kp[0] == keys[0]);
        assert(kp.drop_first() =~= keys.drop_first().push(w));
        lemma_key_index_of_push(keys.drop_first(), w, k);
    }
}

/// Filtering distributes over appending one element.
proof fn lemma_filter_push<A>(s: Seq<A>, p: spec_fn(A) -> bool, x: A)
    ensures
        s.push(x).filter(p) == if p(x) {
            s.filter(p).push(x)
        } else {
            s.filter(p)
        },
{
    reveal(Seq::filter);
    assert(s.push(x).drop_last() =~= s);
    assert(s.push(x).last() == x);
}

/// A sequence all of whose elements satisfy the predicate is unchanged by
/// filtering with it.
proof fn lemma_filter_all<A>(s: Seq<A>, p: spec_fn(A) -> bool)
    requires
        forall|i: int| 0 <= i < s.len() ==> p(s[i]),
    ensures
        s.filter(p) == s,
    decreases s.len(),
{
    reveal(Seq::filter);
    if s.len() > 0 {
        lemma_filter_all(s.drop_last(), p);
        assert(s.drop_last().filter(p).push(s.last()) =~= s);
    }
}

/// A sequence none of whose elements satisfies the predicate filters to
/// the empty sequence.
proof fn lemma_filter_none<A>(s: Seq<A>, p: spec_fn(A) -> bool)
    requires
        forall|i: int| 0 <= i < s.len() ==> !p(s[i]),
    ensures
        s.filter(p) == Seq::<A>::empty(),
    decreases s.len(),
{
    reveal(Seq::filter);
    if s.len() > 0 {
        lemma_filter_none(s.drop_last(), p);
    }
}

/// Filtering out at least one element makes the sequence strictly shorter.
proof fn lemma_filter_drops<A>(s: Seq<A>, p: spec_fn(A) -> bool, idx: int)
    requires
        0 <= idx < s.len(),
        !p(s[idx]),
    ensures
        s.filter(p).len() < s.len(),
    decreases s.len(),
{
    reveal(Seq::filter);
    broadcast use vstd::seq_lib::group_filter_ensures;

    if idx == s.len() - 1 {
        assert(s.filter(p) == s.drop_last().filter(p));
    } else {
        lemma_filter_drops(s.drop_last(), p, idx);
    }
}

/// Pruning is idempotent at a fixed instant.
pub proof fn lemma_pruned_idempotent(times: Seq<u64>, now: u64)
    ensures
        pruned_of(pruned_of(times, now), now) == pruned_of(times, now),
{
    let p = |ts: u64| in_window(ts, now);
    broadcast use vstd::seq_lib::group_filter_ensures;

    lemma_filter_all(times.filter(p), p);
}

/// A window none of whose timestamps has aged out prunes to itself.
pub proof fn lemma_pruned_all_in_window(times: Seq<u64>, now: u64)
    requires
        forall|i: int| 0 <= i < times.len() ==> in_window(#[trigger] times[i], now),
    ensures
        pruned_of(times, now) == times,
{
    lemma_filter_all(times, |ts: u64| in_window(ts, now));
}

/// A window all of whose timestamps have aged out prunes to nothing.
pub proof fn lemma_pruned_none_in_window(times: Seq<u64>, now: u64)
    requires
        forall|i: int| 0 <= i < times.len() ==> !in_window(#[trigger] times[i], now),
    ensures
        pruned_of(times, now) == Seq::<u64>::empty(),
{
    lemma_filter_none(times, |ts: u64| in_window(ts, now));
}

/// One credential's recent request history.
#[derive(Debug)]
struct KeyWindow {
    key: String,
    times: Vec<u64>,
}

/// Per-key admission info reported by `RateLimiter::get_rate_limit_info`.
#[derive(Debug, Clone)]
pub struct RateLimitInfo {
    /// Number of requests used in the current window.
    pub used: u32,
    /// Number of requests remaining in the current window.
    pub remaining: u32,
    /// Milliseconds until the rate limit resets.
    pub reset_in_ms: u64,
}

/// The decision of one admission attempt.
#[derive(Debug)]
pub enum AcquireOutcome {
    /// A credential was admitted; the request may proceed with it.
    Granted(String),
    /// No credential is admissible and the mode fails fast (`RateLimited`).
    Denied,
    /// No credential is admissible yet; retry after this many milliseconds.
    Wait(u64),
}

/// Tracks rate limit state for API requests.
///
/// Uses a sliding window: timestamps older than 60 seconds are pruned
/// before each availability check.
#[derive(Debug)]
pub struct RateLimiter {
    /// Recent request timestamps, one window per API key.
    timestamps: Vec<KeyWindow>,
    /// Timestamps of all requests (for the aggregate budget).
    ip_timestamps: Vec<u64>,
    /// Rate limit mode.
    mode: RateLimitMode,
}

impl RateLimiter {
    /// The rate limit mode the limiter was created with.
    pub closed spec fn spec_mode(self) -> RateLimitMode {
        self.mode
    }

    /// The keys with a tracked window, in the order they were first seen.
    pub closed spec fn spec_tracked_keys(self) -> Seq<Seq<char>> {
        self.timestamps@.map_values(|w: KeyWindow| w.key@)
    }

    /// The tracked windows, parallel to `spec_tracked_keys`.
    pub closed spec fn spec_windows(self) -> Seq<Seq<u64>> {
        self.timestamps@.map_values(|w: KeyWindow| w.times@)
    }

    /// The aggregate window: timestamps of all recorded requests.
    pub closed spec fn spec_ip(self) -> Seq<u64> {
        self.ip_timestamps@
    }

    /// The tracked window of key `k`, empty if `k` was never seen.
    pub open spec fn times_of(self, k: Seq<char>) -> Seq<u64> {
        let i = key_index_of(self.spec_tracked_keys(), k);
        if i < 0 {
            Seq::empty()
        } else {
            self.spec_windows()[i]
        }
    }

    /// Whether key `k` is under its per-key budget at `now`: fewer than 100
    /// still-counting requests. Always true under `Ignore`.
    pub open spec fn key_available(self, k: Seq<char>, now: u64) -> bool {
        self.spec_mode() is Ignore || pruned_of(self.times_of(k), now).len() < 100
    }

    /// Whether the aggregate budget admits another request at `now`: fewer
    /// than 1000 still-counting requests. Always true under `Ignore`.
    pub open spec fn ip_available(self, now: u64) -> bool {
        self.spec_mode() is Ignore || pruned_of(self.spec_ip(), now).len() < 1000
    }

    /// Each key has exactly one tracked window, and the window list runs
    /// parallel to the key list.
    pub open spec fn wf(self) -> bool {
        &&& self.spec_windows().len() == self.spec_tracked_keys().len()
        &&& (forall|i: int, j: int|
            0 <= i < j < self.spec_tracked_keys().len() ==> self.spec_tracked_keys()[i]
                != self.spec_tracked_keys()[j])
    }

    /// Two limiter states that admit exactly the same requests at `now`:
    /// same mode, and every per-key and aggregate window prunes to the same
    /// timestamps. Pruning at `now` relates a state to itself.
    pub open spec fn same_admission(self, other: RateLimiter, now: u64) -> bool {
        &&& other.spec_mode() == self.spec_mode()
        &&& (forall|k: Seq<char>| #[trigger] pruned_of(other.times_of(k), now) == pruned_of(
            self.times_of(k),
            now,
        ))
        &&& pruned_of(other.spec_ip(), now) == pruned_of(self.spec_ip(), now)
    }

    /// How recording usage for `key` at `now` changes the limiter outside
    /// `Ignore`: the timestamp joins the aggregate window; the tracked-key
    /// list is unchanged when `key` already has a window and gains exactly
    /// `key` otherwise; `key`'s window gains exactly the timestamp, and
    /// every other window stands still.
    pub open spec fn records_usage(self, after: RateLimiter, key: Seq<char>, now: u64) -> bool {
        &&& after.spec_mode() == self.spec_mode()
        &&& after.spec_ip() == self.spec_ip().push(now)
        &&& after.spec_tracked_keys() == if key_index_of(self.spec_tracked_keys(), key) >= 0 {
            self.spec_tracked_keys()
        } else {
            self.spec_tracked_keys().push(key)
        }
        &&& after.spec_windows().len() == after.spec_tracked_keys().len()
        &&& ({
            let idx = key_index_of(after.spec_tracked_keys(), key);
            &&& 0 <= idx < after.spec_windows().len()
            &&& after.spec_windows()[idx] == self.times_of(key).push(now)
            &&& (forall|j: int|
                0 <= j < self.spec_windows().len() && j != idx
                    ==> after.spec_windows()[j] == self.spec_windows()[j])
        })
        &&& after.times_of(key) == self.times_of(key).push(now)
        &&& (forall|k2: Seq<char>| k2 != key ==> after.times_of(k2) == self.times_of(k2))
    }

    /// A limiter state reached from `self` by pruning alone, at `now`:
    /// same mode, and each window — per key or aggregate — either stands
    /// still or loses exactly its aged-out timestamps.
    pub open spec fn evolves_by_pruning(self, after: RateLimiter, now: u64) -> bool {
        &&& after.spec_mode() == self.spec_mode()
        &&& (after.spec_ip() == self.spec_ip() || after.spec_ip() == pruned_of(
            self.spec_ip(),
            now,
        ))
        &&& (forall|k: Seq<char>|
            #[trigger] after.times_of(k) == self.times_of(k) || after.times_of(k) == pruned_of(
                self.times_of(k),
                now,
            ))
    }

    /// A limiter state reached from `self` by a probing scan at `now`:
    /// the tracked-key list keeps its prefix and at most gains new keys,
    /// each old window stands still or is pruned, every window gained is
    /// empty, and the aggregate window stands still or is pruned.
    pub open spec fn scan_evolution(self, after: RateLimiter, now: u64) -> bool {
        &&& after.spec_mode() == self.spec_mode()
        &&& after.spec_tracked_keys().len() >= self.spec_tracked_keys().len()
        &&& after.spec_tracked_keys().take(self.spec_tracked_keys().len() as int)
            == self.spec_tracked_keys()
        &&& after.spec_windows().len() == after.spec_tracked_keys().len()
        &&& (forall|j: int|
            0 <= j < self.spec_windows().len()
                ==> #[trigger] after.spec_windows()[j] == self.spec_windows()[j]
                || after.spec_windows()[j] == pruned_of(self.spec_windows()[j], now))
        &&& (forall|j: int|
            self.spec_windows().len() <= j < after.spec_windows().len()
                ==> #[trigger] after.spec_windows()[j] == Seq::<u64>::empty())
        &&& (after.spec_ip() == self.spec_ip() || after.spec_ip() == pruned_of(
            self.spec_ip(),
            now,
        ))
    }

    /// A state scans to itself.
    proof fn lemma_scan_evolution_refl(self, now: u64)
        ensures
            self.scan_evolution(self, now),
    {
        assert(self.spec_tracked_keys().take(self.spec_tracked_keys().len() as int)
            =~= self.spec_tracked_keys());
    }

    /// Scan evolutions compose.
    proof fn lemma_scan_evolution_trans(self, b: RateLimiter, c: RateLimiter, now: u64)
        requires
            self.scan_evolution(b, now),
            b.scan_evolution(c, now),
        ensures
            self.scan_evolution(c, now),
    {
        assert(c.spec_tracked_keys().take(self.spec_tracked_keys().len() as int)
            =~= self.spec_tracked_keys());
        assert forall|j: int|
            0 <= j < self.spec_windows().len() implies (#[trigger] c.spec_windows()[j]
                == self.spec_windows()[j] || c.spec_windows()[j] == pruned_of(
                self.spec_windows()[j],
                now,
            )) by {
            assert(b.spec_windows()[j] == self.spec_windows()[j] || b.spec_windows()[j]
                == pruned_of(self.spec_windows()[j], now));
            lemma_pruned_idempotent(self.spec_windows()[j], now);
        }
        assert forall|j: int|
            self.spec_windows().len() <= j < c.spec_windows().len() implies
            #[trigger] c.spec_windows()[j] == Seq::<u64>::empty() by {
            if j < b.spec_windows().len() {
                assert(b.spec_windows()[j] == Seq::<u64>::empty());
                lemma_pruned_none_in_window(Seq::<u64>::empty(), now);
            }
        }
        lemma_pruned_idempotent(self.spec_ip(), now);
    }

    /// The first key of `keys` at position `i` or later that is under its
    /// per-key budget at `now`, if any.
    pub open spec fn first_available(self, keys: Seq<Seq<char>>, now: u64, i: int) -> Option<
        Seq<char>,
    >
        decreases keys.len() - i,
    {
        if i < 0 || i >= keys.len() {
            None
        } else if self.key_available(keys[i], now) {
            Some(keys[i])
        } else {
            self.first_available(keys, now, i + 1)
        }
    }

    /// What a linear probe over `keys` yields at `now`: nothing when the
    /// aggregate budget is exhausted, else the first key under its budget.
    pub open spec fn find_spec(self, keys: Seq<Seq<char>>, now: u64) -> Option<Seq<char>> {
        if !self.ip_available(now) {
            None
        } else {
            self.first_available(keys, now, 0)
        }
    }

    /// A probe that found no key at or after `from` yields `None`.
    proof fn lemma_first_available_none(self, keys: Seq<Seq<char>>, now: u64, from: int)
        requires
            0 <= from <= keys.len(),
            forall|t: int| from <= t < keys.len() ==> !self.key_available(keys[t], now),
        ensures
            self.first_available(keys, now, from) is None,
        decreases keys.len() - from,
    {
        if from < keys.len() {
            self.lemma_first_available_none(keys, now, from + 1);
        }
    }

    /// A probe whose first admissible key stands at `i` yields that key.
    proof fn lemma_first_available_at(self, keys: Seq<Seq<char>>, now: u64, from: int, i: int)
        requires
            0 <= from <= i < keys.len(),
            forall|t: int| from <= t < i ==> !self.key_available(keys[t], now),
            self.key_available(keys[i], now),
        ensures
            self.first_available(keys, now, from) == Some(keys[i]),
        decreases i - from,
    {
        if from < i {
            self.lemma_first_available_at(keys, now, from + 1, i);
        }
    }

    /// Create a new rate limiter with the specified mode.
    pub fn new(mode: RateLimitMode) -> (r: Self)
        ensures
            r.wf(),
            r.spec_mode() == mode,
            r.spec_tracked_keys() == Seq::<Seq<char>>::empty(),
            r.spec_ip() == Seq::<u64>::empty(),
    {
        let r = RateLimiter { timestamps: Vec::new(), ip_timestamps: Vec::new(), mode };
        proof {
            assert(r.spec_tracked_keys() =~= Seq::<Seq<char>>::empty());
        }
        r
    }

    /// Discard the timestamps of `times` that no longer count at `now`.
    pub fn prune_timestamps(times: &mut Vec<u64>, now_ms: u64)
        ensures
            final(times)@ == pruned_of(old(times)@, now_ms),
    {
        let ghost all = times@;
        let ghost p = |ts: u64| in_window(ts, now_ms);
        let mut kept: Vec<u64> = Vec::new();
        let mut i: usize = 0;
        proof {
            assert(all.take(0) =~= Seq::<u64>::empty());
            reveal(Seq::filter);
        }
        while i < times.len()
            invariant
                i <= times.len(),
                times@ == all,
                p == (|ts: u64| in_window(ts, now_ms)),
                kept@ == all.take(i as int).filter(p),
            decreases times.len() - i,
        {
            let ts = times[i];
            proof {
                assert(all.take(i + 1) =~= all.take(i as int).push(all[i as int]));
                lemma_filter_push(all.take(i as int), p, all[i as int]);
            }
            if now_ms.saturating_sub(ts) < 60000 {
                kept.push(ts);
            }
            i += 1;
        }
        proof {
            assert(all.take(times@.len() as int) =~= all);
        }
        *times = kept;
    }

    /// Position of the window tracked for `key`, creating an empty window
    /// if none exists yet.
    fn window_index(&mut self, key: &String) -> (i: usize)
        requires
            old(self).wf(),
        ensures
            final(self).wf(),
            final(self).spec_mode() == old(self).spec_mode(),
            final(self).spec_ip() == old(self).spec_ip(),
            i < final(self).spec_tracked_keys().len(),
            final(self).spec_tracked_keys()[i as int] == key@,
            key_index_of(final(self).spec_tracked_keys(), key@) == i,
            (forall|k: Seq<char>| final(self).times_of(k) == old(self).times_of(k)),
            ({
                ||| {
                    &&& final(self).spec_tracked_keys() == old(self).spec_tracked_keys()
                    &&& final(self).spec_windows() == old(self).spec_windows()
                }
                ||| {
                    &&& key_index_of(old(self).spec_tracked_keys(), key@) == -1
                    &&& final(self).spec_tracked_keys() == old(self).spec_tracked_keys().push(key@)
                    &&& final(self).spec_windows() == old(self).spec_windows().push(
                        Seq::<u64>::empty(),
                    )
                }
            }),
    {
        let ghost keys0 = self.spec_tracked_keys();
        let mut j: usize = 0;
        while j < self.timestamps.len()
            invariant
                j <= self.timestamps.len(),
                *self == *old(self),
                self.wf(),
                keys0 == self.spec_tracked_keys(),
                forall|t: int| 0 <= t < j ==> self.spec_tracked_keys()[t] != key@,
            decreases self.timestamps.len() - j,
        {
            if self.timestamps[j].key == *key {
                proof {
                    lemma_key_index_of(keys0, key@);
                    let f = key_index_of(keys0, key@);
                    assert(keys0[j as int] == key@);
                    assert(f >= 0);
                    assert(f <= j);
                    assert(keys0[f] == key@);
                    if f < j {
                        assert(false);
                    }
                    if f > j {
                        assert(keys0[j as int] != key@);
                        assert(false);
                    }
                    assert(f == j);
                }
                return j;
            }
            j += 1;
        }
        proof {
            lemma_key_index_of(keys0, key@);
            assert(key_index_of(keys0, key@) == -1);
        }
        let ghost win0 = self.spec_windows();
        self.timestamps.push(KeyWindow { key: key.clone(), times: Vec::new() });
        proof {
            assert(self.spec_tracked_keys() =~= keys0.push(key@));
            assert(self.spec_windows() =~= win0.push(Seq::<u64>::empty()));
            lemma_key_index_of_push(keys0, key@, key@);
            assert forall|k: Seq<char>| self.times_of(k) == old(self).times_of(k) by {
                lemma_key_index_of_push(keys0, key@, k);
                lemma_key_index_of(keys0, k);
                if k == key@ {
                    assert(old(self).times_of(k) =~= Seq::<u64>::empty());
                }
            }
        }
        self.timestamps.len() - 1
    }

    /// Check whether `key` is under its per-key rate limit at `now_ms`.
    ///
    /// Outside `Ignore` mode this prunes the key's window (creating it when
    /// the key was never seen) before counting; `Ignore` leaves the limiter
    /// untouched and always reports availability.
    pub fn is_key_available(&mut self, key: &str, now_ms: u64) -> (b: bool)
        requires
            old(self).wf(),
        ensures
            final(self).wf(),
            final(self).spec_mode() == old(self).spec_mode(),
            final(self).spec_ip() == old(self).spec_ip(),
            b == old(self).key_available(key@, now_ms),
            old(self).spec_mode() is Ignore ==> *final(self) == *old(self),
            (forall|k: Seq<char>|
                k != key@ ==> final(self).times_of(k) == old(self).times_of(k)),
            final(self).times_of(key@) == if old(self).spec_mode() is Ignore {
                old(self).times_of(key@)
            } else {
                pruned_of(old(self).times_of(key@), now_ms)
            },
            !(old(self).spec_mode() is Ignore) ==> {
                &&& final(self).spec_tracked_keys() == if key_index_of(
                    old(self).spec_tracked_keys(),
                    key@,
                ) >= 0 {
                    old(self).spec_tracked_keys()
                } else {
                    old(self).spec_tracked_keys().push(key@)
                }
                &&& ({
                    let idx = key_index_of(final(self).spec_tracked_keys(), key@);
                    &&& 0 <= idx < final(self).spec_windows().len()
                    &&& final(self).spec_windows()[idx] == pruned_of(
                        old(self).times_of(key@),
                        now_ms,
                    )
                    &&& (forall|j: int|
                        0 <= j < old(self).spec_windows().len() && j != idx
                            ==> final(self).spec_windows()[j] == old(self).spec_windows()[j])
                })
            },
            old(self).scan_evolution(*final(self), now_ms),
    {
        match self.mode {
            RateLimitMode::Ignore => {
                proof {
                    assert(old(self).spec_tracked_keys().take(
                        old(self).spec_tracked_keys().len() as int,
                    ) =~= old(self).spec_tracked_keys());
                }
                true
            },
            _ => {
                let owned = key.to_owned();
                let i = self.window_index(&owned);
                let ghost mid = *self;
                let mut times = self.timestamps[i].times.clone();
                proof {
                    assert forall|t: int| 0 <= t < self.timestamps[i as int].times@.len() implies times@[t]
                        == self.timestamps[i as int].times@[t] by {}
                    assert(times@ =~= self.timestamps[i as int].times@);
                    assert(mid.spec_windows()[i as int] == times@);
                    assert(mid.times_of(key@) == times@);
                }
                Self::prune_timestamps(&mut times, now_ms);
                let count = times.len();
                self.timestamps.set(i, KeyWindow { key: owned, times });
                proof {
                    assert(self.spec_tracked_keys() =~= mid.spec_tracked_keys());
                    assert(self.spec_windows() =~= mid.spec_windows().update(
                        i as int,
                        pruned_of(mid.times_of(key@), now_ms),
                    ));
                    assert forall|k: Seq<char>|
                        k != key@ implies self.times_of(k) == mid.times_of(k) by {
                        lemma_key_index_of(mid.spec_tracked_keys(), k);
                    }
                    assert(key_index_of(self.spec_tracked_keys(), key@) == i);
                    if mid.spec_tracked_keys() == old(self).spec_tracked_keys() {
                        assert(key_index_of(old(self).spec_tracked_keys(), key@) == i);
                    } else {
                        assert(key_index_of(old(self).spec_tracked_keys(), key@) == -1);
                        assert(i == old(self).spec_tracked_keys().len()) by {
                            lemma_key_index_of_push(old(self).spec_tracked_keys(), key@, key@);
                        }
                        assert forall|j: int|
                            0 <= j < old(self).spec_windows().len() && j != i implies self.spec_windows()[j]
                            == old(self).spec_windows()[j] by {}
                    }
                    assert(self.spec_tracked_keys().take(
                        old(self).spec_tracked_keys().len() as int,
                    ) =~= old(self).spec_tracked_keys());
                    assert forall|j: int|
                        0 <= j < old(self).spec_windows().len() implies (
                        #[trigger] self.spec_windows()[j] == old(self).spec_windows()[j]
                            || self.spec_windows()[j] == pruned_of(
                            old(self).spec_windows()[j],
                            now_ms,
                        )) by {
                        if j == i {
                            if mid.spec_tracked_keys() == old(self).spec_tracked_keys() {
                                assert(key_index_of(old(self).spec_tracked_keys(), key@) == i);
                                assert(old(self).times_of(key@) == old(self).spec_windows()[j]);
                            } else {
                                assert(i == old(self).spec_tracked_keys().len());
                                assert(false);
                            }
                        }
                    }
                    assert forall|j: int|
                        old(self).spec_windows().len() <= j < self.spec_windows().len() implies
                        #[trigger] self.spec_windows()[j] == Seq::<u64>::empty() by {
                        if mid.spec_tracked_keys() == old(self).spec_tracked_keys() {
                            assert(self.spec_windows().len() == old(self).spec_windows().len());
                            assert(false);
                        } else {
                            assert(i == old(self).spec_tracked_keys().len());
                            assert(self.spec_windows().len() == old(self).spec_windows().len()
                                + 1);
                            assert(j == i);
                            assert(old(self).times_of(key@) =~= Seq::<u64>::empty());
                            lemma_pruned_none_in_window(Seq::<u64>::empty(), now_ms);
                        }
                    }
                    assert(old(self).scan_evolution(*self, now_ms));
                }
                count < 100
            },
        }
    }

    /// Check whether the aggregate budget admits another request at
    /// `now_ms`, pruning the aggregate window first. Always true under
    /// `Ignore`, which leaves the limiter untouched.
    pub fn is_ip_available(&mut self, now_ms: u64) -> (b: bool)
        requires
            old(self).wf(),
        ensures
            final(self).wf(),
            final(self).spec_mode() == old(self).spec_mode(),
            final(self).spec_tracked_keys() == old(self).spec_tracked_keys(),
            final(self).spec_windows() == old(self).spec_windows(),
            b == old(self).ip_available(now_ms),
            old(self).spec_mode() is Ignore ==> *final(self) == *old(self),
            final(self).spec_ip() == if old(self).spec_mode() is Ignore {
                old(self).spec_ip()
            } else {
                pruned_of(old(self).spec_ip(), now_ms)
            },
    {
        match self.mode {
            RateLimitMode::Ignore => true,
            _ => {
                Self::prune_timestamps(&mut self.ip_timestamps, now_ms);
                proof {
                    assert(self.timestamps == old(self).timestamps);
                    assert(self.spec_tracked_keys() == old(self).spec_tracked_keys());
                    assert(self.wf());
                }
                self.ip_timestamps.len() < 1000
            },
        }
    }

    /// Record that a request was made with `key` at `now_ms`.
    ///
    /// Appends the timestamp to the key's window (creating it when the key
    /// was never seen) and to the aggregate window. No-op under `Ignore`.
    pub fn record_request(&mut self, key: &str, now_ms: u64)
        requires
            old(self).wf(),
        ensures
            final(self).wf(),
            final(self).spec_mode() == old(self).spec_mode(),
            old(self).spec_mode() is Ignore ==> *final(self) == *old(self),
            final(self).spec_ip() == if old(self).spec_mode() is Ignore {
                old(self).spec_ip()
            } else {
                old(self).spec_ip().push(now_ms)
            },
            (forall|k: Seq<char>|
                k != key@ ==> final(self).times_of(k) == old(self).times_of(k)),
            final(self).times_of(key@) == if old(self).spec_mode() is Ignore {
                old(self).times_of(key@)
            } else {
                old(self).times_of(key@).push(now_ms)
            },
            !(old(self).spec_mode() is Ignore) ==> old(self).records_usage(
                *final(self),
                key@,
                now_ms,
            ),
    {
        match self.mode {
            RateLimitMode::Ignore => {},
            _ => {
                let owned = key.to_owned();
                let i = self.window_index(&owned);
                let ghost mid = *self;
                let mut times = self.timestamps[i].times.clone();
                proof {
                    assert forall|t: int| 0 <= t < self.timestamps[i as int].times@.len() implies times@[t]
                        == self.timestamps[i as int].times@[t] by {}
                    assert(times@ =~= self.timestamps[i as int].times@);
                    assert(mid.times_of(key@) == times@);
                }
                times.push(now_ms);
                self.timestamps.set(i, KeyWindow { key: owned, times });
                self.ip_timestamps.push(now_ms);
                proof {
                    assert(self.spec_tracked_keys() =~= mid.spec_tracked_keys());
                    assert(self.spec_windows() =~= mid.spec_windows().update(
                        i as int,
                        mid.times_of(key@).push(now_ms),
                    ));
                    assert forall|k: Seq<char>|
                        k != key@ implies self.times_of(k) == mid.times_of(k) by {
                        lemma_key_index_of(mid.spec_tracked_keys(), k);
                    }
                    assert(key_index_of(self.spec_tracked_keys(), key@) == i);
                    if mid.spec_tracked_keys() == old(self).spec_tracked_keys() {
                        assert(key_index_of(old(self).spec_tracked_keys(), key@) == i);
                        assert(self.spec_windows()[i as int] == old(self).times_of(key@).push(
                            now_ms,
                        ));
                    } else {
                        assert(key_index_of(old(self).spec_tracked_keys(), key@) == -1);
                        assert(mid.times_of(key@) =~= Seq::<u64>::empty());
                        assert(self.spec_windows()[i as int] == old(self).times_of(key@).push(
                            now_ms,
                        ));
                        assert forall|j: int|
                            0 <= j < old(self).spec_windows().len() && j != i implies self.spec_windows()[j]
                            == old(self).spec_windows()[j] by {}
                    }
                    assert(old(self).records_usage(*self, key@, now_ms));
                }
            },
        }
    }

    /// Find an available key from the pool, respecting rate limits.
    ///
    /// Under `Ignore` this draws `pool.next_key()` unconditionally. In the
    /// other modes the pool's rotation cursor is untouched: when the
    /// aggregate budget is exhausted nothing is returned, otherwise pool
    /// positions are probed in order and the first key under its per-key
    /// budget is returned, or nothing if none qualifies.
    pub fn find_available_key(&mut self, pool: &mut KeyPool, now_ms: u64) -> (r: Option<String>)
        requires
            old(self).wf(),
            old(pool).wf(),
        ensures
            final(self).wf(),
            old(self).same_admission(*final(self), now_ms),
            old(self).evolves_by_pruning(*final(self), now_ms),
            old(self).scan_evolution(*final(self), now_ms),
            final(self).spec_ip() == old(self).spec_ip() || final(self).spec_ip() == pruned_of(
                old(self).spec_ip(),
                now_ms,
            ),
            old(self).spec_mode() is Ignore ==> {
                &&& *final(self) == *old(self)
                &&& final(pool).wf()
                &&& final(pool).spec_keys() == old(pool).spec_keys()
                &&& final(pool).spec_balancing() == old(pool).spec_balancing()
                &&& final(pool).spec_index() == old(pool).spec_index().wrapping_add(1)
                &&& (r matches Some(k) && k@ == old(pool).selected_key(old(pool).spec_index()))
            },
            !(old(self).spec_mode() is Ignore) ==> {
                &&& *final(pool) == *old(pool)
                &&& match r {
                    Some(k) => old(self).find_spec(old(pool).spec_keys(), now_ms) == Some(k@),
                    None => old(self).find_spec(old(pool).spec_keys(), now_ms) is None,
                }
            },
    {
        match self.mode {
            RateLimitMode::Ignore => {
                proof {
                    old(self).lemma_scan_evolution_refl(now_ms);
                }
                Some(pool.next_key())
            },
            _ => {
                let ghost s0 = *self;
                let ghost keys = pool.spec_keys();
                if !self.is_ip_available(now_ms) {
                    proof {
                        s0.lemma_scan_evolution_refl(now_ms);
                        lemma_pruned_idempotent(s0.spec_ip(), now_ms);
                        assert forall|k: Seq<char>| #[trigger] pruned_of(
                            self.times_of(k),
                            now_ms,
                        ) == pruned_of(s0.times_of(k), now_ms) by {}
                    }
                    return None;
                }
                proof {
                    s0.lemma_scan_evolution_refl(now_ms);
                    lemma_pruned_idempotent(s0.spec_ip(), now_ms);
                }
                let key_count = pool.len();
                let mut i: usize = 0;
                while i < key_count
                    invariant
                        i <= key_count,
                        self.wf(),
                        pool.wf(),
                        *pool == *old(pool),
                        key_count == keys.len(),
                        keys == pool.spec_keys(),
                        s0 == *old(self),
                        s0.ip_available(now_ms),
                        !(s0.spec_mode() is Ignore),
                        self.spec_mode() == s0.spec_mode(),
                        self.spec_ip() == pruned_of(s0.spec_ip(), now_ms),
                        s0.same_admission(*self, now_ms),
                        s0.scan_evolution(*self, now_ms),
                        (forall|k: Seq<char>|
                            #[trigger] self.times_of(k) == s0.times_of(k) || self.times_of(k)
                                == pruned_of(s0.times_of(k), now_ms)),
                        forall|t: int| 0 <= t < i ==> !s0.key_available(keys[t], now_ms),
                    decreases key_count - i,
                {
                    let ghost pre = *self;
                    let step = match pool.get_key(i) {
                        Some(key) => {
                            if self.is_key_available(key, now_ms) {
                                Some(key.to_owned())
                            } else {
                                None
                            }
                        },
                        None => None,
                    };
                    proof {
                        assert forall|k: Seq<char>| #[trigger] pruned_of(
                            self.times_of(k),
                            now_ms,
                        ) == pruned_of(s0.times_of(k), now_ms) by {
                            lemma_pruned_idempotent(pre.times_of(k), now_ms);
                        }
                        assert forall|k: Seq<char>|
                            #[trigger] self.times_of(k) == s0.times_of(k) || self.times_of(k)
                                == pruned_of(s0.times_of(k), now_ms) by {
                            if self.times_of(k) != pre.times_of(k) {
                                assert(self.times_of(k) == pruned_of(pre.times_of(k), now_ms));
                                lemma_pruned_idempotent(s0.times_of(k), now_ms);
                            }
                        }
                        s0.lemma_scan_evolution_trans(pre, *self, now_ms);
                    }
                    if let Some(found) = step {
                        proof {
                            let ki = keys[i as int];
                            assert(pruned_of(pre.times_of(ki), now_ms) == pruned_of(
                                s0.times_of(ki),
                                now_ms,
                            ));
                            assert(s0.key_available(ki, now_ms));
                            s0.lemma_first_available_at(keys, now_ms, 0, i as int);
                            assert(s0.find_spec(keys, now_ms) == Some(ki));
                        }
                        return Some(found);
                    }
                    i += 1;
                }
                proof {
                    s0.lemma_first_available_none(keys, now_ms, 0);
                }
                None
            },
        }
    }

    /// The wait, in milliseconds, until a window whose oldest still-listed
    /// timestamp is `oldest` frees a slot at `now`: the remainder of the
    /// 60-second horizon plus a 100 ms safety buffer.
    pub open spec fn wait_until_free(oldest: u64, now: u64) -> u64 {
        if now <= oldest {
            60100
        } else if now - oldest >= 60000 {
            100
        } else {
            (60000 - (now - oldest) + 100) as u64
        }
    }

    /// Whether some tracked window is non-empty yet under its per-key
    /// budget, counting raw (unpruned) entries as `min_wait_time` does.
    pub open spec fn some_key_has_capacity(self, now: u64) -> bool {
        exists|i: int|
            0 <= i < self.spec_windows().len() && 0 < #[trigger] self.spec_windows()[i].len()
                < 100
    }

    /// The least wait over the first `i` tracked windows, starting from the
    /// 61-second fallback and taking only full windows into account.
    pub open spec fn min_key_wait_upto(self, now: u64, i: int) -> u64
        decreases i,
    {
        if i <= 0 {
            61000
        } else {
            let prev = self.min_key_wait_upto(now, i - 1);
            let w = self.spec_windows()[i - 1];
            if w.len() >= 100 && Self::wait_until_free(w[0], now) < prev {
                Self::wait_until_free(w[0], now)
            } else {
                prev
            }
        }
    }

    /// What `min_wait_time` returns at `now`. While the aggregate window
    /// is at capacity it blocks every key, so the wait is the least over
    /// all at-capacity windows — per-key and aggregate — with a 61-second
    /// fallback; a key with spare budget cannot help and earns no zero.
    /// Otherwise, a non-empty key window under its budget means no wait at
    /// all, and failing that the least wait over the full per-key windows
    /// applies, with the same fallback.
    pub open spec fn min_wait_spec(self, now: u64) -> u64 {
        let m = self.min_key_wait_upto(now, self.spec_windows().len() as int);
        if self.spec_ip().len() >= 1000 {
            if Self::wait_until_free(self.spec_ip()[0], now) < m {
                Self::wait_until_free(self.spec_ip()[0], now)
            } else {
                m
            }
        } else if self.some_key_has_capacity(now) {
            0
        } else {
            m
        }
    }

    /// Compute the minimum wait until any key becomes available.
    ///
    /// Windows are read as they stand (no pruning). With the aggregate
    /// budget open, a non-empty window under its per-key budget means no
    /// wait at all; otherwise the shortest time until the oldest timestamp
    /// of an at-capacity window (per-key or aggregate) ages out of the
    /// 60-second horizon, plus a small safety buffer — never zero, so a
    /// full aggregate window cannot cause a busy retry loop.
    pub fn min_wait_time(&self, now_ms: u64) -> (r: u64)
        ensures
            r == self.min_wait_spec(now_ms),
    {
        let ip_full = self.ip_timestamps.len() >= 1000;
        let mut min_wait: u64 = 61000;
        let n = self.timestamps.len();
        let mut i: usize = 0;
        while i < n
            invariant
                i <= n,
                n == self.spec_windows().len(),
                ip_full == (self.spec_ip().len() >= 1000),
                min_wait == self.min_key_wait_upto(now_ms, i as int),
                !ip_full ==> (forall|t: int|
                    0 <= t < i ==> !(0 < #[trigger] self.spec_windows()[t].len() < 100)),
            decreases n - i,
        {
            let len = self.timestamps[i].times.len();
            if len > 0 {
                if len >= 100 {
                    let oldest = self.timestamps[i].times[0];
                    let wait = 60000u64.saturating_sub(now_ms.saturating_sub(oldest)) + 100;
                    proof {
                        assert(wait == Self::wait_until_free(oldest, now_ms));
                    }
                    if wait < min_wait {
                        min_wait = wait;
                    }
                } else if !ip_full {
                    proof {
                        assert(0 < self.spec_windows()[i as int].len() < 100);
                    }
                    return 0;
                }
            }
            i += 1;
        }
        if ip_full {
            let oldest = self.ip_timestamps[0];
            let wait = 60000u64.saturating_sub(now_ms.saturating_sub(oldest)) + 100;
            proof {
                assert(wait == Self::wait_until_free(oldest, now_ms));
            }
            if wait < min_wait {
                min_wait = wait;
            }
        }
        min_wait
    }

    /// The `used` count reported for a window at `now`: its pruned length,
    /// capped at the largest 32-bit value.
    pub open spec fn used_of(times: Seq<u64>, now: u64) -> u32 {
        if pruned_of(times, now).len() >= 0xffff_ffff {
            0xffff_ffffu32
        } else {
            pruned_of(times, now).len() as u32
        }
    }

    /// The `remaining` count reported for a window at `now`: what is left
    /// of the 100-request budget.
    pub open spec fn remaining_of(times: Seq<u64>, now: u64) -> u32 {
        if Self::used_of(times, now) >= 100 {
            0
        } else {
            (100 - Self::used_of(times, now)) as u32
        }
    }

    /// The `reset_in_ms` reported for a window at `now`: the time until its
    /// oldest still-counting timestamp ages out, zero for an empty window.
    pub open spec fn reset_of(times: Seq<u64>, now: u64) -> u64 {
        let p = pruned_of(times, now);
        if p.len() == 0 {
            0
        } else if now <= p[0] {
            60000
        } else if now - p[0] >= 60000 {
            0
        } else {
            (60000 - (now - p[0])) as u64
        }
    }

    /// Report per-key admission info for all tracked keys, in the order
    /// they were first seen, each key in its display form. Empty under
    /// `Ignore`; otherwise every window is pruned as it is read.
    pub fn get_rate_limit_info(&mut self, now_ms: u64) -> (r: Vec<(String, RateLimitInfo)>)
        requires
            old(self).wf(),
        ensures
            final(self).wf(),
            final(self).spec_mode() == old(self).spec_mode(),
            old(self).same_admission(*final(self), now_ms),
            old(self).evolves_by_pruning(*final(self), now_ms),
            old(self).spec_mode() is Ignore ==> (*final(self) == *old(self) && r@.len() == 0),
            !(old(self).spec_mode() is Ignore) ==> {
                &&& final(self).spec_tracked_keys() == old(self).spec_tracked_keys()
                &&& final(self).spec_ip() == old(self).spec_ip()
                &&& final(self).spec_windows().len() == old(self).spec_windows().len()
                &&& (forall|t: int|
                    0 <= t < old(self).spec_windows().len()
                        ==> #[trigger] final(self).spec_windows()[t] == pruned_of(
                        old(self).spec_windows()[t],
                        now_ms,
                    ))
                &&& r@.len() == old(self).spec_tracked_keys().len()
                &&& (forall|t: int|
                    0 <= t < r@.len() ==> (#[trigger] r@[t]).0@ == masked_of(
                        old(self).spec_tracked_keys()[t],
                    ))
                &&& (forall|t: int|
                    0 <= t < r@.len() ==> (#[trigger] r@[t]).1.used == Self::used_of(
                        old(self).spec_windows()[t],
                        now_ms,
                    ))
                &&& (forall|t: int|
                    0 <= t < r@.len() ==> (#[trigger] r@[t]).1.remaining == Self::remaining_of(
                        old(self).spec_windows()[t],
                        now_ms,
                    ))
                &&& (forall|t: int|
                    0 <= t < r@.len() ==> (#[trigger] r@[t]).1.reset_in_ms == Self::reset_of(
                        old(self).spec_windows()[t],
                        now_ms,
                    ))
            },
    {
        let mut result: Vec<(String, RateLimitInfo)> = Vec::new();
        match self.mode {
            RateLimitMode::Ignore => result,
            _ => {
                let ghost s0 = *self;
                let n = self.timestamps.len();
                let mut i: usize = 0;
                while i < n
                    invariant
                        i <= n,
                        s0 == *old(self),
                        s0.wf(),
                        !(s0.spec_mode() is Ignore),
                        self.wf(),
                        self.spec_mode() == s0.spec_mode(),
                        self.spec_ip() == s0.spec_ip(),
                        n == self.spec_windows().len(),
                        self.spec_tracked_keys() == s0.spec_tracked_keys(),
                        forall|t: int|
                            i <= t < n ==> #[trigger] self.spec_windows()[t]
                                == s0.spec_windows()[t],
                        forall|t: int|
                            0 <= t < i ==> #[trigger] self.spec_windows()[t] == pruned_of(
                                s0.spec_windows()[t],
                                now_ms,
                            ),
                        result@.len() == i,
                        forall|t: int|
                            0 <= t < i ==> (#[trigger] result@[t]).0@ == masked_of(
                                s0.spec_tracked_keys()[t],
                            ),
                        forall|t: int|
                            0 <= t < i ==> (#[trigger] result@[t]).1.used == Self::used_of(
                                s0.spec_windows()[t],
                                now_ms,
                            ) && result@[t].1.remaining == Self::remaining_of(
                                s0.spec_windows()[t],
                                now_ms,
                            ) && result@[t].1.reset_in_ms == Self::reset_of(
                                s0.spec_windows()[t],
                                now_ms,
                            ),
                    decreases n - i,
                {
                    let key_copy = self.timestamps[i].key.clone();
                    let mut times = self.timestamps[i].times.clone();
                    proof {
                        assert forall|t: int|
                            0 <= t < self.timestamps[i as int].times@.len() implies times@[t]
                            == self.timestamps[i as int].times@[t] by {}
                        assert(times@ =~= self.timestamps[i as int].times@);
                        assert(self.spec_windows()[i as int] == self.timestamps@[i as int].times@);
                        assert(times@ == s0.spec_windows()[i as int]);
                    }
                    Self::prune_timestamps(&mut times, now_ms);
                    let l = times.len();
                    let used: u32 = if l >= 0xffff_ffff {
                        0xffff_ffffu32
                    } else {
                        l as u32
                    };
                    let remaining: u32 = if used >= 100 {
                        0
                    } else {
                        100 - used
                    };
                    let reset_in_ms: u64 = if l > 0 {
                        60000u64.saturating_sub(now_ms.saturating_sub(times[0]))
                    } else {
                        0
                    };
                    let masked = mask_key(&key_copy);
                    let ghost pre = *self;
                    self.timestamps.set(i, KeyWindow { key: key_copy, times });
                    result.push((masked, RateLimitInfo { used, remaining, reset_in_ms }));
                    proof {
                        assert(self.spec_tracked_keys() =~= pre.spec_tracked_keys());
                        assert(self.spec_windows() =~= pre.spec_windows().update(
                            i as int,
                            pruned_of(s0.spec_windows()[i as int], now_ms),
                        ));
                    }
                    i += 1;
                }
                proof {
                    assert forall|k: Seq<char>| #[trigger] pruned_of(
                        self.times_of(k),
                        now_ms,
                    ) == pruned_of(s0.times_of(k), now_ms) by {
                        lemma_key_index_of(s0.spec_tracked_keys(), k);
                        let ki = key_index_of(s0.spec_tracked_keys(), k);
                        if ki >= 0 {
                            lemma_pruned_idempotent(s0.spec_windows()[ki], now_ms);
                        }
                    }
                    assert forall|k: Seq<char>|
                        #[trigger] self.times_of(k) == s0.times_of(k) || self.times_of(k)
                            == pruned_of(s0.times_of(k), now_ms) by {
                        lemma_key_index_of(s0.spec_tracked_keys(), k);
                    }
                }
                result
            },
        }
    }

    /// One admission step at `now_ms`, mode-dependent.
    ///
    /// `Ignore` draws the pool's next key immediately. `ThrowOnLimit`
    /// grants the first available key or denies — it never asks to wait.
    /// `AutoDelay` grants the first available key, or asks the caller to
    /// wait the minimum time until a window frees a slot and retry.
    pub fn acquire(&mut self, pool: &mut KeyPool, now_ms: u64) -> (r: AcquireOutcome)
        requires
            old(self).wf(),
            old(pool).wf(),
        ensures
            final(self).wf(),
            final(pool).wf(),
            final(self).spec_mode() == old(self).spec_mode(),
            old(self).same_admission(*final(self), now_ms),
            old(self).evolves_by_pruning(*final(self), now_ms),
            old(self).scan_evolution(*final(self), now_ms),
            old(self).spec_mode() is Ignore ==> {
                &&& *final(self) == *old(self)
                &&& final(pool).spec_keys() == old(pool).spec_keys()
                &&& final(pool).spec_balancing() == old(pool).spec_balancing()
                &&& final(pool).spec_index() == old(pool).spec_index().wrapping_add(1)
                &&& (r matches AcquireOutcome::Granted(k) && k@ == old(pool).selected_key(
                    old(pool).spec_index(),
                ))
            },
            !(old(self).spec_mode() is Ignore) ==> *final(pool) == *old(pool),
            old(self).spec_mode() is ThrowOnLimit ==> match r {
                AcquireOutcome::Granted(k) => old(self).find_spec(old(pool).spec_keys(), now_ms)
                    == Some(k@),
                AcquireOutcome::Denied => old(self).find_spec(old(pool).spec_keys(), now_ms)
                    is None,
                AcquireOutcome::Wait(_) => false,
            },
            old(self).spec_mode() is AutoDelay ==> match r {
                AcquireOutcome::Granted(k) => old(self).find_spec(old(pool).spec_keys(), now_ms)
                    == Some(k@),
                AcquireOutcome::Denied => false,
                AcquireOutcome::Wait(d) => old(self).find_spec(old(pool).spec_keys(), now_ms)
                    is None && d == final(self).min_wait_spec(now_ms),
            },
    {
        match self.mode {
            RateLimitMode::Ignore => {
                proof {
                    old(self).lemma_scan_evolution_refl(now_ms);
                }
                AcquireOutcome::Granted(pool.next_key())
            },
            RateLimitMode::ThrowOnLimit => match self.find_available_key(pool, now_ms) {
                Some(k) => AcquireOutcome::Granted(k),
                None => AcquireOutcome::Denied,
            },
            RateLimitMode::AutoDelay => match self.find_available_key(pool, now_ms) {
                Some(k) => AcquireOutcome::Granted(k),
                None => {
                    let wait = self.min_wait_time(now_ms);
                    AcquireOutcome::Wait(wait)
                },
            },
        }
    }

    /// Under `Ignore`, every key and the aggregate budget are available,
    /// whatever volume was recorded.
    pub proof fn lemma_ignore_admits_all(self, k: Seq<char>, now: u64)
        requires
            self.spec_mode() is Ignore,
        ensures
            self.key_available(k, now),
            self.ip_available(now),
    {
    }

    /// Saturation of one credential's window, and its reset.
    ///
    /// Outside `Ignore`, a credential whose window holds exactly 100
    /// timestamps, all within the 60-second horizon of `now_full`, is
    /// unavailable at `now_full`; at any instant where every one of those
    /// timestamps has aged out, it is available again.
    pub proof fn lemma_window_saturation(self, k: Seq<char>, now_full: u64, now_later: u64)
        requires
            !(self.spec_mode() is Ignore),
            self.times_of(k).len() == 100,
            forall|i: int| 0 <= i < 100 ==> in_window(#[trigger] self.times_of(k)[i], now_full),
            forall|i: int| 0 <= i < 100 ==> !in_window(#[trigger] self.times_of(k)[i], now_later),
        ensures
            !self.key_available(k, now_full),
            self.key_available(k, now_later),
    {
        lemma_filter_all(self.times_of(k), |ts: u64| in_window(ts, now_full));
        lemma_filter_none(self.times_of(k), |ts: u64| in_window(ts, now_later));
    }

    /// The wait computed for a single exhausted credential is long enough.
    ///
    /// With one tracked credential whose window holds exactly 100
    /// timestamps — its oldest no later than `now` — and the aggregate
    /// budget not exhausted, the computed wait reaches past the instant the
    /// oldest timestamp ages out of the 60-second horizon; at any instant
    /// at or after that wait the credential is available again.
    pub proof fn lemma_wait_restores_single_key(self, k: Seq<char>, now: u64, later: u64)
        requires
            !(self.spec_mode() is Ignore),
            self.spec_tracked_keys().len() >= 1,
            self.spec_tracked_keys().len() == self.spec_windows().len(),
            self.spec_tracked_keys()[0] == k,
            self.spec_windows()[0].len() == 100,
            forall|j: int|
                1 <= j < self.spec_windows().len() ==> #[trigger] self.spec_windows()[j].len()
                    == 0,
            self.spec_windows()[0][0] <= now,
            self.spec_ip().len() < 1000,
            later >= now + self.min_wait_spec(now),
        ensures
            now + self.min_wait_spec(now) > self.spec_windows()[0][0] + 60000,
            self.key_available(k, later),
    {
        assert(key_index_of(self.spec_tracked_keys(), k) == 0);
        let w = self.spec_windows()[0];
        assert(w == self.times_of(k));
        let oldest = w[0];
        assert(!self.some_key_has_capacity(now));
        let wait = Self::wait_until_free(oldest, now);
        assert(self.min_key_wait_upto(now, 0) == 61000);
        assert(wait <= 60100);
        assert(self.min_key_wait_upto(now, 1) == wait);
        self.lemma_min_key_wait_skips_empty(now, self.spec_windows().len() as int);
        assert(self.min_wait_spec(now) == wait);
        assert(now + wait > oldest + 60000);
        assert(!in_window(oldest, later));
        lemma_filter_drops(self.times_of(k), |ts: u64| in_window(ts, later), 0);
    }

    /// Windows that hold nothing contribute nothing to the minimum wait.
    proof fn lemma_min_key_wait_skips_empty(self, now: u64, i: int)
        requires
            1 <= i <= self.spec_windows().len(),
            forall|j: int|
                1 <= j < i ==> #[trigger] self.spec_windows()[j].len() == 0,
        ensures
            self.min_key_wait_upto(now, i) == self.min_key_wait_upto(now, 1),
        decreases i,
    {
        if i > 1 {
            self.lemma_min_key_wait_skips_empty(now, i - 1);
        }
    }

    /// Adequacy of the advised wait, for a single exhausted credential.
    ///
    /// Starting from a limiter that tracks exactly one credential whose
    /// window holds 100 requests all within the horizon of `now` — with
    /// the aggregate budget open — any probing scan at `now` (the relation
    /// `acquire` ensures between its pre- and post-state) leaves a state
    /// whose advised wait reaches past the instant the oldest timestamp
    /// ages out; and at any instant at or after that wait the credential
    /// is admissible again, in the post-state as in the original one.
    pub proof fn lemma_auto_delay_wait_suffices(
        self,
        after: RateLimiter,
        k: Seq<char>,
        now: u64,
        d: u64,
        later: u64,
    )
        requires
            !(self.spec_mode() is Ignore),
            self.spec_tracked_keys() == seq![k],
            self.times_of(k).len() == 100,
            forall|i: int| 0 <= i < 100 ==> in_window(#[trigger] self.times_of(k)[i], now),
            self.times_of(k)[0] <= now,
            self.spec_ip().len() < 1000,
            self.scan_evolution(after, now),
            d == after.min_wait_spec(now),
            later >= now + d,
        ensures
            now + d > self.times_of(k)[0] + 60000,
            after.key_available(k, later),
            self.key_available(k, later),
    {
        broadcast use vstd::seq_lib::group_filter_ensures;

        assert(self.spec_tracked_keys()[0] == k);
        assert(key_index_of(self.spec_tracked_keys(), k) == 0);
        assert(self.spec_windows().len() == 1) by {
            assert(self.spec_windows().len() == self.spec_tracked_keys().len());
        }
        assert(self.spec_windows()[0] == self.times_of(k));
        assert(after.spec_tracked_keys().len() >= 1);
        assert(after.spec_tracked_keys()[0] == k) by {
            assert(after.spec_tracked_keys().take(1) == self.spec_tracked_keys());
            assert(after.spec_tracked_keys().take(1)[0] == after.spec_tracked_keys()[0]);
        }
        assert(after.spec_windows()[0] == self.spec_windows()[0]) by {
            lemma_pruned_all_in_window(self.spec_windows()[0], now);
        }
        assert(forall|j: int|
            1 <= j < after.spec_windows().len() ==> #[trigger] after.spec_windows()[j].len()
                == 0);
        assert(after.spec_ip().len() < 1000);
        assert(key_index_of(after.spec_tracked_keys(), k) == 0);
        after.lemma_wait_restores_single_key(k, now, later);
        assert(after.times_of(k) == self.times_of(k));
    }
}

} // verus!
