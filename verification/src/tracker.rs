//! Per-address rate limiting of authentication failures: after
//! `RATE_MAX_FAILURES` failures within `RATE_WINDOW_NANOS` an address is
//! turned away until its window has passed.
use vstd::prelude::*;
use std::collections::HashMap;
use std::hash::Hash;
use vstd::std_specs::hash::{obeys_key_model, spec_hash_map_iter};
use vstd::std_specs::iter::IteratorSpec;

verus! {

broadcast use vstd::std_specs::hash::group_hash_axioms;

/// The length of a rate-limiting window: 60 seconds, in nanoseconds.
pub const RATE_WINDOW_NANOS: u64 = 60_000_000_000;

/// The failures within one window at which an address is limited.
pub const RATE_MAX_FAILURES: u32 = 10;

/// Above this many tracked addresses, those whose window has passed are
/// dropped.
pub const MAX_TRACKED: usize = 10_000;

/// A client address.
#[derive(Clone, Copy, PartialEq, Eq, Structural, Debug)]
pub enum IpKey {
    V4(u32),
    V6(u128),
}

/// The nanoseconds from `start` to `now` on a monotonic clock, zero where
/// `now` is earlier (as `Instant::elapsed` saturates).
pub open spec fn elapsed(start: u64, now: u64) -> nat {
    if now >= start {
        (now - start) as nat
    } else {
        0
    }
}

/// Whether a window opened at `start` is still open at `now`.
pub open spec fn in_window(start: u64, now: u64) -> bool {
    elapsed(start, now) < RATE_WINDOW_NANOS
}

/// Whether `ip` is turned away at `now`, the tracker holding `m`: its window
/// is open and holds at least `RATE_MAX_FAILURES` failures.
pub open spec fn limited(m: Map<IpKey, (u32, u64)>, ip: IpKey, now: u64) -> bool {
    &&& m.contains_key(ip)
    &&& in_window(m[ip].1, now)
    &&& m[ip].0 >= RATE_MAX_FAILURES
}

/// The failure count and window start of `ip` once a failure at `now` is
/// counted: a new or expired window starts at `now` with this failure alone.
pub open spec fn counted(m: Map<IpKey, (u32, u64)>, ip: IpKey, now: u64) -> (u32, u64) {
    if m.contains_key(ip) && in_window(m[ip].1, now) {
        ((m[ip].0 + 1) as u32, m[ip].1)
    } else {
        (1, now)
    }
}

/// The entries of `m` whose window is still open at `now`.
pub open spec fn open_windows(m: Map<IpKey, (u32, u64)>, now: u64) -> Map<IpKey, (u32, u64)> {
    Map::new(|k: IpKey| m.contains_key(k) && in_window(m[k].1, now), |k: IpKey| m[k])
}

/// The tracker after a failure of `ip` at `now`: the failure is counted, and
/// if more than `MAX_TRACKED` addresses are then tracked, those whose window
/// has passed are dropped.
pub open spec fn after_failure(m: Map<IpKey, (u32, u64)>, ip: IpKey, now: u64) -> Map<
    IpKey,
    (u32, u64),
> {
    let m2 = m.insert(ip, counted(m, ip, now));
    if m2.len() > MAX_TRACKED {
        open_windows(m2, now)
    } else {
        m2
    }
}

/// Whether counting one more failure of `ip` at `now` fits in a `u32`.
pub open spec fn can_count(m: Map<IpKey, (u32, u64)>, ip: IpKey, now: u64) -> bool {
    !(m.contains_key(ip) && in_window(m[ip].1, now) && m[ip].0 == u32::MAX)
}

/// The entries of one address table whose window is still open at `now`.
pub open spec fn open_part<K>(m: Map<K, (u32, u64)>, now: u64) -> Map<K, (u32, u64)> {
    Map::new(|k: K| m.contains_key(k) && in_window(m[k].1, now), |k: K| m[k])
}

/// The IPv4 and the IPv6 table as one map over addresses.
pub open spec fn joined(v4: Map<u32, (u32, u64)>, v6: Map<u128, (u32, u64)>) -> Map<
    IpKey,
    (u32, u64),
> {
    Map::new(
        |k: IpKey|
            match k {
                IpKey::V4(a) => v4.contains_key(a),
                IpKey::V6(b) => v6.contains_key(b),
            },
        |k: IpKey|
            match k {
                IpKey::V4(a) => v4[a],
                IpKey::V6(b) => v6[b],
            },
    )
}

proof fn lemma_joined_len(v4: Map<u32, (u32, u64)>, v6: Map<u128, (u32, u64)>)
    requires
        v4.dom().finite(),
        v6.dom().finite(),
    ensures
        joined(v4, v6).dom().finite(),
        joined(v4, v6).len() == v4.len() + v6.len(),
{
    let f4 = |a: u32| IpKey::V4(a);
    let f6 = |b: u128| IpKey::V6(b);
    let d4 = v4.dom().map(f4);
    let d6 = v6.dom().map(f6);
    vstd::set_lib::lemma_map_size(v4.dom(), d4, f4);
    vstd::set_lib::lemma_map_size(v6.dom(), d6, f6);
    assert forall|k: IpKey| #[trigger] joined(v4, v6).dom().contains(k) == (d4 + d6).contains(k) by {
        match k {
            IpKey::V4(a) => {
                if v4.contains_key(a) {
                    assert(f4(a) == k);
                }
            },
            IpKey::V6(b) => {
                if v6.contains_key(b) {
                    assert(f6(b) == k);
                }
            },
        }
    }
    assert(joined(v4, v6).dom() =~= d4 + d6);
    assert(d4.disjoint(d6));
    vstd::set_lib::lemma_set_disjoint_lens(d4, d6);
}

/// The failure table entries of `m`, its window open at `now`, kept in a new
/// table.
fn keep_open<K: Copy + Eq + Hash>(m: &HashMap<K, (u32, u64)>, now: u64) -> (r: HashMap<
    K,
    (u32, u64),
>)
    requires
        obeys_key_model::<K>(),
    ensures
        r@ == open_part(m@, now),
{
    let mut kept: HashMap<K, (u32, u64)> = HashMap::new();
    for (k, v) in it: m.iter()
        invariant
            obeys_key_model::<K>(),
            it.seq() == spec_hash_map_iter(m).remaining(),
            forall|a: K| #[trigger]
                kept@.contains_key(a) ==> m@.contains_key(a) && kept@[a] == m@[a] && in_window(
                    m@[a].1,
                    now,
                ),
            forall|j: int|
                0 <= j < it.index() && in_window((*it.seq()[j].1).1, now)
                    ==> #[trigger] kept@.contains_key(*it.seq()[j].0),
    {
        let start = v.1;
        let age = if now >= start {
            now - start
        } else {
            0
        };
        if age < RATE_WINDOW_NANOS {
            kept.insert(*k, *v);
        }
    }
    proof {
        let pairs = spec_hash_map_iter(m).remaining();
        assert forall|k: K| #[trigger] open_part(m@, now).contains_key(k) implies kept@.contains_key(
            k,
        ) by {
            assert(pairs.contains((&k, &m@[k])));
            let j = choose|j: int| 0 <= j < pairs.len() && pairs[j] == (&k, &m@[k]);
            assert(*pairs[j].0 == k);
        }
    }
    assert(kept@ =~= open_part(m@, now));
    kept
}

/// Failure counts of the addresses that failed to authenticate, one table
/// for IPv4 and one for IPv6 addresses.
pub struct FailureTracker {
    v4: HashMap<u32, (u32, u64)>,
    v6: HashMap<u128, (u32, u64)>,
}

impl View for FailureTracker {
    type V = Map<IpKey, (u32, u64)>;

    closed spec fn view(&self) -> Map<IpKey, (u32, u64)> {
        joined(self.v4@, self.v6@)
    }
}

impl FailureTracker {
    pub fn new() -> (r: FailureTracker)
        ensures
            r@ == Map::<IpKey, (u32, u64)>::empty(),
    {
        let r = FailureTracker { v4: HashMap::new(), v6: HashMap::new() };
        assert(r@ =~= Map::<IpKey, (u32, u64)>::empty());
        r
    }

    /// The number of addresses tracked (`usize::MAX` where there are more).
    pub fn len(&self) -> (r: usize)
        ensures
            r == (if self@.len() <= usize::MAX {
                self@.len()
            } else {
                usize::MAX as nat
            }),
    {
        proof {
            lemma_joined_len(self.v4@, self.v6@);
        }
        self.v4.len().saturating_add(self.v6.len())
    }

    /// Whether more than `MAX_TRACKED` addresses are tracked.
    fn over_limit(&self) -> (r: bool)
        ensures
            r == (self@.len() > MAX_TRACKED),
    {
        proof {
            lemma_joined_len(self.v4@, self.v6@);
        }
        let n4 = self.v4.len();
        let n6 = self.v6.len();
        n6 > MAX_TRACKED || n4 > MAX_TRACKED - n6
    }

    /// The failure count and window start of `ip`, if it is tracked.
    pub fn failures(&self, ip: IpKey) -> (r: Option<(u32, u64)>)
        ensures
            r == (if self@.contains_key(ip) {
                Some(self@[ip])
            } else {
                None
            }),
    {
        match ip {
            IpKey::V4(a) => match self.v4.get(&a) {
                Some(e) => Some(*e),
                None => None,
            },
            IpKey::V6(b) => match self.v6.get(&b) {
                Some(e) => Some(*e),
                None => None,
            },
        }
    }

    /// Whether `ip` is turned away at `now` (nanoseconds on a monotonic clock).
    pub fn is_rate_limited(&self, ip: IpKey, now: u64) -> (r: bool)
        ensures
            r == limited(self@, ip, now),
    {
        match self.failures(ip) {
            Some((count, start)) => {
                let age = if now >= start {
                    now - start
                } else {
                    0
                };
                age < RATE_WINDOW_NANOS && count >= RATE_MAX_FAILURES
            },
            None => false,
        }
    }

    /// Whether one more failure of `ip` at `now` can be counted.
    pub fn can_record(&self, ip: IpKey, now: u64) -> (r: bool)
        ensures
            r == can_count(self@, ip, now),
    {
        match self.failures(ip) {
            Some((count, start)) => {
                let age = if now >= start {
                    now - start
                } else {
                    0
                };
                !(age < RATE_WINDOW_NANOS && count == u32::MAX)
            },
            None => true,
        }
    }

    /// Counts a failure of `ip` at `now`.
    pub fn record_failure(&mut self, ip: IpKey, now: u64)
        requires
            can_count(old(self)@, ip, now),
        ensures
            final(self)@ == after_failure(old(self)@, ip, now),
    {
        let ghost m = self@;
        let e = match self.failures(ip) {
            Some((count, start)) => {
                let age = if now >= start {
                    now - start
                } else {
                    0
                };
                if age < RATE_WINDOW_NANOS {
                    (count + 1, start)
                } else {
                    (1, now)
                }
            },
            None => (1, now),
        };
        match ip {
            IpKey::V4(a) => {
                self.v4.insert(a, e);
            },
            IpKey::V6(b) => {
                self.v6.insert(b, e);
            },
        }
        assert(self@ =~= m.insert(ip, counted(m, ip, now)));
        if self.over_limit() {
            let ghost m2 = self@;
            self.v4 = keep_open(&self.v4, now);
            self.v6 = keep_open(&self.v6, now);
            assert(self@ =~= open_windows(m2, now));
        }
    }
}

} // verus!
