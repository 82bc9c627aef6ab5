//! The table of UDP sessions.
use vstd::prelude::*;

use crate::assoc::{
    assoc_map, distinct_keys, keyed_at, lemma_assoc_absent, lemma_assoc_at, lemma_assoc_push,
    lemma_assoc_update, lemma_push_contains,
};
use crate::net::SocketAddr;

verus! {

/// Whether a session that was last seen at `last_seen` is to be kept: less than `timeout` has
/// passed since then.
pub open spec fn session_live(last_seen: u128, timeout: u128, now: u128) -> bool {
    now - last_seen < timeout && timeout > 0
}

/// The sessions that are kept, with the times at which they were last seen.
pub open spec fn live_sessions(
    m: Map<(SocketAddr, SocketAddr), u128>,
    timeout: u128,
    now: u128,
) -> Map<(SocketAddr, SocketAddr), u128> {
    Map::new(
        |k: (SocketAddr, SocketAddr)| m.contains_key(k) && session_live(m[k], timeout, now),
        |k: (SocketAddr, SocketAddr)| m[k],
    )
}

/// Whether a session is among the first `n`.
spec fn among(
    all: Seq<((SocketAddr, SocketAddr), u128)>,
    n: int,
    e: ((SocketAddr, SocketAddr), u128),
) -> bool {
    exists|k: int| 0 <= k < n && #[trigger] all[k] == e
}

/// Whether a session among the first `n` is over.
spec fn over(
    all: Seq<((SocketAddr, SocketAddr), u128)>,
    n: int,
    key: (SocketAddr, SocketAddr),
    timeout: u128,
    now: u128,
) -> bool {
    exists|k: int|
        0 <= k < n && (#[trigger] all[k]).0 == key && !session_live(all[k].1, timeout, now)
}

proof fn lemma_among(
    all: Seq<((SocketAddr, SocketAddr), u128)>,
    n: int,
    e: ((SocketAddr, SocketAddr), u128),
)
    requires
        0 <= n < all.len(),
    ensures
        among(all, n + 1, e) == (among(all, n, e) || all[n] == e),
{
    if among(all, n, e) {
        let k = choose|k: int| 0 <= k < n && #[trigger] all[k] == e;
        assert(0 <= k < n + 1 && all[k] == e);
    }
}

proof fn lemma_over(
    all: Seq<((SocketAddr, SocketAddr), u128)>,
    n: int,
    key: (SocketAddr, SocketAddr),
    timeout: u128,
    now: u128,
)
    requires
        0 <= n < all.len(),
    ensures
        over(all, n + 1, key, timeout, now) == (over(all, n, key, timeout, now) || (all[n].0 == key
            && !session_live(all[n].1, timeout, now))),
{
    if over(all, n, key, timeout, now) {
        let k = choose|k: int|
            0 <= k < n && (#[trigger] all[k]).0 == key && !session_live(all[k].1, timeout, now);
        assert(0 <= k < n + 1 && all[k].0 == key);
    }
}

/// A session is kept, with the time at which it was last seen, exactly if less than the timeout has
/// passed since; a sweep adds none.
pub proof fn law_sessions_last_for_the_timeout(
    m: Map<(SocketAddr, SocketAddr), u128>,
    timeout: u128,
    now: u128,
    k: (SocketAddr, SocketAddr),
)
    ensures
        ({
            let after = live_sessions(m, timeout, now);
            &&& after.contains_key(k) <==> {
                &&& m.contains_key(k)
                &&& timeout > 0
                &&& now < m[k] + timeout
            }
            &&& after.contains_key(k) ==> after[k] == m[k]
        }),
{
}

/// The sessions, by source and destination, with the times at which they were last seen in
/// nanoseconds.
pub struct UdpSessions {
    entries: Vec<((SocketAddr, SocketAddr), u128)>,
}

impl View for UdpSessions {
    type V = Map<(SocketAddr, SocketAddr), u128>;

    closed spec fn view(&self) -> Map<(SocketAddr, SocketAddr), u128> {
        assoc_map(self.entries@)
    }
}

impl UdpSessions {
    #[verifier::type_invariant]
    spec fn distinct(self) -> bool {
        distinct_keys(self.entries@)
    }

    /// A table without sessions.
    pub fn new() -> (r: UdpSessions)
        ensures
            r@ == Map::<(SocketAddr, SocketAddr), u128>::empty(),
    {
        let entries: Vec<((SocketAddr, SocketAddr), u128)> = Vec::new();
        assert(assoc_map(entries@) =~= Map::<(SocketAddr, SocketAddr), u128>::empty());
        UdpSessions { entries }
    }

    /// Whether there is a session from `src` to `dst`.
    pub fn contains(&self, src: SocketAddr, dst: SocketAddr) -> (r: bool)
        ensures
            r == self@.contains_key((src, dst)),
    {
        proof {
            use_type_invariant(self);
        }
        let i = self.find(src, dst);
        proof {
            if i < self.entries@.len() {
                lemma_assoc_at(self.entries@, i as int);
            } else {
                lemma_assoc_absent(self.entries@, (src, dst));
            }
        }
        i < self.entries.len()
    }

    /// Where a session stands, or the number of sessions.
    fn find(&self, src: SocketAddr, dst: SocketAddr) -> (r: usize)
        ensures
            r <= self.entries@.len(),
            r < self.entries@.len() ==> self.entries@[r as int].0 == (src, dst),
            r == self.entries@.len() ==> forall|i: int|
                0 <= i < self.entries@.len() ==> (#[trigger] self.entries@[i]).0 != (src, dst),
    {
        let mut i: usize = 0;
        while i < self.entries.len()
            invariant
                i <= self.entries@.len(),
                forall|k: int| 0 <= k < i ==> (#[trigger] self.entries@[k]).0 != (src, dst),
            decreases self.entries@.len() - i,
        {
            let key = self.entries[i].0;
            if key.0 == src && key.1 == dst {
                return i;
            }
            i += 1;
        }
        i
    }

    /// Notes a datagram from `src` to `dst`, and tells whether it opens a session.
    pub fn touch(&mut self, src: SocketAddr, dst: SocketAddr, now: u128) -> (opened: bool)
        ensures
            final(self)@ == old(self)@.insert((src, dst), now),
            opened == !old(self)@.contains_key((src, dst)),
    {
        proof {
            use_type_invariant(&*self);
        }
        let i = self.find(src, dst);
        let mut entries: Vec<((SocketAddr, SocketAddr), u128)> = Vec::new();
        std::mem::swap(&mut entries, &mut self.entries);
        let opened = i >= entries.len();
        if opened {
            proof {
                lemma_assoc_absent(entries@, (src, dst));
                lemma_assoc_push(entries@, (src, dst), now);
            }
            entries.push(((src, dst), now));
        } else {
            proof {
                lemma_assoc_at(entries@, i as int);
                lemma_assoc_update(entries@, i as int, now);
            }
            entries.set(i, ((src, dst), now));
        }
        self.entries = entries;
        opened
    }

    /// Drops the sessions that were not seen for `timeout`, and lists them.
    pub fn retain(&mut self, timeout: u128, now: u128) -> (dropped: Vec<(SocketAddr, SocketAddr)>)
        ensures
            final(self)@ == live_sessions(old(self)@, timeout, now),
            forall|k: (SocketAddr, SocketAddr)| #[trigger]
                dropped@.contains(k) <==> old(self)@.contains_key(k)
                    && !final(self)@.contains_key(k),
    {
        proof {
            use_type_invariant(&*self);
        }
        let ghost all = self.entries@;
        let mut kept: Vec<((SocketAddr, SocketAddr), u128)> = Vec::new();
        let mut dropped: Vec<(SocketAddr, SocketAddr)> = Vec::new();
        let mut i: usize = 0;
        while i < self.entries.len()
            invariant
                self.entries@ == all,
                distinct_keys(all),
                i <= all.len(),
                distinct_keys(kept@),
                forall|e: ((SocketAddr, SocketAddr), u128)| #[trigger]
                    kept@.contains(e) <==> among(all, i as int, e) && session_live(
                        e.1,
                        timeout,
                        now,
                    ),
                forall|k: (SocketAddr, SocketAddr)| #[trigger]
                    dropped@.contains(k) <==> over(all, i as int, k, timeout, now),
            decreases all.len() - i,
        {
            let e = self.entries[i];
            let ghost kept_before = kept@;
            let ghost dropped_before = dropped@;
            let elapsed: u128 = if now > e.1 {
                now - e.1
            } else {
                0
            };
            if elapsed < timeout {
                kept.push(e);
            } else {
                dropped.push(e.0);
            }
            proof {
                assert forall|x: ((SocketAddr, SocketAddr), u128)| #[trigger]
                    kept@.contains(x) <==> among(all, i + 1, x) && session_live(
                        x.1,
                        timeout,
                        now,
                    ) by {
                    lemma_push_contains(kept_before, e, x);
                    lemma_among(all, i as int, x);
                }
                assert forall|k: (SocketAddr, SocketAddr)| #[trigger]
                    dropped@.contains(k) <==> over(all, i + 1, k, timeout, now) by {
                    lemma_push_contains(dropped_before, e.0, k);
                    lemma_over(all, i as int, k, timeout, now);
                }
                assert forall|a: int|
                    0 <= a < kept_before.len() implies (#[trigger] kept_before[a]).0 != e.0 by {
                    assert(kept_before.contains(kept_before[a]));
                    let k = choose|k: int| 0 <= k < i && #[trigger] all[k] == kept_before[a];
                    assert(all[k].0 != all[i as int].0);
                }
            }
            i += 1;
        }
        self.entries = kept;
        proof {
            let m = assoc_map(all);
            let live = live_sessions(m, timeout, now);
            assert forall|k: (SocketAddr, SocketAddr)| assoc_map(kept@).contains_key(k)
                == live.contains_key(k) by {
                if live.contains_key(k) {
                    let a = choose|a: int| keyed_at(all, a, k);
                    lemma_assoc_at(all, a);
                    assert(among(all, i as int, all[a]));
                    assert(kept@.contains(all[a]));
                    let j = choose|j: int| 0 <= j < kept@.len() && kept@[j] == all[a];
                    lemma_assoc_at(kept@, j);
                }
                if assoc_map(kept@).contains_key(k) {
                    let j = choose|j: int| keyed_at(kept@, j, k);
                    assert(kept@.contains(kept@[j]));
                    let a = choose|a: int| 0 <= a < i && #[trigger] all[a] == kept@[j];
                    lemma_assoc_at(all, a);
                }
            }
            assert forall|k: (SocketAddr, SocketAddr)| live.contains_key(k) implies assoc_map(
                kept@,
            )[k] == live[k] by {
                assert(assoc_map(kept@).contains_key(k));
                let j = choose|j: int| keyed_at(kept@, j, k);
                lemma_assoc_at(kept@, j);
                assert(kept@.contains(kept@[j]));
                let a = choose|a: int| 0 <= a < i && #[trigger] all[a] == kept@[j];
                lemma_assoc_at(all, a);
            }
            assert(assoc_map(kept@) =~= live);
            assert forall|k: (SocketAddr, SocketAddr)| #[trigger]
                dropped@.contains(k) <==> m.contains_key(k) && !live.contains_key(k) by {
                if m.contains_key(k) && !live.contains_key(k) {
                    let a = choose|a: int| keyed_at(all, a, k);
                    lemma_assoc_at(all, a);
                    assert(all[a].0 == k);
                    assert(over(all, i as int, k, timeout, now));
                }
                if over(all, i as int, k, timeout, now) {
                    let a = choose|a: int|
                        0 <= a < i && (#[trigger] all[a]).0 == k && !session_live(
                            all[a].1,
                            timeout,
                            now,
                        );
                    lemma_assoc_at(all, a);
                }
            }
        }
        dropped
    }
}

/// A datagram opens a session exactly if there was none between its two ends, and marks it as used
/// and no other.
pub proof fn law_datagrams_open_sessions(
    s: &mut UdpSessions,
    src: SocketAddr,
    dst: SocketAddr,
    now: u128,
    opened: bool,
    k: (SocketAddr, SocketAddr),
    known: bool,
)
    requires
        call_ensures(UdpSessions::touch, (s, src, dst, now), opened),
        call_ensures(UdpSessions::contains, (final(s), k.0, k.1), known),
    ensures
        opened <==> !old(s)@.contains_key((src, dst)),
        known <==> k == (src, dst) || old(s)@.contains_key(k),
        final(s)@[(src, dst)] == now,
        k != (src, dst) ==> final(s)@[k] == old(s)@[k],
{
    assert((k.0, k.1) == k);
}

/// A sweep drops and lists exactly the sessions that were not used for the timeout.
pub proof fn law_sweeps_list_the_idle(
    s: &mut UdpSessions,
    timeout: u128,
    now: u128,
    dropped: Vec<(SocketAddr, SocketAddr)>,
    k: (SocketAddr, SocketAddr),
)
    requires
        call_ensures(UdpSessions::retain, (s, timeout, now), dropped),
    ensures
        final(s)@.contains_key(k) <==> old(s)@.contains_key(k) && timeout > 0 && now < old(s)@[k]
            + timeout,
        final(s)@.contains_key(k) ==> final(s)@[k] == old(s)@[k],
        dropped@.contains(k) <==> old(s)@.contains_key(k) && !final(s)@.contains_key(k),
{
}

} // verus!
