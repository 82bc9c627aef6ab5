//! The table that maps TCP connections to ports of the NAT.
use std::collections::HashMap;

use vstd::prelude::*;

use crate::assoc::{
    assoc_map, distinct_keys, lemma_assoc_absent, lemma_assoc_at, lemma_assoc_push,
    lemma_assoc_remove, lemma_push_contains,
};
use crate::net::SocketAddr;

verus! {

/// The first port that the NAT hands out.
pub const NAT_PORT_START: u16 = 10000;

/// The last port that the NAT hands out.
pub const NAT_PORT_END: u16 = 60000;

/// How many ports the NAT can hand out.
pub const NAT_PORT_COUNT: u32 = 50001;

/// A connection.
#[derive(Debug, Clone, Copy, PartialEq, Eq, Structural)]
pub struct TcpNatEntry {
    pub source: SocketAddr,
    pub destination: SocketAddr,
    /// When the connection was last used, in nanoseconds.
    pub last_active: u128,
}

/// The table as a mathematical object.
#[verifier::ext_equal]
pub struct NatModel {
    /// The port to try next.
    pub port_index: u16,
    /// The port of each source.
    pub addr_map: Map<SocketAddr, u16>,
    /// The connection on each port.
    pub port_map: Map<u16, TcpNatEntry>,
}

/// Whether the NAT may hand out a port.
pub open spec fn nat_port(p: u16) -> bool {
    NAT_PORT_START <= p <= NAT_PORT_END
}

/// The port `k` places after `p`; the last is followed by the first.
pub open spec fn port_after(p: u16, k: int) -> u16 {
    (NAT_PORT_START + (p - NAT_PORT_START + k) % (NAT_PORT_COUNT as int)) as u16
}

/// Whether an entry has not been used for longer than `timeout`. With a timeout of zero every
/// entry is too old.
pub open spec fn expired(e: TcpNatEntry, timeout: u128, now: u128) -> bool {
    timeout == 0 || now - e.last_active > timeout
}

impl NatModel {
    /// Every port in the table is one that the NAT may hand out, and the two maps are inverse to
    /// each other.
    pub open spec fn well_formed(self) -> bool {
        &&& self.ports_fit()
        &&& self.consistent()
    }

    /// Every port in the table is one that the NAT may hand out.
    pub open spec fn ports_fit(self) -> bool {
        &&& nat_port(self.port_index)
        &&& forall|s: SocketAddr|
            self.addr_map.contains_key(s) ==> nat_port(#[trigger] self.addr_map[s])
        &&& forall|p: u16| self.port_map.contains_key(p) ==> #[trigger] nat_port(p)
    }

    /// The two maps are inverse to each other.
    pub open spec fn consistent(self) -> bool {
        &&& forall|s: SocketAddr| #[trigger]
            self.addr_map.contains_key(s) ==> {
                &&& self.port_map.contains_key(self.addr_map[s])
                &&& self.port_map[self.addr_map[s]].source == s
            }
        &&& forall|p: u16| #[trigger]
            self.port_map.contains_key(p) ==> {
                &&& self.addr_map.contains_key(self.port_map[p].source)
                &&& self.addr_map[self.port_map[p].source] == p
            }
    }

    /// How many places after the next port the first free one is, looking from the `k`th place
    /// on; the number of ports where none is free.
    pub open spec fn first_free(self, k: int) -> int
        decreases NAT_PORT_COUNT - k,
    {
        if k >= NAT_PORT_COUNT {
            NAT_PORT_COUNT as int
        } else if !self.port_map.contains_key(port_after(self.port_index, k)) {
            k
        } else {
            self.first_free(k + 1)
        }
    }

    /// Whether no port is free.
    pub open spec fn exhausted(self) -> bool {
        forall|p: u16| nat_port(p) ==> #[trigger] self.port_map.contains_key(p)
    }

    /// Of the first `n` ports from the next one on, the one whose connection was used the longest
    /// ago; of several such the first.
    pub open spec fn oldest(self, n: int) -> u16
        decreases n,
    {
        if n <= 1 {
            self.port_index
        } else {
            let best = self.oldest(n - 1);
            let p = port_after(self.port_index, n - 1);
            if self.port_map[p].last_active < self.port_map[best].last_active {
                p
            } else {
                best
            }
        }
    }

    /// The port for a new source: the first free one, or, where none is free, that of the
    /// connection that was used the longest ago.
    pub open spec fn chosen_port(self) -> u16 {
        if self.exhausted() {
            self.oldest(NAT_PORT_COUNT as int)
        } else {
            port_after(self.port_index, self.first_free(0))
        }
    }

    /// The port that a source gets.
    pub open spec fn port_for(self, src: SocketAddr) -> u16 {
        if self.addr_map.contains_key(src) {
            self.addr_map[src]
        } else {
            self.chosen_port()
        }
    }

    /// The table after the connection on a port was used.
    pub open spec fn touched(self, port: u16, now: u128) -> NatModel {
        if self.port_map.contains_key(port) {
            let e = self.port_map[port];
            NatModel {
                port_map: self.port_map.insert(port, TcpNatEntry { last_active: now, ..e }),
                ..self
            }
        } else {
            self
        }
    }

    /// The table after a packet from `src` to `dst`. Where a port is reused, its connection ends,
    /// and the source of that connection has no port any more.
    pub open spec fn looked_up(self, src: SocketAddr, dst: SocketAddr, now: u128) -> NatModel {
        if self.addr_map.contains_key(src) {
            self.touched(self.addr_map[src], now)
        } else {
            let port = self.chosen_port();
            NatModel {
                port_index: if self.exhausted() {
                    self.port_index
                } else {
                    port_after(port, 1)
                },
                addr_map: if self.exhausted() {
                    self.addr_map.remove(self.port_map[port].source).insert(src, port)
                } else {
                    self.addr_map.insert(src, port)
                },
                port_map: self.port_map.insert(
                    port,
                    TcpNatEntry { source: src, destination: dst, last_active: now },
                ),
            }
        }
    }

    /// Whether the connection on a port is to be swept.
    pub open spec fn stale(self, p: u16, timeout: u128, now: u128) -> bool {
        self.port_map.contains_key(p) && expired(self.port_map[p], timeout, now)
    }

    /// Whether a source is that of the connection on one of several ports.
    spec fn dropped(self, ports: Seq<u16>, s: SocketAddr) -> bool {
        exists|q: u16|
            #![trigger self.port_map[q]]
            ports.contains(q) && self.port_map.contains_key(q) && self.port_map[q].source == s
    }

    /// The table without the connections on several ports.
    spec fn without(self, ports: Seq<u16>) -> NatModel {
        NatModel {
            port_index: self.port_index,
            addr_map: Map::new(
                |s: SocketAddr| self.addr_map.contains_key(s) && !self.dropped(ports, s),
                |s: SocketAddr| self.addr_map[s],
            ),
            port_map: Map::new(
                |p: u16| self.port_map.contains_key(p) && !ports.contains(p),
                |p: u16| self.port_map[p],
            ),
        }
    }

    /// The table without the connections that were not used for longer than `timeout`, and
    /// without the ports of their sources.
    pub open spec fn swept(self, timeout: u128, now: u128) -> NatModel {
        NatModel {
            port_index: self.port_index,
            addr_map: Map::new(
                |s: SocketAddr|
                    self.addr_map.contains_key(s) && !exists|p: u16|
                        #![trigger self.stale(p, timeout, now)]
                        self.stale(p, timeout, now) && self.port_map[p].source == s,
                |s: SocketAddr| self.addr_map[s],
            ),
            port_map: Map::new(
                |p: u16| self.port_map.contains_key(p) && !self.stale(p, timeout, now),
                |p: u16| self.port_map[p],
            ),
        }
    }
}

/// Ports follow each other without gaps.
proof fn lemma_port_after(p: u16, k: int)
    requires
        nat_port(p),
        0 <= k <= NAT_PORT_COUNT,
    ensures
        nat_port(port_after(p, k)),
        port_after(p, 0) == p,
        port_after(p, NAT_PORT_COUNT as int) == p,
        k < NAT_PORT_COUNT ==> port_after(port_after(p, k), 1) == port_after(p, k + 1),
{
}

/// Every port is some places after every other.
proof fn lemma_port_reached(p: u16, q: u16) -> (k: int)
    requires
        nat_port(p),
        nat_port(q),
    ensures
        0 <= k < NAT_PORT_COUNT,
        port_after(p, k) == q,
{
    if q >= p {
        q - p
    } else {
        q - p + NAT_PORT_COUNT as int
    }
}

/// What the search for a free port finds.
proof fn lemma_first_free(m: NatModel, k: int)
    requires
        m.ports_fit(),
        0 <= k <= NAT_PORT_COUNT,
    ensures
        k <= m.first_free(k) <= NAT_PORT_COUNT,
        m.first_free(k) < NAT_PORT_COUNT ==> !m.port_map.contains_key(
            port_after(m.port_index, m.first_free(k)),
        ),
        forall|j: int|
            k <= j < m.first_free(k) ==> m.port_map.contains_key(
                #[trigger] port_after(m.port_index, j),
            ),
    decreases NAT_PORT_COUNT - k,
{
    if k < NAT_PORT_COUNT && m.port_map.contains_key(port_after(m.port_index, k)) {
        lemma_first_free(m, k + 1);
    }
}

/// Of several ports, the one whose connection was used the longest ago.
proof fn lemma_oldest(m: NatModel, n: int)
    requires
        nat_port(m.port_index),
        1 <= n <= NAT_PORT_COUNT,
    ensures
        nat_port(m.oldest(n)),
        forall|j: int|
            0 <= j < n ==> m.port_map[m.oldest(n)].last_active <= m.port_map[#[trigger] port_after(
                m.port_index,
                j,
            )].last_active,
    decreases n,
{
    lemma_port_after(m.port_index, n - 1);
    if n > 1 {
        lemma_oldest(m, n - 1);
    }
}

/// The search comes back without a port exactly where none is free; the port chosen is then that
/// of the connection that was used the longest ago, and is otherwise free.
pub proof fn law_free_port_is_found(m: NatModel)
    requires
        m.ports_fit(),
    ensures
        m.exhausted() <==> m.first_free(0) == NAT_PORT_COUNT,
        nat_port(m.chosen_port()),
        m.exhausted() ==> forall|p: u16|
            nat_port(p) ==> m.port_map[m.chosen_port()].last_active <= (
            #[trigger] m.port_map[p]).last_active,
        !m.exhausted() ==> !m.port_map.contains_key(m.chosen_port()),
{
    lemma_first_free(m, 0);
    lemma_port_after(m.port_index, m.first_free(0));
    lemma_oldest(m, NAT_PORT_COUNT as int);
    if m.exhausted() && m.first_free(0) < NAT_PORT_COUNT {
        assert(nat_port(port_after(m.port_index, m.first_free(0))));
        assert(m.port_map.contains_key(port_after(m.port_index, m.first_free(0))));
    }
    if m.first_free(0) == NAT_PORT_COUNT {
        assert forall|p: u16| nat_port(p) implies #[trigger] m.port_map.contains_key(p) by {
            let k = lemma_port_reached(m.port_index, p);
            assert(m.port_map.contains_key(port_after(m.port_index, k)));
        }
    }
    if m.exhausted() {
        assert forall|p: u16| nat_port(p) implies m.port_map[m.chosen_port()].last_active <= (
        #[trigger] m.port_map[p]).last_active by {
            let k = lemma_port_reached(m.port_index, p);
            assert(port_after(m.port_index, k) == p);
        }
    }
}

/// Where no port is free, a new source gets the port of the connection that was used the longest
/// ago: that connection ends, its source has no port any more, and all others stay as they are.
pub proof fn law_oldest_is_reused(m: NatModel, src: SocketAddr, dst: SocketAddr, now: u128)
    requires
        m.well_formed(),
        m.exhausted(),
        !m.addr_map.contains_key(src),
    ensures
        ({
            let after = m.looked_up(src, dst, now);
            let port = m.port_for(src);
            let ended = m.port_map[port].source;
            &&& nat_port(port)
            &&& forall|p: u16|
                nat_port(p) ==> m.port_map[port].last_active <= (
                #[trigger] m.port_map[p]).last_active
            &&& after.port_map[port] == (TcpNatEntry {
                source: src,
                destination: dst,
                last_active: now,
            })
            &&& after.addr_map.contains_key(src) && after.addr_map[src] == port
            &&& !after.addr_map.contains_key(ended)
            &&& forall|p: u16|
                p != port ==> after.port_map.contains_key(p) == m.port_map.contains_key(p) && (
                #[trigger] after.port_map[p]) == m.port_map[p]
            &&& forall|s: SocketAddr|
                s != src && s != ended ==> (#[trigger] after.addr_map.contains_key(s)
                    == m.addr_map.contains_key(s)) && after.addr_map[s] == m.addr_map[s]
        }),
{
    law_free_port_is_found(m);
    assert(m.port_map.contains_key(m.chosen_port()));
}

/// A source keeps its port: whatever packets come, from it or from others, as long as nothing is
/// swept and its port is not the one that is reused where none is free.
pub proof fn law_port_is_stable(
    m: NatModel,
    src: SocketAddr,
    dst: SocketAddr,
    now: u128,
    other: SocketAddr,
    other_dst: SocketAddr,
    later: u128,
)
    requires
        m.well_formed(),
        ({
            let after = m.looked_up(src, dst, now);
            after.exhausted() && !after.addr_map.contains_key(other) ==> after.port_for(other)
                != after.port_for(src)
        }),
    ensures
        m.looked_up(src, dst, now).port_for(src) == m.port_for(src),
        m.looked_up(src, dst, now).looked_up(other, other_dst, later).port_for(src) == m.port_for(
            src,
        ),
{
    let after = m.looked_up(src, dst, now);
    law_lookup_keeps_consistency(m, src, dst, now);
    law_free_port_is_found(after);
    assert(after.addr_map.contains_key(src));
    if after.exhausted() && !after.addr_map.contains_key(other) {
        assert(after.port_map.contains_key(after.chosen_port()));
    }
}

/// The port that a source gets leads back to that source, and to the destination of the packet
/// that opened the connection.
pub proof fn law_port_leads_back(m: NatModel, src: SocketAddr, dst: SocketAddr, now: u128)
    requires
        m.well_formed(),
    ensures
        ({
            let after = m.looked_up(src, dst, now);
            let port = m.port_for(src);
            &&& after.port_map.contains_key(port)
            &&& after.port_map[port].source == src
            &&& after.port_map[port].last_active == now
            &&& after.port_map[port].destination == if m.addr_map.contains_key(src) {
                m.port_map[port].destination
            } else {
                dst
            }
        }),
{
}

/// A packet keeps the two maps inverse to each other, and the ports among those that the NAT may
/// hand out.
pub proof fn law_lookup_keeps_consistency(m: NatModel, src: SocketAddr, dst: SocketAddr, now: u128)
    requires
        m.well_formed(),
    ensures
        m.looked_up(src, dst, now).well_formed(),
{
    law_free_port_is_found(m);
    let after = m.looked_up(src, dst, now);
    if !m.addr_map.contains_key(src) {
        let port = m.chosen_port();
        lemma_port_after(port, 1);
        if m.exhausted() {
            assert(m.port_map.contains_key(port));
        }
        assert forall|s: SocketAddr| #[trigger] after.addr_map.contains_key(s) implies {
            &&& after.port_map.contains_key(after.addr_map[s])
            &&& after.port_map[after.addr_map[s]].source == s
        } by {
            if s != src {
                assert(m.addr_map.contains_key(s));
                assert(m.addr_map[s] != port);
            }
        }
        assert forall|p: u16| #[trigger] after.port_map.contains_key(p) implies {
            &&& after.addr_map.contains_key(after.port_map[p].source)
            &&& after.addr_map[after.port_map[p].source] == p
        } by {
            if p != port {
                assert(m.port_map.contains_key(p));
                assert(m.addr_map[m.port_map[p].source] == p);
            }
        }
    }
}

/// A reply and a sweep keep the two maps inverse to each other.
pub proof fn law_touch_and_sweep_keep_consistency(m: NatModel, port: u16, timeout: u128, now: u128)
    requires
        m.consistent(),
    ensures
        m.touched(port, now).consistent(),
        m.swept(timeout, now).consistent(),
{
    let after = m.swept(timeout, now);
    assert forall|s: SocketAddr| #[trigger] after.addr_map.contains_key(s) implies {
        &&& after.port_map.contains_key(after.addr_map[s])
        &&& after.port_map[after.addr_map[s]].source == s
    } by {
        let p = m.addr_map[s];
        assert(m.addr_map.contains_key(s));
        assert(m.port_map[p].source == s);
        assert(!m.stale(p, timeout, now));
    }
    assert forall|p: u16| #[trigger] after.port_map.contains_key(p) implies {
        &&& after.addr_map.contains_key(after.port_map[p].source)
        &&& after.addr_map[after.port_map[p].source] == p
    } by {
        let s = m.port_map[p].source;
        assert(m.port_map.contains_key(p));
        assert forall|q: u16| #[trigger] m.stale(q, timeout, now) implies m.port_map[q].source
            != s by {
            assert(m.port_map.contains_key(q));
        }
    }
}

/// No two sources share a port.
pub proof fn law_ports_are_distinct(m: NatModel, a: SocketAddr, b: SocketAddr)
    requires
        m.consistent(),
        m.addr_map.contains_key(a),
        m.addr_map.contains_key(b),
        a != b,
    ensures
        m.port_for(a) != m.port_for(b),
{
}

/// After a sweep exactly the connections that were used within `timeout` are left, and the
/// sources of the others have no port.
pub proof fn law_sweep_removes_stale(m: NatModel, timeout: u128, now: u128, p: u16)
    requires
        m.consistent(),
        m.port_map.contains_key(p),
    ensures
        ({
            let after = m.swept(timeout, now);
            let e = m.port_map[p];
            &&& after.port_map.contains_key(p) <==> !expired(e, timeout, now)
            &&& after.addr_map.contains_key(e.source) <==> !expired(e, timeout, now)
        }),
{
    law_touch_and_sweep_keep_consistency(m, p, timeout, now);
    assert(m.swept(timeout, now).port_map.contains_key(p) <==> !m.stale(p, timeout, now));
}

/// A sweep without a timeout takes out everything.
pub proof fn law_zero_timeout_sweeps_all(m: NatModel, now: u128)
    requires
        m.consistent(),
    ensures
        m.swept(0, now).port_map == Map::<u16, TcpNatEntry>::empty(),
        m.swept(0, now).addr_map == Map::<SocketAddr, u16>::empty(),
{
    let after = m.swept(0, now);
    assert(after.port_map =~= Map::<u16, TcpNatEntry>::empty());
    assert forall|s: SocketAddr| !after.addr_map.contains_key(s) by {
        if m.addr_map.contains_key(s) {
            assert(m.stale(m.addr_map[s], 0, now));
        }
    }
    assert(after.addr_map =~= Map::<SocketAddr, u16>::empty());
}

/// Whether a port comes before another on the way round from `start`.
pub open spec fn comes_before(p: u16, q: u16, start: u16) -> bool {
    if start <= q {
        start <= p < q
    } else {
        start <= p <= 60000 || 10000 <= p < q
    }
}

/// A new source gets the first port on the way round that nobody holds, and the next search
/// starts after it. Where every port is held it gets the one that was used the longest ago, and
/// the next search starts where this one did.
pub proof fn law_new_sources_get_the_next_free_port(
    m: NatModel,
    src: SocketAddr,
    dst: SocketAddr,
    now: u128,
)
    requires
        m.well_formed(),
        !m.addr_map.contains_key(src),
    ensures
        ({
            let after = m.looked_up(src, dst, now);
            let port = m.port_for(src);
            let full = forall|p: u16| 10000 <= p <= 60000 ==> #[trigger] m.port_map.contains_key(p);
            &&& 10000 <= port <= 60000
            &&& !full ==> !m.port_map.contains_key(port)
            &&& !full ==> forall|p: u16| #[trigger]
                comes_before(p, port, m.port_index) ==> m.port_map.contains_key(p)
            &&& !full ==> after.port_index == if port == 60000 {
                10000
            } else {
                port + 1
            }
            &&& full ==> after.port_index == m.port_index
            &&& full ==> forall|p: u16|
                10000 <= p <= 60000 ==> m.port_map[port].last_active <= (
                #[trigger] m.port_map[p]).last_active
        }),
{
    law_free_port_is_found(m);
    lemma_first_free(m, 0);
    let port = m.port_for(src);
    let full = forall|p: u16| 10000 <= p <= 60000 ==> #[trigger] m.port_map.contains_key(p);
    assert(full == m.exhausted()) by {
        if full {
            assert forall|p: u16| nat_port(p) implies #[trigger] m.port_map.contains_key(p) by {}
        }
        if m.exhausted() {
            assert forall|p: u16| 10000 <= p <= 60000 implies #[trigger] m.port_map.contains_key(
                p,
            ) by {
                assert(nat_port(p));
            }
        }
    }
    if !full {
        let f = m.first_free(0);
        assert forall|p: u16| #[trigger]
            comes_before(p, port, m.port_index) implies m.port_map.contains_key(p) by {
            let j = if p >= m.port_index {
                p - m.port_index
            } else {
                p - m.port_index + 50001
            };
            assert(port_after(m.port_index, j) == p);
            assert(0 <= j < f);
        }
    } else {
        assert forall|p: u16| 10000 <= p <= 60000 implies m.port_map[port].last_active <= (
        #[trigger] m.port_map[p]).last_active by {
            assert(nat_port(p));
        }
    }
}

/// A sweep keeps a connection as it is if no more than the timeout has passed since it was last
/// used, and takes it out otherwise; it adds none.
pub proof fn law_sweep_goes_by_time(
    m: NatModel,
    timeout: u128,
    now: u128,
    p: u16,
    s: SocketAddr,
)
    requires
        m.consistent(),
    ensures
        ({
            let after = m.swept(timeout, now);
            &&& after.port_map.contains_key(p) <==> {
                &&& m.port_map.contains_key(p)
                &&& timeout > 0
                &&& now <= m.port_map[p].last_active + timeout
            }
            &&& after.port_map.contains_key(p) ==> after.port_map[p] == m.port_map[p]
            &&& after.addr_map.contains_key(s) <==> {
                &&& m.addr_map.contains_key(s)
                &&& timeout > 0
                &&& now <= m.port_map[m.addr_map[s]].last_active + timeout
            }
            &&& after.addr_map.contains_key(s) ==> after.addr_map[s] == m.addr_map[s]
            &&& after.port_index == m.port_index
        }),
{
    let after = m.swept(timeout, now);
    if m.addr_map.contains_key(s) {
        let q = m.addr_map[s];
        assert(m.port_map.contains_key(q));
        assert(m.stale(q, timeout, now) <==> !(timeout > 0 && now <= m.port_map[q].last_active
            + timeout));
        assert forall|r: u16| #[trigger]
            m.stale(r, timeout, now) && m.port_map[r].source == s implies r == q by {}
    }
}

/// The ports of the sources, each source at most once.
pub struct AddrMap {
    entries: Vec<(SocketAddr, u16)>,
}

impl View for AddrMap {
    type V = Map<SocketAddr, u16>;

    closed spec fn view(&self) -> Map<SocketAddr, u16> {
        assoc_map(self.entries@)
    }
}

impl AddrMap {
    #[verifier::type_invariant]
    spec fn distinct(self) -> bool {
        distinct_keys(self.entries@)
    }

    /// A map without entries.
    pub fn new() -> (r: AddrMap)
        ensures
            r@ == Map::<SocketAddr, u16>::empty(),
    {
        let entries: Vec<(SocketAddr, u16)> = Vec::new();
        assert(assoc_map(entries@) =~= Map::<SocketAddr, u16>::empty());
        AddrMap { entries }
    }

    /// Where a source stands, or the number of entries.
    fn find(&self, src: SocketAddr) -> (r: usize)
        ensures
            r <= self.entries@.len(),
            r < self.entries@.len() ==> self.entries@[r as int].0 == src,
            r == self.entries@.len() ==> forall|i: int|
                0 <= i < self.entries@.len() ==> (#[trigger] self.entries@[i]).0 != src,
    {
        let mut i: usize = 0;
        while i < self.entries.len()
            invariant
                i <= self.entries@.len(),
                forall|k: int| 0 <= k < i ==> (#[trigger] self.entries@[k]).0 != src,
            decreases self.entries@.len() - i,
        {
            if self.entries[i].0 == src {
                return i;
            }
            i += 1;
        }
        i
    }

    /// The port of a source.
    pub fn get(&self, src: SocketAddr) -> (r: Option<u16>)
        ensures
            r == if self@.contains_key(src) {
                Some(self@[src])
            } else {
                None
            },
    {
        proof {
            use_type_invariant(self);
        }
        let i = self.find(src);
        if i < self.entries.len() {
            proof {
                lemma_assoc_at(self.entries@, i as int);
            }
            Some(self.entries[i].1)
        } else {
            proof {
                lemma_assoc_absent(self.entries@, src);
            }
            None
        }
    }

    /// Sets the port of a source that has none.
    pub fn add_source(&mut self, src: SocketAddr, port: u16)
        requires
            !old(self)@.contains_key(src),
        ensures
            final(self)@ == old(self)@.insert(src, port),
    {
        proof {
            use_type_invariant(&*self);
            assert forall|i: int| 0 <= i < self.entries@.len() implies (
            #[trigger] self.entries@[i]).0 != src by {
                lemma_assoc_at(self.entries@, i);
            }
            lemma_assoc_push(self.entries@, src, port);
        }
        let mut entries: Vec<(SocketAddr, u16)> = Vec::new();
        std::mem::swap(&mut entries, &mut self.entries);
        entries.push((src, port));
        self.entries = entries;
    }

    /// Takes out a source.
    pub fn remove(&mut self, src: SocketAddr)
        ensures
            final(self)@ == old(self)@.remove(src),
    {
        proof {
            use_type_invariant(&*self);
        }
        let i = self.find(src);
        if i < self.entries.len() {
            let mut entries: Vec<(SocketAddr, u16)> = Vec::new();
            std::mem::swap(&mut entries, &mut self.entries);
            proof {
                lemma_assoc_remove(entries@, i as int);
            }
            entries.remove(i);
            self.entries = entries;
        } else {
            proof {
                lemma_assoc_absent(self.entries@, src);
            }
            assert(old(self)@ =~= old(self)@.remove(src));
        }
    }
}

/// The table of TCP connections.
pub struct TcpNat {
    port_index: u16,
    addr_map: AddrMap,
    port_map: HashMap<u16, TcpNatEntry>,
}

impl View for TcpNat {
    type V = NatModel;

    closed spec fn view(&self) -> NatModel {
        NatModel {
            port_index: self.port_index,
            addr_map: self.addr_map@,
            port_map: self.port_map@,
        }
    }
}

impl TcpNat {
    /// A table without connections.
    pub fn new() -> (r: TcpNat)
        ensures
            r@ == (NatModel {
                port_index: NAT_PORT_START,
                addr_map: Map::empty(),
                port_map: Map::empty(),
            }),
            r@.well_formed(),
    {
        TcpNat { port_index: NAT_PORT_START, addr_map: AddrMap::new(), port_map: HashMap::new() }
    }

    /// How many connections the table holds.
    pub fn len(&self) -> (r: usize)
        ensures
            r == self@.port_map.len(),
    {
        self.port_map.len()
    }

    /// Notes that the connection on a port was used.
    fn touch(&mut self, port: u16, now: u128) -> (r: Option<TcpNatEntry>)
        ensures
            final(self)@ == old(self)@.touched(port, now),
            r == if old(self)@.port_map.contains_key(port) {
                Some(old(self)@.port_map[port])
            } else {
                None
            },
    {
        broadcast use vstd::std_specs::hash::group_hash_axioms;

        let entry: TcpNatEntry = match self.port_map.get(&port) {
            Some(e) => *e,
            None => {
                return None;
            },
        };
        self.port_map.insert(
            port,
            TcpNatEntry {
                source: entry.source,
                destination: entry.destination,
                last_active: now,
            },
        );
        assert(self@ =~= old(self)@.touched(port, now));
        Some(entry)
    }

    /// The port for a packet from `src` to `dst`: the port that the source has, else a new one.
    pub fn lookup_or_insert(&mut self, src: SocketAddr, dst: SocketAddr, now: u128) -> (r: u16)
        requires
            old(self)@.well_formed(),
        ensures
            final(self)@.well_formed(),
            r == old(self)@.port_for(src),
            nat_port(r),
            final(self)@ == old(self)@.looked_up(src, dst, now),
    {
        broadcast use vstd::std_specs::hash::group_hash_axioms;

        proof {
            law_lookup_keeps_consistency(self@, src, dst, now);
        }
        if let Some(port) = self.addr_map.get(src) {
            self.touch(port, now);
            return port;
        }
        let start = self.port_index;
        let mut port: u16 = start;
        let mut tried: u32 = 0;
        proof {
            lemma_port_after(start, 0);
            law_free_port_is_found(self@);
        }
        while tried < NAT_PORT_COUNT && self.port_map.contains_key(&port)
            invariant
                *self == *old(self),
                old(self)@.well_formed(),
                start == self@.port_index,
                tried <= NAT_PORT_COUNT,
                port == port_after(start, tried as int),
                nat_port(port),
                self@.first_free(0) == self@.first_free(tried as int),
            decreases NAT_PORT_COUNT - tried,
        {
            proof {
                lemma_port_after(start, tried as int);
                lemma_port_after(start, tried + 1);
            }
            port = if port >= NAT_PORT_END {
                NAT_PORT_START
            } else {
                port + 1
            };
            tried += 1;
        }
        proof {
            lemma_port_after(start, tried as int);
            lemma_first_free(self@, tried as int);
        }
        if tried < NAT_PORT_COUNT {
            self.port_index = if port >= NAT_PORT_END {
                NAT_PORT_START
            } else {
                port + 1
            };
            proof {
                lemma_port_after(port, 0);
                lemma_port_after(port, 1);
            }
        } else {
            port = self.oldest_port();
            if let Some(e) = self.port_map.get(&port) {
                self.addr_map.remove(e.source);
            }
            assert(old(self)@.port_map.contains_key(port));
        }
        self.addr_map.add_source(src, port);
        self.port_map.insert(
            port,
            TcpNatEntry { source: src, destination: dst, last_active: now },
        );
        assert(self@ =~= old(self)@.looked_up(src, dst, now));
        port
    }

    /// The port of the connection that was used the longest ago, where no port is free.
    fn oldest_port(&self) -> (r: u16)
        requires
            self@.ports_fit(),
            self@.exhausted(),
        ensures
            r == self@.oldest(NAT_PORT_COUNT as int),
            nat_port(r),
    {
        broadcast use vstd::std_specs::hash::group_hash_axioms;

        let start = self.port_index;
        let mut best: u16 = start;
        let mut best_time: u128 = self.last_active(start);
        let mut port: u16 = start;
        let mut n: u32 = 1;
        proof {
            lemma_port_after(start, 0);
        }
        while n < NAT_PORT_COUNT
            invariant
                self@.ports_fit(),
                self@.exhausted(),
                start == self@.port_index,
                1 <= n <= NAT_PORT_COUNT,
                nat_port(port),
                port == port_after(start, n - 1),
                nat_port(best),
                best == self@.oldest(n as int),
                best_time == self@.port_map[best].last_active,
            decreases NAT_PORT_COUNT - n,
        {
            proof {
                lemma_port_after(start, n - 1);
                lemma_port_after(start, n as int);
            }
            port = if port >= NAT_PORT_END {
                NAT_PORT_START
            } else {
                port + 1
            };
            let time = self.last_active(port);
            if time < best_time {
                best = port;
                best_time = time;
            }
            n += 1;
        }
        best
    }

    /// When the connection on a port was last used.
    fn last_active(&self, port: u16) -> (r: u128)
        requires
            self@.exhausted(),
            nat_port(port),
        ensures
            r == self@.port_map[port].last_active,
    {
        broadcast use vstd::std_specs::hash::group_hash_axioms;

        assert(self@.port_map.contains_key(port));
        match self.port_map.get(&port) {
            Some(e) => e.last_active,
            None => 0,
        }
    }

    /// The source and the destination of the connection on a port.
    pub fn lookup_back(&mut self, nat_port: u16, now: u128) -> (r: Option<(SocketAddr, SocketAddr)>)
        ensures
            final(self)@ == old(self)@.touched(nat_port, now),
            r == if old(self)@.port_map.contains_key(nat_port) {
                Some(
                    (
                        old(self)@.port_map[nat_port].source,
                        old(self)@.port_map[nat_port].destination,
                    ),
                )
            } else {
                None
            },
            old(self)@.well_formed() ==> final(self)@.well_formed(),
    {
        proof {
            if self@.well_formed() {
                law_touch_and_sweep_keep_consistency(self@, nat_port, 0, now);
            }
        }
        match self.touch(nat_port, now) {
            Some(entry) => Some((entry.source, entry.destination)),
            None => None,
        }
    }

    /// Sweeps out the connections that were not used for longer than `timeout`.
    pub fn gc(&mut self, timeout: u128, now: u128)
        ensures
            final(self)@ == old(self)@.swept(timeout, now),
            old(self)@.well_formed() ==> final(self)@.well_formed(),
    {
        broadcast use vstd::std_specs::hash::group_hash_axioms;

        let ghost before = self@;
        proof {
            if before.well_formed() {
                law_touch_and_sweep_keep_consistency(before, 0, timeout, now);
            }
        }
        let mut stale_ports: Vec<u16> = Vec::new();
        let ghost mut seen: Seq<u16> = Seq::empty();
        for k in it: self.port_map.keys()
            invariant
                before == self@,
                it.seq().unref().to_set() == before.port_map.dom(),
                seen =~= it.seq().unref().take(it.index()),
                it.index() == it.seq().len() ==> seen =~= it.seq().unref(),
                forall|p: u16| #[trigger]
                    stale_ports@.contains(p) <==> seen.contains(p) && before.stale(p, timeout, now),
        {
            let p = *k;
            let ghost listed = stale_ports@;
            let ghost seen_before = seen;
            proof {
                assert(it.seq().unref()[it.index()] == p);
                seen = seen.push(p);
                assert(seen =~= it.seq().unref().take(it.index() + 1));
                assert(it.seq().unref().to_set().contains(p));
            }
            if let Some(e) = self.port_map.get(&p) {
                if timeout == 0 || (now > e.last_active && now - e.last_active > timeout) {
                    stale_ports.push(p);
                    assert(stale_ports@[listed.len() as int] == p);
                }
            }
            proof {
                assert forall|q: u16| #[trigger]
                    stale_ports@.contains(q) <==> seen.contains(q) && before.stale(
                        q,
                        timeout,
                        now,
                    ) by {
                    lemma_push_contains(seen_before, p, q);
                    lemma_push_contains(listed, p, q);
                }
            }
        }
        proof {
            assert forall|p: u16| #[trigger] stale_ports@.contains(p) <==> before.stale(
                p,
                timeout,
                now,
            ) by {
                if before.stale(p, timeout, now) {
                    assert(before.port_map.dom().contains(p));
                    assert(seen.to_set().contains(p));
                }
            }
        }
        let mut i: usize = 0;
        assert(self.addr_map@ =~= before.without(Seq::empty()).addr_map);
        assert(self.port_map@ =~= before.without(Seq::empty()).port_map);
        assert(stale_ports@.take(0) =~= Seq::<u16>::empty());
        while i < stale_ports.len()
            invariant
                i <= stale_ports@.len(),
                self@ == before.without(stale_ports@.take(i as int)),
            decreases stale_ports@.len() - i,
        {
            let port = stale_ports[i];
            let ghost done = stale_ports@.take(i as int);
            let ghost more = stale_ports@.take(i + 1);
            assert(more =~= done.push(port));
            let ghost mid = self@;
            match self.port_map.remove(&port) {
                Some(entry) => {
                    self.addr_map.remove(entry.source);
                },
                None => {},
            }
            i += 1;
            proof {
                assert forall|q: u16| more.contains(q) == (done.contains(q) || q == port) by {
                    lemma_push_contains(done, port, q);
                }
                assert(self.port_map@ =~= before.without(more).port_map);
                assert forall|s: SocketAddr| self.addr_map@.contains_key(s) == before.without(
                    more,
                ).addr_map.contains_key(s) by {
                    if before.addr_map.contains_key(s) {
                        if before.dropped(done, s) {
                            let q = choose|q: u16|
                                #![trigger before.port_map[q]]
                                done.contains(q) && before.port_map.contains_key(q)
                                    && before.port_map[q].source == s;
                            assert(more.contains(q));
                        }
                    }
                }
                assert(self.addr_map@ =~= before.without(more).addr_map);
            }
        }
        assert(stale_ports@.take(i as int) =~= stale_ports@);
        assert(self.port_map@ =~= before.swept(timeout, now).port_map);
        proof {
            assert forall|s: SocketAddr| self.addr_map@.contains_key(s) == before.swept(
                timeout,
                now,
            ).addr_map.contains_key(s) by {
                if before.dropped(stale_ports@, s) {
                    let q = choose|q: u16|
                        #![trigger before.port_map[q]]
                        stale_ports@.contains(q) && before.port_map.contains_key(q)
                            && before.port_map[q].source == s;
                    assert(before.stale(q, timeout, now));
                } else {
                    assert forall|p: u16| #[trigger] before.stale(p, timeout, now) implies
                        before.port_map[p].source != s by {
                        assert(stale_ports@.contains(p));
                        let e = before.port_map[p];
                    }
                }
            }
            assert(self.addr_map@ =~= before.swept(timeout, now).addr_map);
        }
    }
}

} // verus!
