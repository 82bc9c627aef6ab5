//! The state of the TUN inbound and what moves it: frames from the device, connections to its
//! listeners, and the clock.
use vstd::prelude::*;

use crate::config::inbound::TunInboundConfig;
use crate::inbound::tun::address::{
    mask_v4, parse_addresses, prefix_len_to_mask_v4, v4_prefixes, v6_prefixes,
};
use crate::inbound::tun::frame::Framing;
use crate::inbound::tun::handlers::{
    ipv4_step, ipv6_step, process_ipv4, process_ipv6, sessions_after, ActionModel, PacketAction,
};
use crate::inbound::tun::session::{live_sessions, session_live, UdpSessions};
use crate::inbound::tun::tcp_nat::{
    expired, law_sweep_removes_stale, law_touch_and_sweep_keep_consistency, NatModel, TcpNat,
    NAT_PORT_START,
};
use crate::inbound::Target;
use crate::net::{Ipv4Addr, Ipv6Addr, SocketAddr};

verus! {

/// Seconds after which an idle session ends where the configuration does not say.
pub const DEFAULT_UDP_TIMEOUT_SECS: u64 = 300;

/// Milliseconds to wait after the device could not be read.
pub const READ_PAUSE_MS: u64 = 10;

/// Milliseconds to wait after a connection could not be accepted.
pub const ACCEPT_PAUSE_MS: u64 = 5;

/// Why the inbound cannot run.
#[derive(Debug, Clone, Copy, PartialEq, Eq, Structural)]
pub enum TunError {
    /// No address is configured.
    NoAddress,
}

impl TunError {
    /// The error in words.
    pub fn message(self) -> (r: String)
        ensures
            r@ == "tun: at least one address must be configured"@,
    {
        "tun: at least one address must be configured".to_owned()
    }
}

/// How to create the device.
#[derive(Debug)]
pub struct DevicePlan {
    pub name: Option<String>,
    pub mtu: u32,
    /// The IPv4 address and its mask.
    pub address: Option<(Ipv4Addr, Ipv4Addr)>,
    /// Whether the device is to put a packet information header in front of each packet.
    pub packet_information: bool,
}

/// A connection on its way to the outbounds.
pub struct TcpDelivery {
    pub target: Target,
    pub inbound_tag: String,
    pub sniffed_protocol: Option<String>,
    pub sniffed_domain: Option<String>,
}

/// What came of reading the device.
pub enum DeviceEvent<'a> {
    /// A frame; one without octets tells that the device was closed.
    Read(&'a [u8]),
    /// The device could not be read.
    Failed,
}

/// What to do after reading the device.
pub enum DeviceStep {
    /// Stop.
    Stop,
    /// Wait for some milliseconds, then read again.
    Pause(u64),
    /// Act on a packet, then read again.
    Act(PacketAction),
}

/// What came of waiting for a connection to a listener.
pub enum AcceptEvent {
    /// A connection from this address.
    Accepted(SocketAddr),
    /// No connection could be accepted.
    Failed,
}

/// What to do after waiting for a connection.
pub enum AcceptStep {
    /// Wait for some milliseconds, then for the next connection.
    Pause(u64),
    /// Hand the connection on.
    Deliver(TcpDelivery),
    /// Close the connection: nothing is known of it.
    Drop,
}

/// The TUN inbound, as configured.
pub struct TunInbound {
    config: TunInboundConfig,
}

/// The TUN inbound at work.
pub struct TunEngine {
    pub config: TunInboundConfig,
    pub framing: Framing,
    /// The address of the device, on which a listener waits.
    pub inet4_addr: Option<Ipv4Addr>,
    /// The address that connections to the listener seem to come from.
    pub inet4_next: Option<Ipv4Addr>,
    pub inet6_addr: Option<Ipv6Addr>,
    pub inet6_next: Option<Ipv6Addr>,
    /// Seconds after which an idle session ends.
    pub udp_timeout_secs: u64,
    /// The port of the listener on the IPv4 address, or zero.
    pub tcp_port_v4: u16,
    /// The port of the listener on the IPv6 address, or zero.
    pub tcp_port_v6: u16,
    pub tcp_nat: TcpNat,
    pub udp_sessions: UdpSessions,
}

/// The first IPv4 address.
pub open spec fn first_v4(a: Seq<String>) -> Option<Ipv4Addr> {
    if v4_prefixes(a).len() > 0 {
        Some(v4_prefixes(a)[0].0)
    } else {
        None
    }
}

/// The first IPv6 address.
pub open spec fn first_v6(a: Seq<String>) -> Option<Ipv6Addr> {
    if v6_prefixes(a).len() > 0 {
        Some(v6_prefixes(a)[0].0)
    } else {
        None
    }
}

/// The address after an IPv4 address.
pub open spec fn next_v4(a: Option<Ipv4Addr>) -> Option<Ipv4Addr> {
    match a {
        Some(ip) => Some(ip.spec_next()),
        None => None,
    }
}

/// The address after an IPv6 address.
pub open spec fn next_v6(a: Option<Ipv6Addr>) -> Option<Ipv6Addr> {
    match a {
        Some(ip) => Some(ip.spec_next()),
        None => None,
    }
}

impl TunInbound {
    /// The configuration.
    pub closed spec fn spec_config(self) -> TunInboundConfig {
        self.config
    }

    /// An inbound with the given configuration.
    pub fn new(config: TunInboundConfig) -> (r: TunInbound)
        ensures
            r.spec_config() == config,
    {
        TunInbound { config }
    }

    /// Starts the inbound: reads its addresses and sets up its tables. At least one address is
    /// needed.
    pub fn run(self, framing: Framing) -> (r: Result<TunEngine, TunError>)
        ensures
            match r {
                Ok(e) => {
                    let a = self.spec_config().address@;
                    let timeout = self.spec_config().udp_timeout;
                    &&& first_v4(a) is Some || first_v6(a) is Some
                    &&& e.config == self.spec_config()
                    &&& e.framing == framing
                    &&& e.inet4_addr == first_v4(a)
                    &&& e.inet4_next == next_v4(first_v4(a))
                    &&& e.inet6_addr == first_v6(a)
                    &&& e.inet6_next == next_v6(first_v6(a))
                    &&& e.udp_timeout_secs == if timeout == 0 {
                        DEFAULT_UDP_TIMEOUT_SECS
                    } else {
                        timeout
                    }
                    &&& e.tcp_port_v4 == 0
                    &&& e.tcp_port_v6 == 0
                    &&& e.tcp_nat@ == (NatModel {
                        port_index: NAT_PORT_START,
                        addr_map: Map::empty(),
                        port_map: Map::empty(),
                    })
                    &&& e.udp_sessions@ == Map::<(SocketAddr, SocketAddr), u128>::empty()
                    &&& e.well_formed()
                },
                Err(TunError::NoAddress) => first_v4(self.spec_config().address@) is None
                    && first_v6(self.spec_config().address@) is None,
            },
    {
        let config = self.config;
        let udp_timeout_secs: u64 = if config.udp_timeout == 0 {
            DEFAULT_UDP_TIMEOUT_SECS
        } else {
            config.udp_timeout
        };
        let addrs = parse_addresses(&config);
        let inet4_addr: Option<Ipv4Addr> = if addrs.inet4.len() > 0 {
            Some(addrs.inet4[0].0)
        } else {
            None
        };
        let inet6_addr: Option<Ipv6Addr> = if addrs.inet6.len() > 0 {
            Some(addrs.inet6[0].0)
        } else {
            None
        };
        let inet4_next: Option<Ipv4Addr> = match inet4_addr {
            Some(ip) => Some(ip.next()),
            None => None,
        };
        let inet6_next: Option<Ipv6Addr> = match inet6_addr {
            Some(ip) => Some(ip.next()),
            None => None,
        };
        if inet4_addr.is_none() && inet6_addr.is_none() {
            return Err(TunError::NoAddress);
        }
        Ok(
            TunEngine {
                config,
                framing,
                inet4_addr,
                inet4_next,
                inet6_addr,
                inet6_next,
                udp_timeout_secs,
                tcp_port_v4: 0,
                tcp_port_v6: 0,
                tcp_nat: TcpNat::new(),
                udp_sessions: UdpSessions::new(),
            },
        )
    }
}

/// The packet in a frame, if there is one.
pub open spec fn packet_in(frame: Seq<u8>, framing: Framing) -> Option<Seq<u8>> {
    if frame.len() > framing.start() {
        Some(frame.skip(framing.start()))
    } else {
        None
    }
}

impl TunEngine {
    /// The NAT is well-formed.
    pub open spec fn well_formed(self) -> bool {
        self.tcp_nat@.well_formed()
    }

    /// Whether all but the tables is as in another engine.
    pub open spec fn same_settings(self, other: TunEngine) -> bool {
        &&& self.config == other.config
        &&& self.framing == other.framing
        &&& self.inet4_addr == other.inet4_addr
        &&& self.inet4_next == other.inet4_next
        &&& self.inet6_addr == other.inet6_addr
        &&& self.inet6_next == other.inet6_next
        &&& self.udp_timeout_secs == other.udp_timeout_secs
        &&& self.tcp_port_v4 == other.tcp_port_v4
        &&& self.tcp_port_v6 == other.tcp_port_v6
    }

    /// What becomes of a frame: the NAT after it, and what to do with its packet.
    pub open spec fn frame_step(self, frame: Seq<u8>, now: u128) -> (NatModel, ActionModel) {
        match packet_in(frame, self.framing) {
            Some(pkt) => if pkt[0] / 16 == 4 {
                ipv4_step(
                    self.tcp_nat@,
                    pkt,
                    self.inet4_addr,
                    self.inet4_next,
                    self.tcp_port_v4,
                    now,
                    self.framing,
                )
            } else if pkt[0] / 16 == 6 {
                ipv6_step(
                    self.tcp_nat@,
                    pkt,
                    self.inet6_addr,
                    self.inet6_next,
                    self.tcp_port_v6,
                    now,
                    self.framing,
                )
            } else {
                (self.tcp_nat@, ActionModel::Drop)
            },
            None => (self.tcp_nat@, ActionModel::Drop),
        }
    }

    /// How to create the device.
    pub fn device(&self) -> (r: DevicePlan)
        ensures
            r.name is Some <==> self.config.interface_name is Some,
            r.name matches Some(n) ==> n@ == self.config.interface_name->0@,
            r.mtu == self.config.mtu,
            r.address == if v4_prefixes(self.config.address@).len() > 0 {
                let (ip, n) = v4_prefixes(self.config.address@)[0];
                Some((ip, Ipv4Addr { bits: mask_v4(n) }))
            } else {
                None
            },
            r.packet_information == (self.framing is PacketInfo),
    {
        let addrs = parse_addresses(&self.config);
        let address: Option<(Ipv4Addr, Ipv4Addr)> = if addrs.inet4.len() > 0 {
            let (ip, prefix_len) = addrs.inet4[0];
            Some((ip, prefix_len_to_mask_v4(prefix_len)))
        } else {
            None
        };
        let name: Option<String> = match &self.config.interface_name {
            Some(n) => Some(n.clone()),
            None => None,
        };
        let packet_information = match self.framing {
            Framing::PacketInfo => true,
            Framing::Bare => false,
        };
        DevicePlan { name, mtu: self.config.mtu, address, packet_information }
    }

    /// The name of the interface.
    pub fn interface_name(&self) -> (r: String)
        ensures
            r@ == match self.config.interface_name {
                Some(n) => n@,
                None => "tun0"@,
            },
    {
        match &self.config.interface_name {
            Some(n) => n.clone(),
            None => "tun0".to_owned(),
        }
    }

    /// The size of the buffer into which frames are read.
    pub fn buffer_size(&self) -> (r: usize)
        requires
            self.config.mtu + 64 <= usize::MAX,
        ensures
            r == self.config.mtu + 64,
    {
        self.config.mtu as usize + 64
    }

    /// Nanoseconds after which an idle session ends.
    pub fn timeout_nanos(&self) -> (r: u128)
        ensures
            r == self.udp_timeout_secs * 1_000_000_000,
    {
        self.udp_timeout_secs as u128 * 1_000_000_000
    }

    /// Nanoseconds between two sweeps: half the time after which an idle session ends.
    pub fn sweep_interval_nanos(&self) -> (r: u128)
        ensures
            r == self.udp_timeout_secs * 500_000_000,
    {
        self.timeout_nanos() / 2
    }

    /// Notes the ports of the listeners; zero where there is none.
    pub fn listeners_bound(&mut self, port_v4: u16, port_v6: u16)
        ensures
            *final(self) == (TunEngine {
                tcp_port_v4: port_v4,
                tcp_port_v6: port_v6,
                ..*old(self)
            }),
    {
        self.tcp_port_v4 = port_v4;
        self.tcp_port_v6 = port_v6;
    }

    /// Decides what to do after the device was read.
    pub fn on_device(&mut self, event: DeviceEvent<'_>, now: u128) -> (r: DeviceStep)
        requires
            old(self).well_formed(),
        ensures
            final(self).well_formed(),
            final(self).same_settings(*old(self)),
            match event {
                DeviceEvent::Failed => r == DeviceStep::Pause(READ_PAUSE_MS) && *final(self) == *old(self),
                DeviceEvent::Read(frame) => if frame@.len() == 0 {
                    r is Stop && *final(self) == *old(self)
                } else {
                    let (after, model) = old(self).frame_step(frame@, now);
                    &&& r matches DeviceStep::Act(action) && action.is_action(
                        model,
                        old(self).config.tag@,
                        old(self).udp_sessions@,
                    )
                    &&& final(self).tcp_nat@ == after
                    &&& final(self).udp_sessions@ == sessions_after(
                        old(self).udp_sessions@,
                        model,
                        now,
                    )
                },
            },
    {
        let frame = match event {
            DeviceEvent::Read(frame) => frame,
            DeviceEvent::Failed => {
                return DeviceStep::Pause(READ_PAUSE_MS);
            },
        };
        if frame.len() == 0 {
            return DeviceStep::Stop;
        }
        let off = self.framing.offset();
        if frame.len() <= off {
            return DeviceStep::Act(PacketAction::Drop);
        }
        let pkt = vstd::slice::slice_subrange(frame, off, frame.len());
        assert(pkt@ =~= frame@.skip(self.framing.start()));
        let version = pkt[0] / 16;
        if version == 4 {
            DeviceStep::Act(
                process_ipv4(
                    pkt,
                    self.inet4_addr,
                    self.inet4_next,
                    self.tcp_port_v4,
                    &self.config.tag,
                    &mut self.tcp_nat,
                    &mut self.udp_sessions,
                    now,
                    self.framing,
                ),
            )
        } else if version == 6 {
            DeviceStep::Act(
                process_ipv6(
                    pkt,
                    self.inet6_addr,
                    self.inet6_next,
                    self.tcp_port_v6,
                    &self.config.tag,
                    &mut self.tcp_nat,
                    &mut self.udp_sessions,
                    now,
                    self.framing,
                ),
            )
        } else {
            DeviceStep::Act(PacketAction::Drop)
        }
    }

    /// Decides what to do after waiting for a connection to a listener. The port that a connection
    /// comes from is one of the NAT, and leads to its real destination.
    pub fn on_accept(&mut self, event: AcceptEvent, now: u128) -> (r: AcceptStep)
        requires
            old(self).well_formed(),
        ensures
            final(self).well_formed(),
            final(self).same_settings(*old(self)),
            final(self).udp_sessions == old(self).udp_sessions,
            match event {
                AcceptEvent::Failed => r == AcceptStep::Pause(ACCEPT_PAUSE_MS) && final(self).tcp_nat
                    == old(self).tcp_nat,
                AcceptEvent::Accepted(peer) => {
                    let port = peer.spec_port();
                    let ports = old(self).tcp_nat@.port_map;
                    &&& final(self).tcp_nat@ == old(self).tcp_nat@.touched(port, now)
                    &&& !ports.contains_key(port) ==> r is Drop
                    &&& ports.contains_key(port) ==> (r matches AcceptStep::Deliver(d) && {
                        &&& d.target == Target::Socket(ports[port].destination)
                        &&& d.inbound_tag@ == old(self).config.tag@
                        &&& d.sniffed_protocol is None
                        &&& d.sniffed_domain is None
                    })
                },
            },
    {
        let peer = match event {
            AcceptEvent::Accepted(peer) => peer,
            AcceptEvent::Failed => {
                return AcceptStep::Pause(ACCEPT_PAUSE_MS);
            },
        };
        match self.tcp_nat.lookup_back(peer.port(), now) {
            Some((_, dst)) => AcceptStep::Deliver(
                TcpDelivery {
                    target: Target::Socket(dst),
                    inbound_tag: self.config.tag.clone(),
                    sniffed_protocol: None,
                    sniffed_domain: None,
                },
            ),
            None => AcceptStep::Drop,
        }
    }

    /// Sweeps out idle connections and sessions, and lists the sessions.
    pub fn on_tick(&mut self, now: u128) -> (dropped: Vec<(SocketAddr, SocketAddr)>)
        requires
            old(self).well_formed(),
        ensures
            final(self).well_formed(),
            final(self).same_settings(*old(self)),
            final(self).tcp_nat@ == old(self).tcp_nat@.swept(
                (old(self).udp_timeout_secs * 1_000_000_000) as u128,
                now,
            ),
            final(self).udp_sessions@ == live_sessions(
                old(self).udp_sessions@,
                (old(self).udp_timeout_secs * 1_000_000_000) as u128,
                now,
            ),
            forall|k: (SocketAddr, SocketAddr)| #[trigger]
                dropped@.contains(k) <==> old(self).udp_sessions@.contains_key(k) && !final(self).udp_sessions@.contains_key(k),
    {
        let timeout = self.timeout_nanos();
        self.tcp_nat.gc(timeout, now);
        self.udp_sessions.retain(timeout, now)
    }
}

/// The NAT after sweeps at several times.
pub open spec fn swept_at(m: NatModel, timeout: u128, ticks: Seq<u128>) -> NatModel
    decreases ticks.len(),
{
    if ticks.len() == 0 {
        m
    } else {
        swept_at(m, timeout, ticks.drop_last()).swept(timeout, ticks.last())
    }
}

/// The sessions after sweeps at several times.
pub open spec fn live_at(
    s: Map<(SocketAddr, SocketAddr), u128>,
    timeout: u128,
    ticks: Seq<u128>,
) -> Map<(SocketAddr, SocketAddr), u128>
    decreases ticks.len(),
{
    if ticks.len() == 0 {
        s
    } else {
        live_sessions(live_at(s, timeout, ticks.drop_last()), timeout, ticks.last())
    }
}

/// Whether sweeps follow each other by no more than `interval`.
pub open spec fn ticking(ticks: Seq<u128>, interval: int) -> bool {
    forall|i: int|
        0 < i < ticks.len() ==> (#[trigger] ticks[i]) - ticks[i - 1] <= interval
}

/// A connection that is not used is there after sweeps if and only if none of them came when it
/// had been idle for longer than the timeout, and so it is with the port of its source.
proof fn lemma_swept_at(m: NatModel, p: u16, timeout: u128, ticks: Seq<u128>)
    requires
        m.well_formed(),
        m.port_map.contains_key(p),
    ensures
        ({
            let after = swept_at(m, timeout, ticks);
            let e = m.port_map[p];
            let kept = forall|i: int|
                0 <= i < ticks.len() ==> !expired(e, timeout, #[trigger] ticks[i]);
            &&& after.consistent()
            &&& after.port_map.contains_key(p) <==> kept
            &&& kept ==> after.port_map[p] == e
            &&& after.addr_map.contains_key(e.source) <==> kept
        }),
    decreases ticks.len(),
{
    let e = m.port_map[p];
    if ticks.len() > 0 {
        let before = ticks.drop_last();
        let mid = swept_at(m, timeout, before);
        let now = ticks.last();
        lemma_swept_at(m, p, timeout, before);
        law_touch_and_sweep_keep_consistency(mid, p, timeout, now);
        if mid.port_map.contains_key(p) {
            law_sweep_removes_stale(mid, timeout, now, p);
        }
        assert(forall|i: int| 0 <= i < before.len() ==> before[i] == ticks[i]);
        if mid.port_map.contains_key(p) && !expired(e, timeout, now) {
            assert forall|i: int| 0 <= i < ticks.len() implies !expired(
                e,
                timeout,
                #[trigger] ticks[i],
            ) by {
                if i < before.len() {
                    assert(!expired(e, timeout, before[i]));
                }
            }
        }
        if forall|i: int| 0 <= i < ticks.len() ==> !expired(e, timeout, #[trigger] ticks[i]) {
            assert forall|i: int| 0 <= i < before.len() implies !expired(
                e,
                timeout,
                #[trigger] before[i],
            ) by {
                assert(!expired(e, timeout, ticks[i]));
            }
            assert(!expired(e, timeout, ticks[ticks.len() - 1]));
        }
    }
}

/// A session that is not used is there after sweeps if and only if none of them came when it had
/// been idle for the timeout.
proof fn lemma_live_at(
    s: Map<(SocketAddr, SocketAddr), u128>,
    k: (SocketAddr, SocketAddr),
    timeout: u128,
    ticks: Seq<u128>,
)
    requires
        s.contains_key(k),
    ensures
        ({
            let after = live_at(s, timeout, ticks);
            let kept = forall|i: int|
                0 <= i < ticks.len() ==> session_live(s[k], timeout, #[trigger] ticks[i]);
            &&& after.contains_key(k) <==> kept
            &&& kept ==> after[k] == s[k]
        }),
    decreases ticks.len(),
{
    if ticks.len() > 0 {
        let before = ticks.drop_last();
        let now = ticks.last();
        let mid = live_at(s, timeout, before);
        lemma_live_at(s, k, timeout, before);
        if mid.contains_key(k) && session_live(s[k], timeout, now) {
            assert forall|i: int| 0 <= i < ticks.len() implies session_live(
                s[k],
                timeout,
                #[trigger] ticks[i],
            ) by {
                if i < before.len() {
                    assert(session_live(s[k], timeout, before[i]));
                }
            }
        }
        if forall|i: int| 0 <= i < ticks.len() ==> session_live(s[k], timeout, #[trigger] ticks[i]) {
            assert forall|i: int| 0 <= i < before.len() implies session_live(
                s[k],
                timeout,
                #[trigger] before[i],
            ) by {
                assert(session_live(s[k], timeout, ticks[i]));
            }
            assert(session_live(s[k], timeout, ticks[ticks.len() - 1]));
        }
    }
}

/// Of sweeps that follow each other by no more than `interval`, of which one came by `end` and one
/// comes later, one comes later by no more than `interval`.
pub proof fn law_a_sweep_comes(ticks: Seq<u128>, interval: int, end: int) -> (i: int)
    requires
        ticking(ticks, interval),
        ticks.len() > 0,
        ticks[0] <= end,
        ticks.last() > end,
    ensures
        0 < i < ticks.len(),
        end < ticks[i] <= end + interval,
    decreases ticks.len(),
{
    let n = ticks.len() - 1;
    if ticks[n - 1] <= end {
        assert(ticks[n] - ticks[n - 1] <= interval);
        n
    } else {
        let before = ticks.drop_last();
        assert forall|j: int| 0 < j < before.len() implies (#[trigger] before[j]) - before[j - 1]
            <= interval by {
            assert(ticks[j] - ticks[j - 1] <= interval);
        }
        law_a_sweep_comes(before, interval, end)
    }
}

/// A connection that is not used again is gone soon, even if no packet comes: swept once in half
/// the timeout, one that was last used at some time is gone from the NAT, with the port of its
/// source, by one and a half timeouts after that. It is not swept before it has been idle for the
/// timeout.
pub proof fn law_idle_connections_end(e: TunEngine, p: u16, ticks: Seq<u128>)
    requires
        e.well_formed(),
        e.udp_timeout_secs > 0,
        e.tcp_nat@.port_map.contains_key(p),
        ticking(ticks, e.udp_timeout_secs * 500_000_000),
        ticks.len() > 0,
    ensures
        ({
            let timeout = (e.udp_timeout_secs * 1_000_000_000) as u128;
            let c = e.tcp_nat@.port_map[p];
            let t = c.last_active;
            let table = swept_at(e.tcp_nat@, timeout, ticks);
            &&& ticks[0] <= t + timeout < ticks.last() ==> exists|i: int|
                #![trigger ticks[i]]
                {
                    let then_table = swept_at(e.tcp_nat@, timeout, ticks.take(i + 1));
                    &&& 0 <= i < ticks.len()
                    &&& ticks[i] <= t + e.udp_timeout_secs * 1_500_000_000
                    &&& !then_table.port_map.contains_key(p)
                    &&& !then_table.addr_map.contains_key(c.source)
                }
            &&& ticks.last() > t + timeout ==> !table.port_map.contains_key(p)
                && !table.addr_map.contains_key(c.source)
            &&& (forall|i: int| 0 <= i < ticks.len() ==> (#[trigger] ticks[i]) <= t + timeout) ==> {
                &&& table.port_map.contains_key(p) && table.port_map[p] == c
                &&& table.addr_map.contains_key(c.source)
            }
        }),
{
    let secs = e.udp_timeout_secs;
    assert(secs * 1_000_000_000 <= u128::MAX);
    let timeout = (secs * 1_000_000_000) as u128;
    let m = e.tcp_nat@;
    let c = m.port_map[p];
    let t = c.last_active;
    lemma_swept_at(m, p, timeout, ticks);
    if ticks.last() > t + timeout {
        assert(expired(c, timeout, ticks[ticks.len() - 1]));
    }
    if ticks[0] <= t + timeout < ticks.last() {
        let i = law_a_sweep_comes(ticks, secs * 500_000_000, t + timeout);
        let seen = ticks.take(i + 1);
        lemma_swept_at(m, p, timeout, seen);
        assert(expired(c, timeout, seen[i]));
        assert(ticks[i] <= t + secs * 1_500_000_000);
    }
}

/// A session that is not used again is gone soon, even if no packet comes: swept once in half the
/// timeout, one that was last seen at some time is gone by one and a half timeouts after that. It
/// is not swept before it has been idle for the timeout.
pub proof fn law_idle_sessions_end(e: TunEngine, k: (SocketAddr, SocketAddr), ticks: Seq<u128>)
    requires
        e.udp_timeout_secs > 0,
        e.udp_sessions@.contains_key(k),
        ticking(ticks, e.udp_timeout_secs * 500_000_000),
        ticks.len() > 0,
    ensures
        ({
            let timeout = (e.udp_timeout_secs * 1_000_000_000) as u128;
            let t = e.udp_sessions@[k];
            let live = live_at(e.udp_sessions@, timeout, ticks);
            &&& ticks[0] <= t + timeout < ticks.last() ==> exists|i: int|
                #![trigger ticks[i]]
                {
                    &&& 0 <= i < ticks.len()
                    &&& ticks[i] <= t + e.udp_timeout_secs * 1_500_000_000
                    &&& !live_at(e.udp_sessions@, timeout, ticks.take(i + 1)).contains_key(k)
                }
            &&& ticks.last() >= t + timeout ==> !live.contains_key(k)
            &&& (forall|i: int| 0 <= i < ticks.len() ==> (#[trigger] ticks[i]) < t + timeout)
                ==> live.contains_key(k) && live[k] == t
        }),
{
    let secs = e.udp_timeout_secs;
    assert(secs * 1_000_000_000 <= u128::MAX);
    let timeout = (secs * 1_000_000_000) as u128;
    let s = e.udp_sessions@;
    let t = s[k];
    lemma_live_at(s, k, timeout, ticks);
    if ticks.last() >= t + timeout {
        assert(!session_live(t, timeout, ticks[ticks.len() - 1]));
    }
    if ticks[0] <= t + timeout < ticks.last() {
        let i = law_a_sweep_comes(ticks, secs * 500_000_000, t + timeout);
        let seen = ticks.take(i + 1);
        lemma_live_at(s, k, timeout, seen);
        assert(!session_live(t, timeout, seen[i]));
        assert(ticks[i] <= t + secs * 1_500_000_000);
    }
}

} // verus!
