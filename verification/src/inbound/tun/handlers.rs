//! What becomes of a packet that was read from the TUN device.
//!
//! TCP goes through a NAT to a listener on the device's own address: a packet from a client is
//! rewritten so that it comes from the address after the device's own and from a port of the NAT,
//! and goes to the listener; a packet from the listener is rewritten back. UDP is handed on with
//! its session. Echo requests to the device are answered.
use bytes::Bytes;
use vstd::prelude::*;

use crate::buf::bytes_contents;
use crate::inbound::tun::frame::{
    Framing, IPPROTO_ICMP, IPPROTO_ICMPV6, IPPROTO_TCP, IPPROTO_UDP,
};
use crate::inbound::tun::packet::{
    field_at, law_udp_v4_reads_back, law_udp_v6_reads_back, parse_udp_v4, parse_udp_v6, read_field,
    udp_packet_v4, udp_packet_v6, udp_payload,
};
use crate::inbound::tun::rewrite::{
    echo_frame_v4, echo_frame_v6, echo_v4, echo_v6, header_len, read_header_len, rewrite_tcp_v4,
    rewrite_tcp_v6, tcp_frame_v4, tcp_frame_v6,
};
use crate::inbound::tun::session::UdpSessions;
use crate::inbound::tun::tcp_nat::{law_port_leads_back, NatModel, TcpNat};
use crate::inbound::Target;
use crate::net::{Ipv4Addr, Ipv6Addr, SocketAddr, SocketAddrV4, SocketAddrV6};
use crate::octets::{be_bytes, be_nat, lemma_be_nat_of_be_bytes, lemma_pow256_widths};

verus! {

/// A datagram on its way to the outbounds.
pub struct UdpDelivery {
    pub data: Bytes,
    pub src: SocketAddr,
    pub target: Target,
    pub inbound_tag: String,
    pub sniffed_protocol: Option<String>,
    pub sniffed_domain: Option<String>,
    /// Whether the datagram opens a session, for which a way back is to be set up.
    pub opens_session: bool,
}

/// What to do with a packet.
pub enum PacketAction {
    /// Nothing.
    Drop,
    /// Write a frame to the device.
    Write(Vec<u8>),
    /// Hand a datagram on.
    Udp(UdpDelivery),
}

/// What to do with a packet, as a mathematical object.
pub enum ActionModel {
    Drop,
    Write(Seq<u8>),
    Udp { src: SocketAddr, dst: SocketAddr, data: Seq<u8> },
}

impl PacketAction {
    /// Whether this is the given action, for an inbound with the given tag and the given
    /// sessions.
    pub open spec fn is_action(
        self,
        model: ActionModel,
        tag: Seq<char>,
        sessions: Map<(SocketAddr, SocketAddr), u128>,
    ) -> bool {
        match (self, model) {
            (PacketAction::Drop, ActionModel::Drop) => true,
            (PacketAction::Write(frame), ActionModel::Write(octets)) => frame@ == octets,
            (PacketAction::Udp(d), ActionModel::Udp { src, dst, data }) => d.is_delivery(
                src,
                dst,
                data,
                tag,
                sessions,
            ),
            _ => false,
        }
    }
}

impl UdpDelivery {
    /// Whether this hands on `data` from `src` to `dst`.
    pub open spec fn is_delivery(
        self,
        src: SocketAddr,
        dst: SocketAddr,
        data: Seq<u8>,
        tag: Seq<char>,
        sessions: Map<(SocketAddr, SocketAddr), u128>,
    ) -> bool {
        &&& bytes_contents(self.data) == data
        &&& self.src == src
        &&& self.target == Target::Socket(dst)
        &&& self.inbound_tag@ == tag
        &&& self.sniffed_protocol is None
        &&& self.sniffed_domain is None
        &&& self.opens_session == !sessions.contains_key((src, dst))
    }
}

/// The sessions after an action.
pub open spec fn sessions_after(
    sessions: Map<(SocketAddr, SocketAddr), u128>,
    model: ActionModel,
    now: u128,
) -> Map<(SocketAddr, SocketAddr), u128> {
    match model {
        ActionModel::Udp { src, dst, .. } => sessions.insert((src, dst), now),
        _ => sessions,
    }
}

/// An IPv4 address and a port.
pub open spec fn sock_v4(ip: Ipv4Addr, port: u16) -> SocketAddr {
    SocketAddr::V4(SocketAddrV4 { ip, port })
}

/// An IPv6 address and a port.
pub open spec fn sock_v6(ip: Ipv6Addr, port: u16) -> SocketAddr {
    SocketAddr::V6(SocketAddrV6 { ip, port, flowinfo: 0, scope_id: 0 })
}

/// The destinations over IPv4 for which there are no connections: broadcast, multicast and
/// unspecified addresses.
pub open spec fn unroutable_v4(ip: Ipv4Addr) -> bool {
    ip.bits == 0xffff_ffff || 0xe000_0000 <= ip.bits <= 0xefff_ffff || ip.bits == 0
}

/// The destinations over IPv6 for which there are no connections: multicast and unspecified
/// addresses.
pub open spec fn unroutable_v6(ip: Ipv6Addr) -> bool {
    ip.bits / 0x100_0000_0000_0000_0000_0000_0000_0000 == 0xff || ip.bits == 0
}

/// The frame that a reply of the listener becomes on its way to the client, if the NAT knows the
/// port that it goes to.
pub open spec fn reply_frame_v4(
    m: NatModel,
    raw: Seq<u8>,
    port: u16,
    framing: Framing,
) -> Option<Seq<u8>> {
    if m.port_map.contains_key(port) {
        match (m.port_map[port].destination, m.port_map[port].source) {
            (SocketAddr::V4(d), SocketAddr::V4(s)) => Some(
                tcp_frame_v4(raw, d.ip, d.port, s.ip, s.port, framing),
            ),
            _ => None,
        }
    } else {
        None
    }
}

/// The frame that a reply of the listener becomes on its way to the client, if the NAT knows the
/// port that it goes to.
pub open spec fn reply_frame_v6(
    m: NatModel,
    raw: Seq<u8>,
    port: u16,
    framing: Framing,
) -> Option<Seq<u8>> {
    if m.port_map.contains_key(port) {
        match (m.port_map[port].destination, m.port_map[port].source) {
            (SocketAddr::V6(d), SocketAddr::V6(s)) => Some(
                tcp_frame_v6(raw, d.ip, d.port, s.ip, s.port, framing),
            ),
            _ => None,
        }
    } else {
        None
    }
}

/// What becomes of a TCP packet over IPv4: the NAT after it, and the frame to write, if any.
pub open spec fn tcp_v4_step(
    m: NatModel,
    raw: Seq<u8>,
    src_ip: Ipv4Addr,
    dst_ip: Ipv4Addr,
    inet4_addr: Option<Ipv4Addr>,
    inet4_next: Option<Ipv4Addr>,
    tcp_port: u16,
    now: u128,
    framing: Framing,
) -> (NatModel, Option<Seq<u8>>) {
    let ihl = header_len(raw);
    let src_port = field_at(raw, ihl);
    let dst_port = field_at(raw, ihl + 2);
    match (inet4_addr, inet4_next) {
        (Some(addr), Some(next)) => if raw.len() < ihl + 20 {
            (m, None)
        } else if src_ip == addr && src_port == tcp_port {
            (m.touched(dst_port, now), reply_frame_v4(m, raw, dst_port, framing))
        } else if unroutable_v4(dst_ip) {
            (m, None)
        } else {
            let src = sock_v4(src_ip, src_port);
            let dst = sock_v4(dst_ip, dst_port);
            (
                m.looked_up(src, dst, now),
                Some(tcp_frame_v4(raw, next, m.port_for(src), addr, tcp_port, framing)),
            )
        },
        _ => (m, None),
    }
}

/// What becomes of a TCP packet over IPv6: the NAT after it, and the frame to write, if any.
pub open spec fn tcp_v6_step(
    m: NatModel,
    raw: Seq<u8>,
    src_ip: Ipv6Addr,
    dst_ip: Ipv6Addr,
    inet6_addr: Option<Ipv6Addr>,
    inet6_next: Option<Ipv6Addr>,
    tcp_port: u16,
    now: u128,
    framing: Framing,
) -> (NatModel, Option<Seq<u8>>) {
    let src_port = field_at(raw, 40);
    let dst_port = field_at(raw, 42);
    match (inet6_addr, inet6_next) {
        (Some(addr), Some(next)) => if raw.len() < 60 {
            (m, None)
        } else if src_ip == addr && src_port == tcp_port {
            (m.touched(dst_port, now), reply_frame_v6(m, raw, dst_port, framing))
        } else if unroutable_v6(dst_ip) {
            (m, None)
        } else {
            let src = sock_v6(src_ip, src_port);
            let dst = sock_v6(dst_ip, dst_port);
            (
                m.looked_up(src, dst, now),
                Some(tcp_frame_v6(raw, next, m.port_for(src), addr, tcp_port, framing)),
            )
        },
        _ => (m, None),
    }
}

/// Whether an ICMP packet over IPv4 is an echo request that the device answers: one to its own
/// address.
pub open spec fn answers_v4(raw: Seq<u8>, dst_ip: Ipv4Addr, inet4_addr: Option<Ipv4Addr>) -> bool {
    let ihl = header_len(raw);
    &&& raw.len() >= ihl + 8
    &&& raw[ihl] == 8
    &&& raw[ihl + 1] == 0
    &&& inet4_addr == Some(dst_ip)
}

/// Whether an ICMP packet over IPv6 is an echo request that the device answers: one to its own
/// address, or, where it has none, one to any address.
pub open spec fn answers_v6(raw: Seq<u8>, dst_ip: Ipv6Addr, inet6_addr: Option<Ipv6Addr>) -> bool {
    &&& raw.len() >= 48
    &&& raw[40] == 128
    &&& inet6_addr matches Some(addr) ==> addr == dst_ip
}

/// The frame to write, if any.
pub open spec fn frame_view(r: Option<Vec<u8>>) -> Option<Seq<u8>> {
    match r {
        Some(v) => Some(v@),
        None => None,
    }
}

/// Handles a TCP packet over IPv4. `tcp_payload` is what follows the IP header.
pub fn handle_tcp_v4(
    raw: &[u8],
    tcp_payload: &[u8],
    src_ip: Ipv4Addr,
    dst_ip: Ipv4Addr,
    inet4_addr: Option<Ipv4Addr>,
    inet4_next: Option<Ipv4Addr>,
    tcp_port: u16,
    tcp_nat: &mut TcpNat,
    now: u128,
    framing: Framing,
) -> (r: Option<Vec<u8>>)
    requires
        header_len(raw@) >= 20,
        raw@.len() >= header_len(raw@),
        tcp_payload@ == raw@.skip(header_len(raw@)),
        old(tcp_nat)@.well_formed(),
    ensures
        final(tcp_nat)@.well_formed(),
        (final(tcp_nat)@, frame_view(r)) == tcp_v4_step(
            old(tcp_nat)@,
            raw@,
            src_ip,
            dst_ip,
            inet4_addr,
            inet4_next,
            tcp_port,
            now,
            framing,
        ),
{
    let (addr, next) = match (inet4_addr, inet4_next) {
        (Some(a), Some(n)) => (a, n),
        _ => {
            return None;
        },
    };
    if tcp_payload.len() < 20 {
        return None;
    }
    let src_port = read_field(tcp_payload, 0);
    let dst_port = read_field(tcp_payload, 2);
    assert(src_port == field_at(raw@, header_len(raw@)));
    assert(dst_port == field_at(raw@, header_len(raw@) + 2));
    if src_ip == addr && src_port == tcp_port {
        let (orig_src, orig_dst) = match tcp_nat.lookup_back(dst_port, now) {
            Some(pair) => pair,
            None => {
                return None;
            },
        };
        return match (orig_dst, orig_src) {
            (SocketAddr::V4(d), SocketAddr::V4(s)) => Some(
                rewrite_tcp_v4(raw, d.ip, d.port, s.ip, s.port, framing),
            ),
            _ => None,
        };
    }
    if dst_ip.is_broadcast() || dst_ip.is_multicast() || dst_ip.is_unspecified() {
        return None;
    }
    let src = SocketAddr::V4(SocketAddrV4 { ip: src_ip, port: src_port });
    let dst = SocketAddr::V4(SocketAddrV4 { ip: dst_ip, port: dst_port });
    let nat_port = tcp_nat.lookup_or_insert(src, dst, now);
    Some(rewrite_tcp_v4(raw, next, nat_port, addr, tcp_port, framing))
}

/// Handles a TCP packet over IPv6. `tcp_payload` is what follows the IP header.
pub fn handle_tcp_v6(
    raw: &[u8],
    tcp_payload: &[u8],
    src_ip: Ipv6Addr,
    dst_ip: Ipv6Addr,
    inet6_addr: Option<Ipv6Addr>,
    inet6_next: Option<Ipv6Addr>,
    tcp_port: u16,
    tcp_nat: &mut TcpNat,
    now: u128,
    framing: Framing,
) -> (r: Option<Vec<u8>>)
    requires
        raw@.len() >= 40,
        tcp_payload@ == raw@.skip(40),
        old(tcp_nat)@.well_formed(),
    ensures
        final(tcp_nat)@.well_formed(),
        (final(tcp_nat)@, frame_view(r)) == tcp_v6_step(
            old(tcp_nat)@,
            raw@,
            src_ip,
            dst_ip,
            inet6_addr,
            inet6_next,
            tcp_port,
            now,
            framing,
        ),
{
    let (addr, next) = match (inet6_addr, inet6_next) {
        (Some(a), Some(n)) => (a, n),
        _ => {
            return None;
        },
    };
    if tcp_payload.len() < 20 {
        return None;
    }
    let src_port = read_field(tcp_payload, 0);
    let dst_port = read_field(tcp_payload, 2);
    assert(src_port == field_at(raw@, 40));
    assert(dst_port == field_at(raw@, 42));
    if src_ip == addr && src_port == tcp_port {
        let (orig_src, orig_dst) = match tcp_nat.lookup_back(dst_port, now) {
            Some(pair) => pair,
            None => {
                return None;
            },
        };
        return match (orig_dst, orig_src) {
            (SocketAddr::V6(d), SocketAddr::V6(s)) => Some(
                rewrite_tcp_v6(raw, d.ip, d.port, s.ip, s.port, framing),
            ),
            _ => None,
        };
    }
    if dst_ip.is_multicast() || dst_ip.is_unspecified() {
        return None;
    }
    let src = SocketAddr::V6(
        SocketAddrV6 { ip: src_ip, port: src_port, flowinfo: 0, scope_id: 0 },
    );
    let dst = SocketAddr::V6(
        SocketAddrV6 { ip: dst_ip, port: dst_port, flowinfo: 0, scope_id: 0 },
    );
    let nat_port = tcp_nat.lookup_or_insert(src, dst, now);
    Some(rewrite_tcp_v6(raw, next, nat_port, addr, tcp_port, framing))
}

/// Handles an ICMP packet over IPv4 with a header of `ihl` octets: an echo request to the device
/// is answered.
pub fn handle_icmpv4(
    raw: &[u8],
    ihl: usize,
    src_ip: Ipv4Addr,
    dst_ip: Ipv4Addr,
    inet4_addr: Option<Ipv4Addr>,
    framing: Framing,
) -> (r: Option<Vec<u8>>)
    requires
        ihl == header_len(raw@),
        20 <= ihl <= raw@.len(),
    ensures
        frame_view(r) == if answers_v4(raw@, dst_ip, inet4_addr) {
            Some(echo_frame_v4(raw@, src_ip, dst_ip, framing))
        } else {
            None
        },
{
    if raw.len() - ihl < 8 {
        return None;
    }
    if raw[ihl] != 8 || raw[ihl + 1] != 0 {
        return None;
    }
    match inet4_addr {
        Some(self_addr) => if dst_ip == self_addr {
            Some(echo_v4(raw, src_ip, dst_ip, framing))
        } else {
            None
        },
        None => None,
    }
}

/// Handles an ICMP packet over IPv6: an echo request to the device is answered.
pub fn handle_icmpv6(
    raw: &[u8],
    src_ip: Ipv6Addr,
    dst_ip: Ipv6Addr,
    inet6_addr: Option<Ipv6Addr>,
    framing: Framing,
) -> (r: Option<Vec<u8>>)
    ensures
        frame_view(r) == if answers_v6(raw@, dst_ip, inet6_addr) {
            Some(echo_frame_v6(raw@, src_ip, dst_ip, framing))
        } else {
            None
        },
{
    if raw.len() < 48 {
        return None;
    }
    if raw[40] != 128 {
        return None;
    }
    if let Some(self_addr) = inet6_addr {
        if dst_ip != self_addr {
            return None;
        }
    }
    Some(echo_v6(raw, src_ip, dst_ip, framing))
}

/// The IPv4 address at `at`.
pub open spec fn addr_v4_at(raw: Seq<u8>, at: int) -> Ipv4Addr {
    Ipv4Addr { bits: be_nat(raw.subrange(at, at + 4)) as u32 }
}

/// The IPv6 address at `at`.
pub open spec fn addr_v6_at(raw: Seq<u8>, at: int) -> Ipv6Addr {
    Ipv6Addr { bits: be_nat(raw.subrange(at, at + 16)) as u128 }
}

/// Whether an IPv4 packet is a fragment: more fragments follow it, or its own offset is not zero.
pub open spec fn fragment(raw: Seq<u8>) -> bool {
    let flags = field_at(raw, 6);
    (flags / 0x2000) % 2 == 1 || flags % 0x2000 != 0
}

/// The action of writing a frame, if there is one.
pub open spec fn write_action(frame: Option<Seq<u8>>) -> ActionModel {
    match frame {
        Some(octets) => ActionModel::Write(octets),
        None => ActionModel::Drop,
    }
}

/// What becomes of an IPv4 packet: the NAT after it, and what to do.
pub open spec fn ipv4_step(
    m: NatModel,
    raw: Seq<u8>,
    inet4_addr: Option<Ipv4Addr>,
    inet4_next: Option<Ipv4Addr>,
    tcp_port: u16,
    now: u128,
    framing: Framing,
) -> (NatModel, ActionModel) {
    let ihl = header_len(raw);
    let src_ip = addr_v4_at(raw, 12);
    let dst_ip = addr_v4_at(raw, 16);
    if raw.len() < 20 || raw.len() < ihl || ihl < 20 || fragment(raw) {
        (m, ActionModel::Drop)
    } else if raw[9] == IPPROTO_TCP {
        let (after, frame) = tcp_v4_step(
            m,
            raw,
            src_ip,
            dst_ip,
            inet4_addr,
            inet4_next,
            tcp_port,
            now,
            framing,
        );
        (after, write_action(frame))
    } else if raw[9] == IPPROTO_UDP && raw.len() >= ihl + 8 {
        let udp = raw.skip(ihl);
        (
            m,
            ActionModel::Udp {
                src: sock_v4(src_ip, field_at(udp, 0)),
                dst: sock_v4(dst_ip, field_at(udp, 2)),
                data: udp_payload(udp),
            },
        )
    } else if raw[9] == IPPROTO_ICMP && answers_v4(raw, dst_ip, inet4_addr) {
        (m, ActionModel::Write(echo_frame_v4(raw, src_ip, dst_ip, framing)))
    } else {
        (m, ActionModel::Drop)
    }
}

/// What becomes of an IPv6 packet: the NAT after it, and what to do.
pub open spec fn ipv6_step(
    m: NatModel,
    raw: Seq<u8>,
    inet6_addr: Option<Ipv6Addr>,
    inet6_next: Option<Ipv6Addr>,
    tcp_port: u16,
    now: u128,
    framing: Framing,
) -> (NatModel, ActionModel) {
    let src_ip = addr_v6_at(raw, 8);
    let dst_ip = addr_v6_at(raw, 24);
    if raw.len() < 40 {
        (m, ActionModel::Drop)
    } else if raw[6] == IPPROTO_TCP {
        let (after, frame) = tcp_v6_step(
            m,
            raw,
            src_ip,
            dst_ip,
            inet6_addr,
            inet6_next,
            tcp_port,
            now,
            framing,
        );
        (after, write_action(frame))
    } else if raw[6] == IPPROTO_UDP && raw.len() >= 48 {
        let udp = raw.skip(40);
        (
            m,
            ActionModel::Udp {
                src: sock_v6(src_ip, field_at(udp, 0)),
                dst: sock_v6(dst_ip, field_at(udp, 2)),
                data: udp_payload(udp),
            },
        )
    } else if raw[6] == IPPROTO_ICMPV6 && answers_v6(raw, dst_ip, inet6_addr) {
        (m, ActionModel::Write(echo_frame_v6(raw, src_ip, dst_ip, framing)))
    } else {
        (m, ActionModel::Drop)
    }
}

/// Hands a datagram on, and notes its session.
pub fn dispatch_udp(
    src: SocketAddr,
    dst: SocketAddr,
    data: Bytes,
    tag: &String,
    udp_sessions: &mut UdpSessions,
    now: u128,
) -> (r: UdpDelivery)
    ensures
        r.is_delivery(src, dst, bytes_contents(data), tag@, old(udp_sessions)@),
        final(udp_sessions)@ == old(udp_sessions)@.insert((src, dst), now),
{
    let opens_session = udp_sessions.touch(src, dst, now);
    UdpDelivery {
        data,
        src,
        target: Target::Socket(dst),
        inbound_tag: tag.clone(),
        sniffed_protocol: None,
        sniffed_domain: None,
        opens_session,
    }
}

/// The action of writing a frame, if there is one.
fn write_or_drop(frame: Option<Vec<u8>>) -> (r: PacketAction)
    ensures
        r == match frame {
            Some(v) => PacketAction::Write(v),
            None => PacketAction::Drop,
        },
{
    match frame {
        Some(v) => PacketAction::Write(v),
        None => PacketAction::Drop,
    }
}

/// Decides what becomes of an IPv4 packet.
pub fn process_ipv4(
    raw: &[u8],
    inet4_addr: Option<Ipv4Addr>,
    inet4_next: Option<Ipv4Addr>,
    tcp_port: u16,
    tag: &String,
    tcp_nat: &mut TcpNat,
    udp_sessions: &mut UdpSessions,
    now: u128,
    framing: Framing,
) -> (r: PacketAction)
    requires
        old(tcp_nat)@.well_formed(),
    ensures
        final(tcp_nat)@.well_formed(),
        ({
            let (after, model) = ipv4_step(
                old(tcp_nat)@,
                raw@,
                inet4_addr,
                inet4_next,
                tcp_port,
                now,
                framing,
            );
            &&& final(tcp_nat)@ == after
            &&& r.is_action(model, tag@, old(udp_sessions)@)
            &&& final(udp_sessions)@ == sessions_after(old(udp_sessions)@, model, now)
        }),
{
    if raw.len() < 20 {
        return PacketAction::Drop;
    }
    let ihl = read_header_len(raw);
    if raw.len() < ihl || ihl < 20 {
        return PacketAction::Drop;
    }
    let proto = raw[9];
    let flags_frag = read_field(raw, 6);
    let more_fragments = (flags_frag / 0x2000) % 2 == 1;
    let frag_offset = flags_frag % 0x2000;
    if more_fragments || frag_offset != 0 {
        return PacketAction::Drop;
    }
    let src_ip = Ipv4Addr::read(raw, 12);
    let dst_ip = Ipv4Addr::read(raw, 16);
    let payload = vstd::slice::slice_subrange(raw, ihl, raw.len());
    assert(payload@ =~= raw@.skip(header_len(raw@)));
    if proto == IPPROTO_TCP {
        write_or_drop(
            handle_tcp_v4(
                raw,
                payload,
                src_ip,
                dst_ip,
                inet4_addr,
                inet4_next,
                tcp_port,
                tcp_nat,
                now,
                framing,
            ),
        )
    } else if proto == IPPROTO_UDP {
        match parse_udp_v4(payload, src_ip, dst_ip) {
            Some((src, dst, data)) => PacketAction::Udp(
                dispatch_udp(src, dst, data, tag, udp_sessions, now),
            ),
            None => PacketAction::Drop,
        }
    } else if proto == IPPROTO_ICMP {
        write_or_drop(handle_icmpv4(raw, ihl, src_ip, dst_ip, inet4_addr, framing))
    } else {
        PacketAction::Drop
    }
}

/// Decides what becomes of an IPv6 packet.
pub fn process_ipv6(
    raw: &[u8],
    inet6_addr: Option<Ipv6Addr>,
    inet6_next: Option<Ipv6Addr>,
    tcp_port: u16,
    tag: &String,
    tcp_nat: &mut TcpNat,
    udp_sessions: &mut UdpSessions,
    now: u128,
    framing: Framing,
) -> (r: PacketAction)
    requires
        old(tcp_nat)@.well_formed(),
    ensures
        final(tcp_nat)@.well_formed(),
        ({
            let (after, model) = ipv6_step(
                old(tcp_nat)@,
                raw@,
                inet6_addr,
                inet6_next,
                tcp_port,
                now,
                framing,
            );
            &&& final(tcp_nat)@ == after
            &&& r.is_action(model, tag@, old(udp_sessions)@)
            &&& final(udp_sessions)@ == sessions_after(old(udp_sessions)@, model, now)
        }),
{
    if raw.len() < 40 {
        return PacketAction::Drop;
    }
    let proto = raw[6];
    let src_ip = Ipv6Addr::read(raw, 8);
    let dst_ip = Ipv6Addr::read(raw, 24);
    let payload = vstd::slice::slice_subrange(raw, 40, raw.len());
    assert(payload@ =~= raw@.skip(40));
    if proto == IPPROTO_TCP {
        write_or_drop(
            handle_tcp_v6(
                raw,
                payload,
                src_ip,
                dst_ip,
                inet6_addr,
                inet6_next,
                tcp_port,
                tcp_nat,
                now,
                framing,
            ),
        )
    } else if proto == IPPROTO_UDP {
        match parse_udp_v6(payload, src_ip, dst_ip) {
            Some((src, dst, data)) => PacketAction::Udp(
                dispatch_udp(src, dst, data, tag, udp_sessions, now),
            ),
            None => PacketAction::Drop,
        }
    } else if proto == IPPROTO_ICMPV6 {
        write_or_drop(handle_icmpv6(raw, src_ip, dst_ip, inet6_addr, framing))
    } else {
        PacketAction::Drop
    }
}

/// What the NAT does to a packet of a connection over IPv4 is undone on the way back: the packet
/// goes to the listener from a port of the NAT, by that port the NAT knows the destination, and a
/// reply of the listener to that port goes to the client as if from the destination. A source that
/// already has a connection to another destination is left out: its replies come from that other
/// destination.
pub proof fn law_nat_round_trip_v4(
    m: NatModel,
    raw: Seq<u8>,
    src_ip: Ipv4Addr,
    dst_ip: Ipv4Addr,
    addr: Ipv4Addr,
    next: Ipv4Addr,
    tcp_port: u16,
    now: u128,
    reply: Seq<u8>,
    later: u128,
    framing: Framing,
)
    requires
        m.well_formed(),
        header_len(raw) >= 20,
        raw.len() >= header_len(raw) + 20,
        !(src_ip == addr && field_at(raw, header_len(raw)) == tcp_port),
        !unroutable_v4(dst_ip),
        ({
            let src = sock_v4(src_ip, field_at(raw, header_len(raw)));
            m.addr_map.contains_key(src) ==> m.port_map[m.addr_map[src]].destination == sock_v4(
                dst_ip,
                field_at(raw, header_len(raw) + 2),
            )
        }),
        header_len(reply) >= 20,
        reply.len() >= header_len(reply) + 20,
    ensures
        ({
            let src_port = field_at(raw, header_len(raw));
            let dst_port = field_at(raw, header_len(raw) + 2);
            let port = m.port_for(sock_v4(src_ip, src_port));
            let (after, frame) = tcp_v4_step(
                m,
                raw,
                src_ip,
                dst_ip,
                Some(addr),
                Some(next),
                tcp_port,
                now,
                framing,
            );
            let (_, back) = tcp_v4_step(
                after,
                reply,
                addr,
                next,
                Some(addr),
                Some(next),
                tcp_port,
                later,
                framing,
            );
            &&& frame == Some(tcp_frame_v4(raw, next, port, addr, tcp_port, framing))
            &&& after.port_map.contains_key(port)
            &&& after.port_map[port].destination == sock_v4(dst_ip, dst_port)
            &&& field_at(reply, header_len(reply)) == tcp_port && field_at(reply, header_len(reply) + 2)
                == port ==> back == Some(
                tcp_frame_v4(reply, dst_ip, dst_port, src_ip, src_port, framing),
            )
        }),
{
    law_port_leads_back(
        m,
        sock_v4(src_ip, field_at(raw, header_len(raw))),
        sock_v4(dst_ip, field_at(raw, header_len(raw) + 2)),
        now,
    );
}

/// What the NAT does to a packet of a connection over IPv6 is undone on the way back: the packet
/// goes to the listener from a port of the NAT, by that port the NAT knows the destination, and a
/// reply of the listener to that port goes to the client as if from the destination. A source that
/// already has a connection to another destination is left out: its replies come from that other
/// destination.
pub proof fn law_nat_round_trip_v6(
    m: NatModel,
    raw: Seq<u8>,
    src_ip: Ipv6Addr,
    dst_ip: Ipv6Addr,
    addr: Ipv6Addr,
    next: Ipv6Addr,
    tcp_port: u16,
    now: u128,
    reply: Seq<u8>,
    later: u128,
    framing: Framing,
)
    requires
        m.well_formed(),
        raw.len() >= 60,
        !(src_ip == addr && field_at(raw, 40) == tcp_port),
        !unroutable_v6(dst_ip),
        ({
            let src = sock_v6(src_ip, field_at(raw, 40));
            m.addr_map.contains_key(src) ==> m.port_map[m.addr_map[src]].destination == sock_v6(
                dst_ip,
                field_at(raw, 42),
            )
        }),
        reply.len() >= 60,
    ensures
        ({
            let src_port = field_at(raw, 40);
            let dst_port = field_at(raw, 42);
            let port = m.port_for(sock_v6(src_ip, src_port));
            let (after, frame) = tcp_v6_step(
                m,
                raw,
                src_ip,
                dst_ip,
                Some(addr),
                Some(next),
                tcp_port,
                now,
                framing,
            );
            let (_, back) = tcp_v6_step(
                after,
                reply,
                addr,
                next,
                Some(addr),
                Some(next),
                tcp_port,
                later,
                framing,
            );
            &&& frame == Some(tcp_frame_v6(raw, next, port, addr, tcp_port, framing))
            &&& after.port_map.contains_key(port)
            &&& after.port_map[port].destination == sock_v6(dst_ip, dst_port)
            &&& field_at(reply, 40) == tcp_port && field_at(reply, 42)
                == port ==> back == Some(
                tcp_frame_v6(reply, dst_ip, dst_port, src_ip, src_port, framing),
            )
        }),
{
    law_port_leads_back(
        m,
        sock_v6(src_ip, field_at(raw, 40)),
        sock_v6(dst_ip, field_at(raw, 42)),
        now,
    );
}

/// A fragment changes nothing and nothing is done with it.
pub proof fn law_fragments_are_dropped(
    m: NatModel,
    raw: Seq<u8>,
    inet4_addr: Option<Ipv4Addr>,
    inet4_next: Option<Ipv4Addr>,
    tcp_port: u16,
    now: u128,
    framing: Framing,
)
    requires
        raw.len() >= 20,
        field_at(raw, 6) % 0x4000 != 0,
    ensures
        ipv4_step(m, raw, inet4_addr, inet4_next, tcp_port, now, framing) == (m, ActionModel::Drop),
{
}

/// A datagram that is put into an IPv4 packet and read from it is handed on as it was.
pub proof fn law_datagram_round_trip_v4(
    m: NatModel,
    src: SocketAddrV4,
    dst: SocketAddrV4,
    payload: Seq<u8>,
    inet4_addr: Option<Ipv4Addr>,
    inet4_next: Option<Ipv4Addr>,
    tcp_port: u16,
    now: u128,
    framing: Framing,
)
    requires
        payload.len() <= 65507,
    ensures
        ipv4_step(
            m,
            udp_packet_v4(src, dst, payload),
            inet4_addr,
            inet4_next,
            tcp_port,
            now,
            framing,
        ) == (
            m,
            ActionModel::Udp {
                src: SocketAddr::V4(src),
                dst: SocketAddr::V4(dst),
                data: payload,
            },
        ),
{
    law_udp_v4_reads_back(src, dst, payload);
    lemma_udp_step_v4(
        m,
        udp_packet_v4(src, dst, payload),
        src,
        dst,
        inet4_addr,
        inet4_next,
        tcp_port,
        now,
        framing,
    );
}

/// What becomes of a whole IPv4 packet with a datagram.
proof fn lemma_udp_step_v4(
    m: NatModel,
    pkt: Seq<u8>,
    src: SocketAddrV4,
    dst: SocketAddrV4,
    inet4_addr: Option<Ipv4Addr>,
    inet4_next: Option<Ipv4Addr>,
    tcp_port: u16,
    now: u128,
    framing: Framing,
)
    requires
        pkt.len() >= 28,
        pkt[0] == 0x45,
        field_at(pkt, 6) == 0x4000,
        pkt[9] == IPPROTO_UDP,
        pkt.subrange(12, 16) == be_bytes(src.ip.bits as nat, 4),
        pkt.subrange(16, 20) == be_bytes(dst.ip.bits as nat, 4),
        field_at(pkt.skip(20), 0) == src.port,
        field_at(pkt.skip(20), 2) == dst.port,
    ensures
        ipv4_step(m, pkt, inet4_addr, inet4_next, tcp_port, now, framing) == (
            m,
            ActionModel::Udp {
                src: SocketAddr::V4(src),
                dst: SocketAddr::V4(dst),
                data: udp_payload(pkt.skip(20)),
            },
        ),
{
    lemma_pow256_widths();
    lemma_be_nat_of_be_bytes(src.ip.bits as nat, 4);
    lemma_be_nat_of_be_bytes(dst.ip.bits as nat, 4);
}

/// A datagram that is put into an IPv6 packet and read from it is handed on as it was.
pub proof fn law_datagram_round_trip_v6(
    m: NatModel,
    src: SocketAddrV6,
    dst: SocketAddrV6,
    payload: Seq<u8>,
    inet6_addr: Option<Ipv6Addr>,
    inet6_next: Option<Ipv6Addr>,
    tcp_port: u16,
    now: u128,
    framing: Framing,
)
    requires
        payload.len() <= 65527,
    ensures
        ipv6_step(
            m,
            udp_packet_v6(src, dst, payload),
            inet6_addr,
            inet6_next,
            tcp_port,
            now,
            framing,
        ) == (
            m,
            ActionModel::Udp {
                src: sock_v6(src.ip, src.port),
                dst: sock_v6(dst.ip, dst.port),
                data: payload,
            },
        ),
{
    law_udp_v6_reads_back(src, dst, payload);
    let pkt = udp_packet_v6(src, dst, payload);
    lemma_pow256_widths();
    lemma_be_nat_of_be_bytes(src.ip.bits as nat, 16);
    lemma_be_nat_of_be_bytes(dst.ip.bits as nat, 16);
    assert(addr_v6_at(pkt, 8) == src.ip);
    assert(addr_v6_at(pkt, 24) == dst.ip);
}

} // verus!
