//! What the TUN inbound does with the frames that it reads, told octet by octet.
use vstd::prelude::*;

use crate::buf::bytes_contents;
use crate::inbound::tun::checksum::{
    checksum_of, holds_ipv4_header, ipv4_checksummed, law_ipv4_checksum_verifies,
    law_tcp_v4_checksum_verifies, law_v6_checksum_verifies, ones_fold, pseudo_v4, pseudo_v6,
    tcp_v4_checksummed, v6_checksummed, word_sum,
};
use crate::inbound::tun::engine::TunEngine;
use crate::inbound::tun::frame::Framing;
use crate::inbound::tun::handlers::{
    addr_v4_at, addr_v6_at, ipv4_step, ipv6_step, reply_frame_v4, reply_frame_v6, sessions_after,
    tcp_v4_step, tcp_v6_step, write_action, ActionModel, PacketAction,
};
use crate::inbound::tun::packet::{
    field_at, law_udp_v4_reads_back, law_udp_v6_reads_back, udp_packet_v4, udp_packet_v6,
    udp_payload,
};
use crate::inbound::tun::rewrite::{
    echo_frame_v4, echo_frame_v6, law_echo_frame_v4, law_echo_frame_v6, law_tcp_frame_v4,
    law_tcp_frame_v6, tcp_frame_v4, tcp_frame_v6,
};
use crate::inbound::tun::tcp_nat::{
    law_free_port_is_found, law_port_leads_back, nat_port, NatModel, TcpNatEntry,
};
use crate::inbound::Target;
use crate::net::{Ipv4Addr, Ipv6Addr, SocketAddr, SocketAddrV4, SocketAddrV6};
use crate::octets::{
    be_bytes, lemma_be_bytes_2, lemma_be_bytes_len, lemma_be_nat_of_be_bytes, lemma_pow256_widths,
};

verus! {

/// How many octets precede a packet.
pub open spec fn lead(framing: Framing) -> int {
    match framing {
        Framing::PacketInfo => 4,
        Framing::Bare => 0,
    }
}

/// Whether a frame carries a packet behind the right lead: the last two octets of a packet
/// information header are `hi` and `lo`.
pub open spec fn leads_with(frame: Seq<u8>, framing: Framing, hi: u8, lo: u8) -> bool {
    match framing {
        Framing::PacketInfo => frame.take(4) == seq![0u8, 0u8, hi, lo],
        Framing::Bare => true,
    }
}

/// The two octets at `at` as a number.
pub open spec fn pair_at(s: Seq<u8>, at: int) -> int {
    s[at] * 256 + s[at + 1]
}

/// Whether the sixteen-bit words of some octets add up to all ones, as those do that hold their
/// own checksum.
pub open spec fn adds_up(s: Seq<u8>) -> bool {
    word_sum(s) > 0 && word_sum(s) % 0xffff == 0
}

/// Where the payload of an IPv4 packet starts.
pub open spec fn body_v4(pkt: Seq<u8>) -> int {
    (pkt[0] % 16) * 4
}

/// Whether a packet is a whole IPv4 packet of a protocol, no fragment, with at least `least`
/// octets of payload. The flag that forbids fragments may be set or not.
pub open spec fn whole_v4(pkt: Seq<u8>, proto: u8, least: int) -> bool {
    &&& pkt.len() >= 20
    &&& pkt[0] / 16 == 4
    &&& body_v4(pkt) >= 20
    &&& pkt.len() >= body_v4(pkt) + least
    &&& pkt[6] % 64 == 0
    &&& pkt[7] == 0
    &&& pkt[9] == proto
}

/// Whether a packet is an IPv6 packet of a protocol with at least `least` octets of payload.
pub open spec fn whole_v6(pkt: Seq<u8>, proto: u8, least: int) -> bool {
    &&& pkt.len() >= 40 + least
    &&& pkt[0] / 16 == 6
    &&& pkt[6] == proto
}

/// Whether an IPv4 packet goes from one address to another.
pub open spec fn goes_v4(pkt: Seq<u8>, src: Ipv4Addr, dst: Ipv4Addr) -> bool {
    &&& pkt.subrange(12, 16) == be_bytes(src.bits as nat, 4)
    &&& pkt.subrange(16, 20) == be_bytes(dst.bits as nat, 4)
}

/// Whether an IPv6 packet goes from one address to another.
pub open spec fn goes_v6(pkt: Seq<u8>, src: Ipv6Addr, dst: Ipv6Addr) -> bool {
    &&& pkt.subrange(8, 24) == be_bytes(src.bits as nat, 16)
    &&& pkt.subrange(24, 40) == be_bytes(dst.bits as nat, 16)
}

/// Whether the payload of a packet goes from one port to another.
pub open spec fn ports_at(pkt: Seq<u8>, at: int, src_port: u16, dst_port: u16) -> bool {
    pair_at(pkt, at) == src_port && pair_at(pkt, at + 2) == dst_port
}

/// Whether a frame holds the packet of another, sent from and to other places over IPv4: nothing
/// but the addresses, the ports and the checksums differs, and both checksums are right.
pub open spec fn forwarded_v4(
    out: Seq<u8>,
    pkt: Seq<u8>,
    src: SocketAddrV4,
    dst: SocketAddrV4,
    framing: Framing,
) -> bool {
    let q = out.skip(lead(framing));
    let at = body_v4(pkt);
    let n = pkt.len() - at;
    &&& out.len() == lead(framing) + pkt.len()
    &&& leads_with(out, framing, 0x08, 0x00)
    &&& goes_v4(q, src.ip, dst.ip)
    &&& ports_at(q, at, src.port, dst.port)
    &&& forall|i: int|
        0 <= i < pkt.len() && !(10 <= i < 20) && !(at <= i < at + 4) && !(at + 16 <= i < at + 18)
            ==> q[i] == pkt[i]
    &&& adds_up(q.take(at))
    &&& adds_up(
        q.subrange(12, 20) + seq![0u8, 6u8, ((n / 256) % 256) as u8, (n % 256) as u8] + q.skip(at),
    )
}

/// Whether a frame holds the packet of another, sent from and to other places over IPv6: nothing
/// but the addresses, the ports and the checksum differs, and the checksum is right.
pub open spec fn forwarded_v6(
    out: Seq<u8>,
    pkt: Seq<u8>,
    src: SocketAddrV6,
    dst: SocketAddrV6,
    framing: Framing,
) -> bool {
    let q = out.skip(lead(framing));
    &&& out.len() == lead(framing) + pkt.len()
    &&& leads_with(out, framing, 0x86, 0xdd)
    &&& goes_v6(q, src.ip, dst.ip)
    &&& ports_at(q, 40, src.port, dst.port)
    &&& forall|i: int|
        0 <= i < pkt.len() && !(8 <= i < 44) && !(56 <= i < 58) ==> q[i] == pkt[i]
    &&& adds_up(
        q.subrange(8, 40) + be_bytes((pkt.len() - 40) as nat, 4) + seq![0u8, 0u8, 0u8, 6u8]
            + q.skip(40),
    )
}

/// Whether a TCP packet over IPv4 goes back the way of another.
pub open spec fn answers_v4(answer: Seq<u8>, pkt: Seq<u8>) -> bool {
    &&& answer.subrange(12, 16) == pkt.subrange(16, 20)
    &&& answer.subrange(16, 20) == pkt.subrange(12, 16)
    &&& pair_at(answer, body_v4(answer)) == pair_at(pkt, body_v4(pkt) + 2)
    &&& pair_at(answer, body_v4(answer) + 2) == pair_at(pkt, body_v4(pkt))
}

/// Whether a TCP packet over IPv6 goes back the way of another.
pub open spec fn answers_v6(answer: Seq<u8>, pkt: Seq<u8>) -> bool {
    &&& answer.subrange(8, 24) == pkt.subrange(24, 40)
    &&& answer.subrange(24, 40) == pkt.subrange(8, 24)
    &&& pair_at(answer, 40) == pair_at(pkt, 42)
    &&& pair_at(answer, 42) == pair_at(pkt, 40)
}

/// Whether an IPv4 address is one that connections can go to: not broadcast, not multicast, not
/// unspecified.
pub open spec fn reachable_v4(ip: Ipv4Addr) -> bool {
    ip.bits != 0 && ip.bits != 0xffff_ffff && ip.bits / 0x1000_0000 != 14
}

/// Whether an IPv6 address is one that connections can go to: not multicast, not unspecified.
pub open spec fn reachable_v6(ip: Ipv6Addr) -> bool {
    ip.bits != 0 && ip.bits / 0x100_0000_0000_0000_0000_0000_0000_0000 != 0xff
}

/// Whether the NAT holds the connection of a source after a packet from it: a port of its own, at
/// which it stands with the destination that it had, or else with that of the packet.
pub open spec fn holds_connection(
    before: NatModel,
    after: NatModel,
    src: SocketAddr,
    dst: SocketAddr,
    port: u16,
    now: u128,
) -> bool {
    &&& 10000 <= port <= 60000
    &&& after.addr_map.contains_key(src) && after.addr_map[src] == port
    &&& after.port_map.contains_key(port)
    &&& after.port_map[port] == (TcpNatEntry {
        source: src,
        destination: if before.addr_map.contains_key(src) {
            before.port_map[before.addr_map[src]].destination
        } else {
            dst
        },
        last_active: now,
    })
    &&& before.addr_map.contains_key(src) ==> port == before.addr_map[src]
    &&& !before.addr_map.contains_key(src) && (exists|p: u16|
        10000 <= p <= 60000 && !#[trigger] before.port_map.contains_key(p))
        ==> !before.port_map.contains_key(port)
    &&& forall|p: u16|
        p != port ==> (#[trigger] after.port_map.contains_key(p)) == before.port_map.contains_key(p)
            && after.port_map[p] == before.port_map[p]
    &&& forall|s: SocketAddr|
        s != src && !(before.port_map.contains_key(port) && before.port_map[port].source == s)
            ==> (#[trigger] after.addr_map.contains_key(s)) == before.addr_map.contains_key(s)
            && after.addr_map[s] == before.addr_map[s]
}

/// Whether nothing but the time of last use of the connection at a port differs.
pub open spec fn marks_use(before: NatModel, after: NatModel, port: u16, now: u128) -> bool {
    &&& after.port_index == before.port_index
    &&& after.addr_map == before.addr_map
    &&& forall|p: u16|
        (#[trigger] after.port_map.contains_key(p)) == before.port_map.contains_key(p)
    &&& forall|p: u16|
        p != port && before.port_map.contains_key(p) ==> #[trigger] after.port_map[p]
            == before.port_map[p]
    &&& before.port_map.contains_key(port) ==> after.port_map[port] == (TcpNatEntry {
        source: before.port_map[port].source,
        destination: before.port_map[port].destination,
        last_active: now,
    })
}

proof fn lemma_adds_up(s: Seq<u8>)
    requires
        checksum_of(s) == 0,
    ensures
        adds_up(s),
{
    let n = word_sum(s);
    assert(ones_fold(n) <= 0xffff);
    assert(ones_fold(n) == 0xffff);
    assert((n - 1) % 0xffff == 0xfffe);
    assert(n % 0xffff == 0);
}

/// A checksum over the pseudo header of IPv4 verifies, octet by octet.
proof fn lemma_pseudo_v4(q: Seq<u8>, at: int, proto: u8)
    requires
        20 <= at <= q.len(),
        checksum_of(
            pseudo_v4(q.subrange(12, 16), q.subrange(16, 20), proto, q.skip(at).len()) + q.skip(at),
        ) == 0,
    ensures
        ({
            let n = q.len() - at;
            adds_up(
                q.subrange(12, 20) + seq![0u8, proto, ((n / 256) % 256) as u8, (n % 256) as u8]
                    + q.skip(at),
            )
        }),
{
    let n = (q.len() - at) as nat;
    lemma_be_bytes_2(n);
    let pseudo = pseudo_v4(q.subrange(12, 16), q.subrange(16, 20), proto, n);
    assert(pseudo =~= q.subrange(12, 20) + seq![
        0u8,
        proto,
        ((n / 256) % 256) as u8,
        (n % 256) as u8,
    ]);
    lemma_adds_up(pseudo + q.skip(at));
}

/// A checksum over the pseudo header of IPv6 verifies, octet by octet.
proof fn lemma_pseudo_v6(q: Seq<u8>, proto: u8)
    requires
        q.len() >= 40,
        checksum_of(
            pseudo_v6(q.subrange(8, 24), q.subrange(24, 40), proto, q.skip(40).len()) + q.skip(40),
        ) == 0,
    ensures
        adds_up(
            q.subrange(8, 40) + be_bytes((q.len() - 40) as nat, 4) + seq![0u8, 0u8, 0u8, proto]
                + q.skip(40),
        ),
{
    let n = (q.len() - 40) as nat;
    lemma_be_bytes_len(n, 4);
    let pseudo = pseudo_v6(q.subrange(8, 24), q.subrange(24, 40), proto, n);
    assert(pseudo =~= q.subrange(8, 40) + be_bytes(n, 4) + seq![0u8, 0u8, 0u8, proto]);
    lemma_adds_up(pseudo + q.skip(40));
}

/// The frame that a rewritten TCP packet over IPv4 becomes.
#[verifier::spinoff_prover]
pub proof fn lemma_forwarded_v4(
    pkt: Seq<u8>,
    src: Ipv4Addr,
    src_port: u16,
    dst: Ipv4Addr,
    dst_port: u16,
    framing: Framing,
)
    requires
        pkt.len() >= 20,
        body_v4(pkt) >= 20,
        pkt.len() >= body_v4(pkt) + 20,
    ensures
        forwarded_v4(
            tcp_frame_v4(pkt, src, src_port, dst, dst_port, framing),
            pkt,
            SocketAddrV4 { ip: src, port: src_port },
            SocketAddrV4 { ip: dst, port: dst_port },
            framing,
        ),
{
    let out = tcp_frame_v4(pkt, src, src_port, dst, dst_port, framing);
    let q = out.skip(lead(framing));
    let at = body_v4(pkt);
    law_tcp_frame_v4(pkt, src, src_port, dst, dst_port, framing);
    lemma_adds_up(q.take(at));
    lemma_pseudo_v4(q, at, 6);
}

/// The frame that a rewritten TCP packet over IPv6 becomes.
#[verifier::spinoff_prover]
pub proof fn lemma_forwarded_v6(
    pkt: Seq<u8>,
    src: Ipv6Addr,
    src_port: u16,
    dst: Ipv6Addr,
    dst_port: u16,
    framing: Framing,
)
    requires
        pkt.len() >= 60,
    ensures
        forwarded_v6(
            tcp_frame_v6(pkt, src, src_port, dst, dst_port, framing),
            pkt,
            SocketAddrV6 { ip: src, port: src_port, flowinfo: 0, scope_id: 0 },
            SocketAddrV6 { ip: dst, port: dst_port, flowinfo: 0, scope_id: 0 },
            framing,
        ),
{
    let out = tcp_frame_v6(pkt, src, src_port, dst, dst_port, framing);
    let q = out.skip(lead(framing));
    law_tcp_frame_v6(pkt, src, src_port, dst, dst_port, framing);
    lemma_pseudo_v6(q, 6);
}

/// The addresses that a packet goes from and to.
proof fn lemma_addresses_v4(pkt: Seq<u8>, src: Ipv4Addr, dst: Ipv4Addr)
    requires
        pkt.len() >= 20,
        goes_v4(pkt, src, dst),
    ensures
        addr_v4_at(pkt, 12) == src,
        addr_v4_at(pkt, 16) == dst,
{
    lemma_pow256_widths();
    lemma_be_nat_of_be_bytes(src.bits as nat, 4);
    lemma_be_nat_of_be_bytes(dst.bits as nat, 4);
}

/// The addresses that a packet goes from and to.
proof fn lemma_addresses_v6(pkt: Seq<u8>, src: Ipv6Addr, dst: Ipv6Addr)
    requires
        pkt.len() >= 40,
        goes_v6(pkt, src, dst),
    ensures
        addr_v6_at(pkt, 8) == src,
        addr_v6_at(pkt, 24) == dst,
{
    lemma_pow256_widths();
    lemma_be_nat_of_be_bytes(src.bits as nat, 16);
    lemma_be_nat_of_be_bytes(dst.bits as nat, 16);
}

/// What the NAT holds after a packet from a source.
pub proof fn lemma_holds_connection(m: NatModel, src: SocketAddr, dst: SocketAddr, now: u128)
    requires
        m.well_formed(),
    ensures
        holds_connection(m, m.looked_up(src, dst, now), src, dst, m.port_for(src), now),
{
    law_port_leads_back(m, src, dst, now);
    law_free_port_is_found(m);
}

/// What becomes of a packet of a connection over IPv4.
proof fn lemma_forward_step_v4(
    e: TunEngine,
    frame: Seq<u8>,
    src: SocketAddrV4,
    dst: SocketAddrV4,
    addr: Ipv4Addr,
    next: Ipv4Addr,
    now: u128,
)
    requires
        frame.len() >= lead(e.framing),
        whole_v4(frame.skip(lead(e.framing)), 6, 20),
        goes_v4(frame.skip(lead(e.framing)), src.ip, dst.ip),
        ports_at(
            frame.skip(lead(e.framing)),
            body_v4(frame.skip(lead(e.framing))),
            src.port,
            dst.port,
        ),
        e.inet4_addr == Some(addr),
        e.inet4_next == Some(next),
        !(src.ip == addr && src.port == e.tcp_port_v4),
        reachable_v4(dst.ip),
    ensures
        e.frame_step(frame, now) == (
            e.tcp_nat@.looked_up(SocketAddr::V4(src), SocketAddr::V4(dst), now),
            ActionModel::Write(
                tcp_frame_v4(
                    frame.skip(lead(e.framing)),
                    next,
                    e.tcp_nat@.port_for(SocketAddr::V4(src)),
                    addr,
                    e.tcp_port_v4,
                    e.framing,
                ),
            ),
        ),
{
    lemma_addresses_v4(frame.skip(lead(e.framing)), src.ip, dst.ip);
}

/// An IPv4 packet with a whole header, of protocol TCP, that is neither a fragment nor to be
/// continued by one, takes the step of TCP, whether it may be fragmented or not.
pub proof fn law_tcp_takes_its_step_v4(
    m: NatModel,
    raw: Seq<u8>,
    addr: Option<Ipv4Addr>,
    next: Option<Ipv4Addr>,
    tcp_port: u16,
    now: u128,
    framing: Framing,
    src: Ipv4Addr,
    dst: Ipv4Addr,
)
    requires
        raw.len() >= 20,
        20 <= body_v4(raw) <= raw.len(),
        raw[9] == 6,
        pair_at(raw, 6) % 0x4000 == 0,
        goes_v4(raw, src, dst),
    ensures
        ({
            let (after, frame) = tcp_v4_step(m, raw, src, dst, addr, next, tcp_port, now, framing);
            &&& ipv4_step(m, raw, addr, next, tcp_port, now, framing).0 == after
            &&& match ipv4_step(m, raw, addr, next, tcp_port, now, framing).1 {
                ActionModel::Write(out) => frame == Some(out),
                ActionModel::Drop => frame is None,
                ActionModel::Udp { .. } => false,
            }
        }),
{
    lemma_addresses_v4(raw, src, dst);
}

/// An IPv6 packet with a whole header, of protocol TCP, takes the step of TCP.
pub proof fn law_tcp_takes_its_step_v6(
    m: NatModel,
    raw: Seq<u8>,
    addr: Option<Ipv6Addr>,
    next: Option<Ipv6Addr>,
    tcp_port: u16,
    now: u128,
    framing: Framing,
    src: Ipv6Addr,
    dst: Ipv6Addr,
)
    requires
        raw.len() >= 40,
        raw[6] == 6,
        goes_v6(raw, src, dst),
    ensures
        ({
            let (after, frame) = tcp_v6_step(m, raw, src, dst, addr, next, tcp_port, now, framing);
            &&& ipv6_step(m, raw, addr, next, tcp_port, now, framing).0 == after
            &&& match ipv6_step(m, raw, addr, next, tcp_port, now, framing).1 {
                ActionModel::Write(out) => frame == Some(out),
                ActionModel::Drop => frame is None,
                ActionModel::Udp { .. } => false,
            }
        }),
{
    lemma_addresses_v6(raw, src, dst);
}

/// A packet of a TCP connection over IPv4, with or without the flag that forbids fragments, goes
/// to the listener: it is sent from the address after the device's own and from the port of its
/// source, which the NAT then holds with its destination.
pub proof fn law_tcp_goes_to_the_listener_v4(
    e: TunEngine,
    frame: Seq<u8>,
    src: SocketAddrV4,
    dst: SocketAddrV4,
    addr: Ipv4Addr,
    next: Ipv4Addr,
    now: u128,
)
    requires
        e.well_formed(),
        frame.len() >= lead(e.framing),
        whole_v4(frame.skip(lead(e.framing)), 6, 20),
        goes_v4(frame.skip(lead(e.framing)), src.ip, dst.ip),
        ports_at(
            frame.skip(lead(e.framing)),
            body_v4(frame.skip(lead(e.framing))),
            src.port,
            dst.port,
        ),
        e.inet4_addr == Some(addr),
        e.inet4_next == Some(next),
        !(src.ip == addr && src.port == e.tcp_port_v4),
        reachable_v4(dst.ip),
    ensures
        ({
            let (after, action) = e.frame_step(frame, now);
            let port = after.addr_map[SocketAddr::V4(src)];
            &&& action matches ActionModel::Write(out) && forwarded_v4(
                out,
                frame.skip(lead(e.framing)),
                SocketAddrV4 { ip: next, port },
                SocketAddrV4 { ip: addr, port: e.tcp_port_v4 },
                e.framing,
            )
            &&& holds_connection(
                e.tcp_nat@,
                after,
                SocketAddr::V4(src),
                SocketAddr::V4(dst),
                port,
                now,
            )
        }),
{
    let pkt = frame.skip(lead(e.framing));
    let m = e.tcp_nat@;
    let s = SocketAddr::V4(src);
    let d = SocketAddr::V4(dst);
    lemma_forward_step_v4(e, frame, src, dst, addr, next, now);
    lemma_forwarded_v4(pkt, next, m.port_for(s), addr, e.tcp_port_v4, e.framing);
    lemma_holds_connection(m, s, d, now);
}

/// What becomes of a packet of the listener over IPv4.
proof fn lemma_reply_step_v4(
    e: TunEngine,
    frame: Seq<u8>,
    addr: Ipv4Addr,
    next: Ipv4Addr,
    to: Ipv4Addr,
    port: u16,
    now: u128,
)
    requires
        frame.len() >= lead(e.framing),
        whole_v4(frame.skip(lead(e.framing)), 6, 20),
        goes_v4(frame.skip(lead(e.framing)), addr, to),
        ports_at(
            frame.skip(lead(e.framing)),
            body_v4(frame.skip(lead(e.framing))),
            e.tcp_port_v4,
            port,
        ),
        e.inet4_addr == Some(addr),
        e.inet4_next == Some(next),
    ensures
        e.frame_step(frame, now) == (
            e.tcp_nat@.touched(port, now),
            write_action(
                reply_frame_v4(e.tcp_nat@, frame.skip(lead(e.framing)), port, e.framing),
            ),
        ),
{
    lemma_addresses_v4(frame.skip(lead(e.framing)), addr, to);
}

/// A packet that the listener sends over IPv4 to a port of the NAT goes to the source of the
/// connection there, as if from its destination.
pub proof fn law_replies_go_to_the_client_v4(
    e: TunEngine,
    frame: Seq<u8>,
    addr: Ipv4Addr,
    next: Ipv4Addr,
    to: Ipv4Addr,
    port: u16,
    source: SocketAddrV4,
    destination: SocketAddrV4,
    now: u128,
)
    requires
        frame.len() >= lead(e.framing),
        whole_v4(frame.skip(lead(e.framing)), 6, 20),
        goes_v4(frame.skip(lead(e.framing)), addr, to),
        ports_at(
            frame.skip(lead(e.framing)),
            body_v4(frame.skip(lead(e.framing))),
            e.tcp_port_v4,
            port,
        ),
        e.inet4_addr == Some(addr),
        e.inet4_next == Some(next),
        e.tcp_nat@.port_map.contains_key(port),
        e.tcp_nat@.port_map[port].source == SocketAddr::V4(source),
        e.tcp_nat@.port_map[port].destination == SocketAddr::V4(destination),
    ensures
        ({
            let (after, action) = e.frame_step(frame, now);
            &&& action matches ActionModel::Write(out) && forwarded_v4(
                out,
                frame.skip(lead(e.framing)),
                destination,
                source,
                e.framing,
            )
            &&& marks_use(e.tcp_nat@, after, port, now)
        }),
{
    let pkt = frame.skip(lead(e.framing));
    lemma_reply_step_v4(e, frame, addr, next, to, port, now);
    lemma_forwarded_v4(
        pkt,
        destination.ip,
        destination.port,
        source.ip,
        source.port,
        e.framing,
    );
}

/// What becomes of a packet of a connection over IPv6.
proof fn lemma_forward_step_v6(
    e: TunEngine,
    frame: Seq<u8>,
    src: SocketAddrV6,
    dst: SocketAddrV6,
    addr: Ipv6Addr,
    next: Ipv6Addr,
    now: u128,
)
    requires
        frame.len() >= lead(e.framing),
        whole_v6(frame.skip(lead(e.framing)), 6, 20),
        goes_v6(frame.skip(lead(e.framing)), src.ip, dst.ip),
        ports_at(frame.skip(lead(e.framing)), 40, src.port, dst.port),
        src.flowinfo == 0 && src.scope_id == 0,
        dst.flowinfo == 0 && dst.scope_id == 0,
        e.inet6_addr == Some(addr),
        e.inet6_next == Some(next),
        !(src.ip == addr && src.port == e.tcp_port_v6),
        reachable_v6(dst.ip),
    ensures
        e.frame_step(frame, now) == (
            e.tcp_nat@.looked_up(SocketAddr::V6(src), SocketAddr::V6(dst), now),
            ActionModel::Write(
                tcp_frame_v6(
                    frame.skip(lead(e.framing)),
                    next,
                    e.tcp_nat@.port_for(SocketAddr::V6(src)),
                    addr,
                    e.tcp_port_v6,
                    e.framing,
                ),
            ),
        ),
{
    lemma_addresses_v6(frame.skip(lead(e.framing)), src.ip, dst.ip);
}

/// A packet of a TCP connection over IPv6 goes to the listener: it is sent from the address after
/// the device's own and from the port of its source, which the NAT then holds with its
/// destination.
pub proof fn law_tcp_goes_to_the_listener_v6(
    e: TunEngine,
    frame: Seq<u8>,
    src: SocketAddrV6,
    dst: SocketAddrV6,
    addr: Ipv6Addr,
    next: Ipv6Addr,
    now: u128,
)
    requires
        e.well_formed(),
        frame.len() >= lead(e.framing),
        whole_v6(frame.skip(lead(e.framing)), 6, 20),
        goes_v6(frame.skip(lead(e.framing)), src.ip, dst.ip),
        ports_at(frame.skip(lead(e.framing)), 40, src.port, dst.port),
        src.flowinfo == 0 && src.scope_id == 0,
        dst.flowinfo == 0 && dst.scope_id == 0,
        e.inet6_addr == Some(addr),
        e.inet6_next == Some(next),
        !(src.ip == addr && src.port == e.tcp_port_v6),
        reachable_v6(dst.ip),
    ensures
        ({
            let (after, action) = e.frame_step(frame, now);
            let port = after.addr_map[SocketAddr::V6(src)];
            &&& action matches ActionModel::Write(out) && forwarded_v6(
                out,
                frame.skip(lead(e.framing)),
                SocketAddrV6 { ip: next, port, flowinfo: 0, scope_id: 0 },
                SocketAddrV6 { ip: addr, port: e.tcp_port_v6, flowinfo: 0, scope_id: 0 },
                e.framing,
            )
            &&& holds_connection(
                e.tcp_nat@,
                after,
                SocketAddr::V6(src),
                SocketAddr::V6(dst),
                port,
                now,
            )
        }),
{
    let pkt = frame.skip(lead(e.framing));
    let m = e.tcp_nat@;
    let s = SocketAddr::V6(src);
    let d = SocketAddr::V6(dst);
    lemma_forward_step_v6(e, frame, src, dst, addr, next, now);
    lemma_forwarded_v6(pkt, next, m.port_for(s), addr, e.tcp_port_v6, e.framing);
    lemma_holds_connection(m, s, d, now);
}

/// What becomes of a packet of the listener over IPv6.
proof fn lemma_reply_step_v6(
    e: TunEngine,
    frame: Seq<u8>,
    addr: Ipv6Addr,
    next: Ipv6Addr,
    to: Ipv6Addr,
    port: u16,
    now: u128,
)
    requires
        frame.len() >= lead(e.framing),
        whole_v6(frame.skip(lead(e.framing)), 6, 20),
        goes_v6(frame.skip(lead(e.framing)), addr, to),
        ports_at(frame.skip(lead(e.framing)), 40, e.tcp_port_v6, port),
        e.inet6_addr == Some(addr),
        e.inet6_next == Some(next),
    ensures
        e.frame_step(frame, now) == (
            e.tcp_nat@.touched(port, now),
            write_action(
                reply_frame_v6(e.tcp_nat@, frame.skip(lead(e.framing)), port, e.framing),
            ),
        ),
{
    lemma_addresses_v6(frame.skip(lead(e.framing)), addr, to);
}

/// A packet that the listener sends over IPv6 to a port of the NAT goes to the source of the
/// connection there, as if from its destination.
pub proof fn law_replies_go_to_the_client_v6(
    e: TunEngine,
    frame: Seq<u8>,
    addr: Ipv6Addr,
    next: Ipv6Addr,
    to: Ipv6Addr,
    port: u16,
    source: SocketAddrV6,
    destination: SocketAddrV6,
    now: u128,
)
    requires
        frame.len() >= lead(e.framing),
        whole_v6(frame.skip(lead(e.framing)), 6, 20),
        goes_v6(frame.skip(lead(e.framing)), addr, to),
        ports_at(frame.skip(lead(e.framing)), 40, e.tcp_port_v6, port),
        e.inet6_addr == Some(addr),
        e.inet6_next == Some(next),
        e.tcp_nat@.port_map.contains_key(port),
        e.tcp_nat@.port_map[port].source == SocketAddr::V6(source),
        e.tcp_nat@.port_map[port].destination == SocketAddr::V6(destination),
    ensures
        ({
            let (after, action) = e.frame_step(frame, now);
            &&& action matches ActionModel::Write(out) && forwarded_v6(
                out,
                frame.skip(lead(e.framing)),
                destination,
                source,
                e.framing,
            )
            &&& marks_use(e.tcp_nat@, after, port, now)
        }),
{
    let pkt = frame.skip(lead(e.framing));
    lemma_reply_step_v6(e, frame, addr, next, to, port, now);
    lemma_forwarded_v6(
        pkt,
        destination.ip,
        destination.port,
        source.ip,
        source.port,
        e.framing,
    );
}

/// What a client sends over IPv4 to a destination and the listener answers comes back to the
/// client as if from that destination.
pub proof fn law_answers_come_back_v4(
    e: TunEngine,
    frame: Seq<u8>,
    src: SocketAddrV4,
    dst: SocketAddrV4,
    addr: Ipv4Addr,
    next: Ipv4Addr,
    now: u128,
    later_engine: TunEngine,
    answer: Seq<u8>,
    later: u128,
)
    requires
        e.well_formed(),
        frame.len() >= lead(e.framing),
        whole_v4(frame.skip(lead(e.framing)), 6, 20),
        goes_v4(frame.skip(lead(e.framing)), src.ip, dst.ip),
        ports_at(
            frame.skip(lead(e.framing)),
            body_v4(frame.skip(lead(e.framing))),
            src.port,
            dst.port,
        ),
        e.inet4_addr == Some(addr),
        e.inet4_next == Some(next),
        !(src.ip == addr && src.port == e.tcp_port_v4),
        reachable_v4(dst.ip),
        !e.tcp_nat@.addr_map.contains_key(SocketAddr::V4(src)),
        later_engine.inet4_addr == e.inet4_addr,
        later_engine.inet4_next == e.inet4_next,
        later_engine.tcp_port_v4 == e.tcp_port_v4,
        later_engine.framing == e.framing,
        later_engine.tcp_nat@ == e.frame_step(frame, now).0,
        answer.len() >= lead(e.framing),
        whole_v4(answer.skip(lead(e.framing)), 6, 20),
        e.frame_step(frame, now).1 matches ActionModel::Write(out) && answers_v4(
            answer.skip(lead(e.framing)),
            out.skip(lead(e.framing)),
        ),
    ensures
        later_engine.frame_step(answer, later).1 matches ActionModel::Write(back) && forwarded_v4(
            back,
            answer.skip(lead(e.framing)),
            dst,
            src,
            e.framing,
        ),
{
    let port = e.frame_step(frame, now).0.addr_map[SocketAddr::V4(src)];
    law_tcp_goes_to_the_listener_v4(e, frame, src, dst, addr, next, now);
    law_replies_go_to_the_client_v4(
        later_engine,
        answer,
        addr,
        next,
        next,
        port,
        src,
        dst,
        later,
    );
}

/// What a client sends over IPv6 to a destination and the listener answers comes back to the
/// client as if from that destination.
pub proof fn law_answers_come_back_v6(
    e: TunEngine,
    frame: Seq<u8>,
    src: SocketAddrV6,
    dst: SocketAddrV6,
    addr: Ipv6Addr,
    next: Ipv6Addr,
    now: u128,
    later_engine: TunEngine,
    answer: Seq<u8>,
    later: u128,
)
    requires
        e.well_formed(),
        frame.len() >= lead(e.framing),
        whole_v6(frame.skip(lead(e.framing)), 6, 20),
        goes_v6(frame.skip(lead(e.framing)), src.ip, dst.ip),
        ports_at(frame.skip(lead(e.framing)), 40, src.port, dst.port),
        src.flowinfo == 0 && src.scope_id == 0,
        dst.flowinfo == 0 && dst.scope_id == 0,
        e.inet6_addr == Some(addr),
        e.inet6_next == Some(next),
        !(src.ip == addr && src.port == e.tcp_port_v6),
        reachable_v6(dst.ip),
        !e.tcp_nat@.addr_map.contains_key(SocketAddr::V6(src)),
        later_engine.inet6_addr == e.inet6_addr,
        later_engine.inet6_next == e.inet6_next,
        later_engine.tcp_port_v6 == e.tcp_port_v6,
        later_engine.framing == e.framing,
        later_engine.tcp_nat@ == e.frame_step(frame, now).0,
        answer.len() >= lead(e.framing),
        whole_v6(answer.skip(lead(e.framing)), 6, 20),
        e.frame_step(frame, now).1 matches ActionModel::Write(out) && answers_v6(
            answer.skip(lead(e.framing)),
            out.skip(lead(e.framing)),
        ),
    ensures
        later_engine.frame_step(answer, later).1 matches ActionModel::Write(back) && forwarded_v6(
            back,
            answer.skip(lead(e.framing)),
            dst,
            src,
            e.framing,
        ),
{
    let port = e.frame_step(frame, now).0.addr_map[SocketAddr::V6(src)];
    law_tcp_goes_to_the_listener_v6(e, frame, src, dst, addr, next, now);
    law_replies_go_to_the_client_v6(
        later_engine,
        answer,
        addr,
        next,
        next,
        port,
        src,
        dst,
        later,
    );
}

/// The octets of a datagram: what follows its header, up to the length that it gives, but no
/// further than it reaches.
pub open spec fn datagram_at(pkt: Seq<u8>, at: int) -> Seq<u8> {
    let said = pair_at(pkt, at + 4);
    let end = if said <= 8 {
        at + 8
    } else if at + said <= pkt.len() {
        at + said
    } else {
        pkt.len() as int
    };
    pkt.subrange(at + 8, end)
}

/// A datagram over IPv4 is handed on with its octets, its source and its destination, and leaves
/// the NAT as it is.
pub proof fn law_datagrams_are_handed_on_v4(
    e: TunEngine,
    frame: Seq<u8>,
    src: SocketAddrV4,
    dst: SocketAddrV4,
    now: u128,
)
    requires
        frame.len() >= lead(e.framing),
        whole_v4(frame.skip(lead(e.framing)), 17, 8),
        goes_v4(frame.skip(lead(e.framing)), src.ip, dst.ip),
        ports_at(
            frame.skip(lead(e.framing)),
            body_v4(frame.skip(lead(e.framing))),
            src.port,
            dst.port,
        ),
    ensures
        ({
            let (after, action) = e.frame_step(frame, now);
            let pkt = frame.skip(lead(e.framing));
            &&& after == e.tcp_nat@
            &&& action matches ActionModel::Udp { src: from, dst: to, data } && {
                &&& from == SocketAddr::V4(src)
                &&& to == SocketAddr::V4(dst)
                &&& data == datagram_at(pkt, body_v4(pkt))
            }
        }),
{
    let pkt = frame.skip(lead(e.framing));
    let at = body_v4(pkt);
    lemma_addresses_v4(pkt, src.ip, dst.ip);
    assert(udp_payload(pkt.skip(at)) =~= datagram_at(pkt, at));
}

/// A datagram over IPv6 is handed on with its octets, its source and its destination, and leaves
/// the NAT as it is.
pub proof fn law_datagrams_are_handed_on_v6(
    e: TunEngine,
    frame: Seq<u8>,
    src: SocketAddrV6,
    dst: SocketAddrV6,
    now: u128,
)
    requires
        frame.len() >= lead(e.framing),
        whole_v6(frame.skip(lead(e.framing)), 17, 8),
        goes_v6(frame.skip(lead(e.framing)), src.ip, dst.ip),
        ports_at(frame.skip(lead(e.framing)), 40, src.port, dst.port),
        src.flowinfo == 0 && src.scope_id == 0,
        dst.flowinfo == 0 && dst.scope_id == 0,
    ensures
        ({
            let (after, action) = e.frame_step(frame, now);
            &&& after == e.tcp_nat@
            &&& action matches ActionModel::Udp { src: from, dst: to, data } && {
                &&& from == SocketAddr::V6(src)
                &&& to == SocketAddr::V6(dst)
                &&& data == datagram_at(frame.skip(lead(e.framing)), 40)
            }
        }),
{
    let pkt = frame.skip(lead(e.framing));
    lemma_addresses_v6(pkt, src.ip, dst.ip);
    assert(udp_payload(pkt.skip(40)) =~= datagram_at(pkt, 40));
}

/// Whether a frame holds the reply to an echo request over IPv4: it goes the other way, is of type
/// zero, has the rest of the request, and its checksums verify.
pub open spec fn echoed_v4(
    out: Seq<u8>,
    pkt: Seq<u8>,
    src: Ipv4Addr,
    dst: Ipv4Addr,
    framing: Framing,
) -> bool {
    let q = out.skip(lead(framing));
    let at = body_v4(pkt);
    &&& out.len() == lead(framing) + pkt.len()
    &&& leads_with(out, framing, 0x08, 0x00)
    &&& goes_v4(q, dst, src)
    &&& q[at] == 0
    &&& forall|i: int|
        0 <= i < pkt.len() && !(10 <= i < 20) && i != at && !(at + 2 <= i < at + 4) ==> q[i]
            == pkt[i]
    &&& adds_up(q.take(at))
    &&& adds_up(q.skip(at))
}

/// Whether a frame holds the reply to an echo request over IPv6: it goes the other way, is of type
/// 129, has the rest of the request, and its checksum verifies.
pub open spec fn echoed_v6(
    out: Seq<u8>,
    pkt: Seq<u8>,
    src: Ipv6Addr,
    dst: Ipv6Addr,
    framing: Framing,
) -> bool {
    let q = out.skip(lead(framing));
    &&& out.len() == lead(framing) + pkt.len()
    &&& leads_with(out, framing, 0x86, 0xdd)
    &&& goes_v6(q, dst, src)
    &&& q[40] == 129
    &&& forall|i: int|
        0 <= i < pkt.len() && !(8 <= i < 41) && !(42 <= i < 44) ==> q[i] == pkt[i]
    &&& adds_up(
        q.subrange(8, 40) + be_bytes((pkt.len() - 40) as nat, 4) + seq![0u8, 0u8, 0u8, 58u8]
            + q.skip(40),
    )
}

#[verifier::spinoff_prover]
pub proof fn lemma_echoed_v4(pkt: Seq<u8>, src: Ipv4Addr, dst: Ipv4Addr, framing: Framing)
    requires
        pkt.len() >= 20,
        body_v4(pkt) >= 20,
        pkt.len() >= body_v4(pkt) + 8,
    ensures
        echoed_v4(echo_frame_v4(pkt, src, dst, framing), pkt, src, dst, framing),
{
    let at = body_v4(pkt);
    let q = echo_frame_v4(pkt, src, dst, framing).skip(lead(framing));
    law_echo_frame_v4(pkt, src, dst, framing);
    lemma_adds_up(q.take(at));
    lemma_adds_up(q.skip(at));
}

#[verifier::spinoff_prover]
pub proof fn lemma_echoed_v6(pkt: Seq<u8>, src: Ipv6Addr, dst: Ipv6Addr, framing: Framing)
    requires
        pkt.len() >= 48,
    ensures
        echoed_v6(echo_frame_v6(pkt, src, dst, framing), pkt, src, dst, framing),
{
    let q = echo_frame_v6(pkt, src, dst, framing).skip(lead(framing));
    law_echo_frame_v6(pkt, src, dst, framing);
    lemma_pseudo_v6(q, 58);
}

/// What becomes of an echo request over IPv4 to the device's own address.
proof fn lemma_echo_step_v4(
    e: TunEngine,
    frame: Seq<u8>,
    src: Ipv4Addr,
    addr: Ipv4Addr,
    now: u128,
)
    requires
        frame.len() >= lead(e.framing),
        whole_v4(frame.skip(lead(e.framing)), 1, 8),
        goes_v4(frame.skip(lead(e.framing)), src, addr),
        frame.skip(lead(e.framing))[body_v4(frame.skip(lead(e.framing)))] == 8,
        frame.skip(lead(e.framing))[body_v4(frame.skip(lead(e.framing))) + 1] == 0,
        e.inet4_addr == Some(addr),
    ensures
        e.frame_step(frame, now) == (
            e.tcp_nat@,
            ActionModel::Write(
                echo_frame_v4(frame.skip(lead(e.framing)), src, addr, e.framing),
            ),
        ),
{
    lemma_addresses_v4(frame.skip(lead(e.framing)), src, addr);
}

/// An echo request over IPv4 to the device's own address is answered: a reply of type zero goes
/// from that address to the asking one, with the rest of the request and with checksums that
/// verify.
pub proof fn law_echoes_are_answered_v4(
    e: TunEngine,
    frame: Seq<u8>,
    src: Ipv4Addr,
    addr: Ipv4Addr,
    now: u128,
)
    requires
        frame.len() >= lead(e.framing),
        whole_v4(frame.skip(lead(e.framing)), 1, 8),
        goes_v4(frame.skip(lead(e.framing)), src, addr),
        frame.skip(lead(e.framing))[body_v4(frame.skip(lead(e.framing)))] == 8,
        frame.skip(lead(e.framing))[body_v4(frame.skip(lead(e.framing))) + 1] == 0,
        e.inet4_addr == Some(addr),
    ensures
        ({
            let (after, action) = e.frame_step(frame, now);
            &&& after == e.tcp_nat@
            &&& action matches ActionModel::Write(out) && echoed_v4(
                out,
                frame.skip(lead(e.framing)),
                src,
                addr,
                e.framing,
            )
        }),
{
    lemma_echo_step_v4(e, frame, src, addr, now);
    lemma_echoed_v4(frame.skip(lead(e.framing)), src, addr, e.framing);
}

/// What becomes of an echo request over IPv6 that the device answers.
proof fn lemma_echo_step_v6(
    e: TunEngine,
    frame: Seq<u8>,
    src: Ipv6Addr,
    dst: Ipv6Addr,
    now: u128,
)
    requires
        frame.len() >= lead(e.framing),
        whole_v6(frame.skip(lead(e.framing)), 58, 8),
        goes_v6(frame.skip(lead(e.framing)), src, dst),
        frame.skip(lead(e.framing))[40] == 128,
        e.inet6_addr == Some(dst) || e.inet6_addr is None,
    ensures
        e.frame_step(frame, now) == (
            e.tcp_nat@,
            ActionModel::Write(
                echo_frame_v6(frame.skip(lead(e.framing)), src, dst, e.framing),
            ),
        ),
{
    lemma_addresses_v6(frame.skip(lead(e.framing)), src, dst);
}

/// An echo request over IPv6 to the device's own address, or to any address where it has none, is
/// answered: a reply of type 129 goes from that address to the asking one, with the rest of the
/// request and with a checksum that verifies.
pub proof fn law_echoes_are_answered_v6(
    e: TunEngine,
    frame: Seq<u8>,
    src: Ipv6Addr,
    dst: Ipv6Addr,
    now: u128,
)
    requires
        frame.len() >= lead(e.framing),
        whole_v6(frame.skip(lead(e.framing)), 58, 8),
        goes_v6(frame.skip(lead(e.framing)), src, dst),
        frame.skip(lead(e.framing))[40] == 128,
        e.inet6_addr == Some(dst) || e.inet6_addr is None,
    ensures
        ({
            let (after, action) = e.frame_step(frame, now);
            &&& after == e.tcp_nat@
            &&& action matches ActionModel::Write(out) && echoed_v6(
                out,
                frame.skip(lead(e.framing)),
                src,
                dst,
                e.framing,
            )
        }),
{
    lemma_echo_step_v6(e, frame, src, dst, now);
    lemma_echoed_v6(frame.skip(lead(e.framing)), src, dst, e.framing);
}

/// Whether there is nothing to do for an IPv4 packet: its header is not whole, it is a fragment,
/// it is too short for its protocol, it goes to where no connections go, it comes from the
/// listener for a port that nobody holds, it is an echo request to another or no echo request, or
/// it is of a protocol that is not carried.
pub open spec fn idle_v4(e: TunEngine, pkt: Seq<u8>, src: Ipv4Addr, dst: Ipv4Addr) -> bool {
    let at = body_v4(pkt);
    ||| pkt.len() < 20
    ||| at < 20
    ||| pkt.len() < at
    ||| pkt[6] % 64 != 0
    ||| pkt[7] != 0
    ||| pkt[9] == 6 && pkt.len() < at + 20
    ||| pkt[9] == 6 && (e.inet4_addr is None || e.inet4_next is None)
    ||| pkt[9] == 6 && e.inet4_addr == Some(src) && pair_at(pkt, at) == e.tcp_port_v4
        && !e.tcp_nat@.port_map.contains_key(pair_at(pkt, at + 2) as u16)
    ||| pkt[9] == 6 && !(e.inet4_addr == Some(src) && pair_at(pkt, at) == e.tcp_port_v4)
        && !reachable_v4(dst)
    ||| pkt[9] == 17 && pkt.len() < at + 8
    ||| pkt[9] == 1 && (pkt.len() < at + 8 || pkt[at] != 8 || pkt[at + 1] != 0 || e.inet4_addr
        != Some(dst))
    ||| pkt[9] != 6 && pkt[9] != 17 && pkt[9] != 1
}

/// Whether there is nothing to do for an IPv6 packet, for the reasons that hold of IPv4 where
/// they apply.
pub open spec fn idle_v6(e: TunEngine, pkt: Seq<u8>, src: Ipv6Addr, dst: Ipv6Addr) -> bool {
    ||| pkt.len() < 40
    ||| pkt[6] == 6 && pkt.len() < 60
    ||| pkt[6] == 6 && (e.inet6_addr is None || e.inet6_next is None)
    ||| pkt[6] == 6 && e.inet6_addr == Some(src) && pair_at(pkt, 40) == e.tcp_port_v6
        && !e.tcp_nat@.port_map.contains_key(pair_at(pkt, 42) as u16)
    ||| pkt[6] == 6 && !(e.inet6_addr == Some(src) && pair_at(pkt, 40) == e.tcp_port_v6)
        && !reachable_v6(dst)
    ||| pkt[6] == 17 && pkt.len() < 48
    ||| pkt[6] == 58 && (pkt.len() < 48 || pkt[40] != 128 || (e.inet6_addr is Some && e.inet6_addr
        != Some(dst)))
    ||| pkt[6] != 6 && pkt[6] != 17 && pkt[6] != 58
}

/// A frame without a packet, or with one of neither protocol version, changes nothing.
pub proof fn law_strange_frames_are_dropped(e: TunEngine, frame: Seq<u8>, now: u128)
    requires
        frame.len() <= lead(e.framing) || (frame[lead(e.framing)] / 16 != 4 && frame[lead(
            e.framing,
        )] / 16 != 6),
    ensures
        e.frame_step(frame, now) == (e.tcp_nat@, ActionModel::Drop),
{
}

/// An IPv4 packet for which there is nothing to do changes nothing.
pub proof fn law_idle_packets_are_dropped_v4(
    e: TunEngine,
    frame: Seq<u8>,
    src: Ipv4Addr,
    dst: Ipv4Addr,
    now: u128,
)
    requires
        frame.len() > lead(e.framing),
        frame[lead(e.framing)] / 16 == 4,
        frame.skip(lead(e.framing)).len() >= 20 ==> goes_v4(frame.skip(lead(e.framing)), src, dst),
        idle_v4(e, frame.skip(lead(e.framing)), src, dst),
    ensures
        e.frame_step(frame, now) == (e.tcp_nat@, ActionModel::Drop),
{
    let pkt = frame.skip(lead(e.framing));
    if pkt.len() >= 20 {
        lemma_addresses_v4(pkt, src, dst);
    }
}

/// An IPv6 packet for which there is nothing to do changes nothing.
pub proof fn law_idle_packets_are_dropped_v6(
    e: TunEngine,
    frame: Seq<u8>,
    src: Ipv6Addr,
    dst: Ipv6Addr,
    now: u128,
)
    requires
        frame.len() > lead(e.framing),
        frame[lead(e.framing)] / 16 == 6,
        frame.skip(lead(e.framing)).len() >= 40 ==> goes_v6(frame.skip(lead(e.framing)), src, dst),
        idle_v6(e, frame.skip(lead(e.framing)), src, dst),
    ensures
        e.frame_step(frame, now) == (e.tcp_nat@, ActionModel::Drop),
{
    let pkt = frame.skip(lead(e.framing));
    if pkt.len() >= 40 {
        lemma_addresses_v6(pkt, src, dst);
    }
}

/// What is handed on of a datagram is all of it: its octets, where it came from and goes to, the
/// inbound that took it, and whether it is the first between its two ends.
pub proof fn law_deliveries_are_complete(
    action: PacketAction,
    src: SocketAddr,
    dst: SocketAddr,
    data: Seq<u8>,
    tag: Seq<char>,
    sessions: Map<(SocketAddr, SocketAddr), u128>,
)
    requires
        action.is_action(ActionModel::Udp { src, dst, data }, tag, sessions),
    ensures
        action matches PacketAction::Udp(d) && {
            &&& bytes_contents(d.data) == data
            &&& d.src == src
            &&& d.target == Target::Socket(dst)
            &&& d.inbound_tag@ == tag
            &&& d.sniffed_protocol is None && d.sniffed_domain is None
            &&& d.opens_session <==> !sessions.contains_key((src, dst))
        },
{
}

/// What is written is the frame of the step, and nothing is done where the step does nothing.
pub proof fn law_writes_are_whole(
    action: PacketAction,
    octets: Seq<u8>,
    tag: Seq<char>,
    sessions: Map<(SocketAddr, SocketAddr), u128>,
)
    ensures
        action.is_action(ActionModel::Write(octets), tag, sessions) ==> (
        action matches PacketAction::Write(frame) && frame@ == octets),
        action.is_action(ActionModel::Drop, tag, sessions) ==> action is Drop,
{
}

/// A datagram marks the session between its two ends as used and no other, and nothing else
/// touches the sessions.
pub proof fn law_datagrams_keep_their_session(
    sessions: Map<(SocketAddr, SocketAddr), u128>,
    action: ActionModel,
    now: u128,
    ends: (SocketAddr, SocketAddr),
)
    ensures
        ({
            let after = sessions_after(sessions, action, now);
            let used = action matches ActionModel::Udp { src, dst, .. } && ends == (src, dst);
            &&& used ==> after.contains_key(ends) && after[ends] == now
            &&& !used ==> after.contains_key(ends) == sessions.contains_key(ends) && after[ends]
                == sessions[ends]
        }),
{
}

/// The octets of a datagram over IPv4 that are not covered by reading it back.
proof fn lemma_plain_octets_v4(src: SocketAddrV4, dst: SocketAddrV4, payload: Seq<u8>)
    requires
        payload.len() <= 65507,
    ensures
        ({
            let p = udp_packet_v4(src, dst, payload);
            &&& p.len() == 28 + payload.len()
            &&& p[1] == 0 && p[4] == 0 && p[5] == 0 && p[8] == 64
            &&& pair_at(p, 24) == 8 + payload.len()
            &&& p.skip(28) == payload
        }),
{
    let p = udp_packet_v4(src, dst, payload);
    lemma_be_bytes_len(src.ip.bits as nat, 4);
    lemma_be_bytes_len(dst.ip.bits as nat, 4);
    assert(p.skip(28) =~= payload);
}

/// The octets of a datagram over IPv6 that are not covered by reading it back.
proof fn lemma_plain_octets_v6(src: SocketAddrV6, dst: SocketAddrV6, payload: Seq<u8>)
    requires
        payload.len() <= 65527,
    ensures
        ({
            let p = udp_packet_v6(src, dst, payload);
            &&& p.len() == 48 + payload.len()
            &&& p[1] == 0 && p[2] == 0 && p[3] == 0 && p[7] == 64
            &&& pair_at(p, 44) == 8 + payload.len()
            &&& p.skip(48) == payload
        }),
{
    let p = udp_packet_v6(src, dst, payload);
    lemma_be_bytes_len(src.ip.bits as nat, 16);
    lemma_be_bytes_len(dst.ip.bits as nat, 16);
    assert(p.skip(48) =~= payload);
}

/// A datagram goes out over IPv4 in a packet of its own: not to be fragmented, with the usual
/// number of hops, from and to the given addresses and ports, with lengths that fit it and
/// checksums that verify.
pub proof fn law_datagrams_go_out_v4(src: SocketAddrV4, dst: SocketAddrV4, payload: Seq<u8>)
    requires
        payload.len() <= 65507,
    ensures
        ({
            let p = udp_packet_v4(src, dst, payload);
            let n = (8 + payload.len()) as int;
            &&& p.len() == 20 + n
            &&& p[0] == 0x45 && p[1] == 0
            &&& pair_at(p, 2) == 20 + n
            &&& pair_at(p, 4) == 0
            &&& pair_at(p, 6) == 0x4000
            &&& p[8] == 64 && p[9] == 17
            &&& goes_v4(p, src.ip, dst.ip)
            &&& ports_at(p, 20, src.port, dst.port)
            &&& pair_at(p, 24) == n
            &&& p.skip(28) == payload
            &&& adds_up(p.take(20))
            &&& adds_up(
                p.subrange(12, 20) + seq![0u8, 17u8, ((n / 256) % 256) as u8, (n % 256) as u8]
                    + p.skip(20),
            )
        }),
{
    let p = udp_packet_v4(src, dst, payload);
    law_udp_v4_reads_back(src, dst, payload);
    lemma_plain_octets_v4(src, dst, payload);
    assert(field_at(p.skip(20), 0) == pair_at(p, 20));
    assert(field_at(p.skip(20), 2) == pair_at(p, 22));
    lemma_adds_up(p.take(20));
    lemma_pseudo_v4(p, 20, 17);
}

/// A datagram goes out over IPv6 in a packet of its own: with the usual number of hops, from and
/// to the given addresses and ports, with lengths that fit it and a checksum that verifies.
pub proof fn law_datagrams_go_out_v6(src: SocketAddrV6, dst: SocketAddrV6, payload: Seq<u8>)
    requires
        payload.len() <= 65527,
    ensures
        ({
            let p = udp_packet_v6(src, dst, payload);
            let n = (8 + payload.len()) as nat;
            &&& p.len() == 40 + n
            &&& p[0] == 0x60 && p[1] == 0 && p[2] == 0 && p[3] == 0
            &&& pair_at(p, 4) == n
            &&& p[6] == 17 && p[7] == 64
            &&& goes_v6(p, src.ip, dst.ip)
            &&& ports_at(p, 40, src.port, dst.port)
            &&& pair_at(p, 44) == n
            &&& p.skip(48) == payload
            &&& adds_up(
                p.subrange(8, 40) + be_bytes(n, 4) + seq![0u8, 0u8, 0u8, 17u8] + p.skip(40),
            )
        }),
{
    let p = udp_packet_v6(src, dst, payload);
    law_udp_v6_reads_back(src, dst, payload);
    lemma_plain_octets_v6(src, dst, payload);
    assert(field_at(p.skip(40), 0) == pair_at(p, 40));
    assert(field_at(p.skip(40), 2) == pair_at(p, 42));
    lemma_pseudo_v6(p, 17);
}

/// A packet goes into a frame behind four octets that tell its ethertype, or as it is.
pub proof fn law_frames_hold_packets(framing: Framing, ethertype: u16, pkt: Seq<u8>)
    ensures
        ({
            let frame = framing.prefix(ethertype) + pkt;
            &&& frame.len() == lead(framing) + pkt.len()
            &&& frame.skip(lead(framing)) == pkt
            &&& leads_with(frame, framing, (ethertype / 256) as u8, (ethertype % 256) as u8)
        }),
{
    let frame = framing.prefix(ethertype) + pkt;
    assert(frame.skip(lead(framing)) =~= pkt);
    if framing is PacketInfo {
        assert(frame.take(4) =~= framing.prefix(ethertype));
    }
}

/// The sum of words goes up by each word that is put behind an even number of octets, and a last
/// octet alone is the high half of a word.
pub proof fn law_words_count_one_by_one(s: Seq<u8>, a: u8, b: u8)
    requires
        s.len() % 2 == 0,
    ensures
        word_sum(Seq::<u8>::empty()) == 0,
        word_sum(s.push(a)) == word_sum(s) + a * 256,
        word_sum(s.push(a).push(b)) == word_sum(s) + a * 256 + b,
    decreases s.len(),
{
    if s.len() == 0 {
        assert(s.push(a).push(b).skip(2) =~= Seq::<u8>::empty());
        assert(s =~= Seq::<u8>::empty());
    } else {
        law_words_count_one_by_one(s.skip(2), a, b);
        assert(s.push(a).skip(2) =~= s.skip(2).push(a));
        assert(s.push(a).push(b).skip(2) =~= s.skip(2).push(a).push(b));
    }
}

/// A checksum makes the sum of words up to all ones: together they are a multiple of that. It is
/// all ones itself only where the words are all zero.
pub proof fn law_checksum_fills_up(s: Seq<u8>)
    ensures
        (word_sum(s) + checksum_of(s)) % 0xffff == 0,
        checksum_of(s) == 0xffff <==> word_sum(s) == 0,
{
    let n = word_sum(s);
    if n > 0 {
        let q = (n - 1) / 0xffff;
        let r = (n - 1) % 0xffff;
        assert(n - 1 == q * 0xffff + r);
        assert(checksum_of(s) == 0xfffe - r);
        assert(n + checksum_of(s) == (q + 1) * 0xffff);
    }
}

/// Whether two frames differ at most in the two octets at `at`.
pub open spec fn same_but_field(a: Seq<u8>, b: Seq<u8>, at: int) -> bool {
    &&& a.len() == b.len()
    &&& forall|i: int| 0 <= i < a.len() && !(at <= i < at + 2) ==> a[i] == b[i]
}

/// The length of the IPv4 header at `off`: what its first octet says, but at least twenty octets.
pub open spec fn header_at(frame: Seq<u8>, off: int) -> int {
    let said = (frame[off] % 16) * 4;
    if said < 20 {
        20
    } else {
        said
    }
}

/// Recomputing the checksum of an IPv4 header sets its two octets so that the whole header adds
/// up, and nothing else. It is recomputed exactly where the frame holds the whole header.
pub proof fn law_header_checksum_is_set(frame: Seq<u8>, off: int)
    requires
        0 <= off,
    ensures
        holds_ipv4_header(frame, off) <==> off < frame.len() && off + header_at(frame, off)
            <= frame.len(),
        holds_ipv4_header(frame, off) ==> {
            let out = ipv4_checksummed(frame, off);
            &&& same_but_field(out, frame, off + 10)
            &&& adds_up(out.subrange(off, off + header_at(frame, off)))
        },
{
    if holds_ipv4_header(frame, off) {
        let out = ipv4_checksummed(frame, off);
        law_ipv4_checksum_verifies(frame, off);
        assert(out[off] == frame[off]);
        lemma_adds_up(out.subrange(off, off + header_at(frame, off)));
    }
}

/// Recomputing the checksum of TCP over IPv4 sets its two octets so that the segment adds up with
/// the addresses, the protocol and the length, and nothing else.
pub proof fn law_tcp_checksum_is_set_v4(frame: Seq<u8>, off: int, ihl: int)
    requires
        0 <= off,
        20 <= ihl,
        off + ihl + 18 <= frame.len(),
    ensures
        ({
            let out = tcp_v4_checksummed(frame, off, ihl);
            let n = frame.len() - off - ihl;
            &&& same_but_field(out, frame, off + ihl + 16)
            &&& adds_up(
                out.subrange(off + 12, off + 20) + seq![
                    0u8,
                    6u8,
                    ((n / 256) % 256) as u8,
                    (n % 256) as u8,
                ] + out.skip(off + ihl),
            )
        }),
{
    let out = tcp_v4_checksummed(frame, off, ihl);
    let q = out.skip(off);
    law_tcp_v4_checksum_verifies(frame, off, ihl);
    assert(q.subrange(12, 16) =~= out.subrange(off + 12, off + 16));
    assert(q.subrange(16, 20) =~= out.subrange(off + 16, off + 20));
    assert(q.subrange(12, 20) =~= out.subrange(off + 12, off + 20));
    assert(q.skip(ihl) =~= out.skip(off + ihl));
    lemma_pseudo_v4(q, ihl, 6);
}

/// Recomputing a checksum over IPv6 sets its two octets so that what follows the header adds up
/// with the addresses, the length and the protocol, and nothing else.
pub proof fn law_checksum_is_set_v6(frame: Seq<u8>, off: int, proto: u8, field: int)
    requires
        0 <= off,
        0 <= field,
        field % 2 == 0,
        off + 40 + field + 2 <= frame.len(),
    ensures
        ({
            let out = v6_checksummed(frame, off, proto, field);
            &&& same_but_field(out, frame, off + 40 + field)
            &&& adds_up(
                out.subrange(off + 8, off + 40) + be_bytes((frame.len() - off - 40) as nat, 4)
                    + seq![0u8, 0u8, 0u8, proto] + out.skip(off + 40),
            )
        }),
{
    let out = v6_checksummed(frame, off, proto, field);
    let q = out.skip(off);
    law_v6_checksum_verifies(frame, off, proto, field);
    assert(q.subrange(8, 24) =~= out.subrange(off + 8, off + 24));
    assert(q.subrange(24, 40) =~= out.subrange(off + 24, off + 40));
    assert(q.subrange(8, 40) =~= out.subrange(off + 8, off + 40));
    assert(q.skip(40) =~= out.skip(off + 40));
    lemma_pseudo_v6(q, proto);
}

/// A packet of the listener over IPv4 to a port whose connection is over IPv6 is dropped; the
/// connection counts as used.
pub proof fn law_replies_keep_to_their_family_v4(
    e: TunEngine,
    frame: Seq<u8>,
    addr: Ipv4Addr,
    next: Ipv4Addr,
    to: Ipv4Addr,
    port: u16,
    now: u128,
)
    requires
        frame.len() >= lead(e.framing),
        whole_v4(frame.skip(lead(e.framing)), 6, 20),
        goes_v4(frame.skip(lead(e.framing)), addr, to),
        ports_at(
            frame.skip(lead(e.framing)),
            body_v4(frame.skip(lead(e.framing))),
            e.tcp_port_v4,
            port,
        ),
        e.inet4_addr == Some(addr),
        e.inet4_next == Some(next),
        e.tcp_nat@.port_map.contains_key(port),
        e.tcp_nat@.port_map[port].source is V6 || e.tcp_nat@.port_map[port].destination is V6,
    ensures
        e.frame_step(frame, now).1 is Drop,
        marks_use(e.tcp_nat@, e.frame_step(frame, now).0, port, now),
{
    lemma_reply_step_v4(e, frame, addr, next, to, port, now);
}

/// A packet of the listener over IPv6 to a port whose connection is over IPv4 is dropped; the
/// connection counts as used.
pub proof fn law_replies_keep_to_their_family_v6(
    e: TunEngine,
    frame: Seq<u8>,
    addr: Ipv6Addr,
    next: Ipv6Addr,
    to: Ipv6Addr,
    port: u16,
    now: u128,
)
    requires
        frame.len() >= lead(e.framing),
        whole_v6(frame.skip(lead(e.framing)), 6, 20),
        goes_v6(frame.skip(lead(e.framing)), addr, to),
        ports_at(frame.skip(lead(e.framing)), 40, e.tcp_port_v6, port),
        e.inet6_addr == Some(addr),
        e.inet6_next == Some(next),
        e.tcp_nat@.port_map.contains_key(port),
        e.tcp_nat@.port_map[port].source is V4 || e.tcp_nat@.port_map[port].destination is V4,
    ensures
        e.frame_step(frame, now).1 is Drop,
        marks_use(e.tcp_nat@, e.frame_step(frame, now).0, port, now),
{
    lemma_reply_step_v6(e, frame, addr, next, to, port, now);
}

/// Nothing that happens changes the settings of the inbound.
pub proof fn law_settings_stay(a: TunEngine, b: TunEngine)
    requires
        a.same_settings(b),
    ensures
        a.config == b.config,
        a.framing == b.framing,
        a.inet4_addr == b.inet4_addr && a.inet4_next == b.inet4_next,
        a.inet6_addr == b.inet6_addr && a.inet6_next == b.inet6_next,
        a.udp_timeout_secs == b.udp_timeout_secs,
        a.tcp_port_v4 == b.tcp_port_v4 && a.tcp_port_v6 == b.tcp_port_v6,
{
}

/// Each source has one port and each port one source, and all ports are among those that the NAT
/// may hand out.
pub proof fn law_sources_and_ports_match(m: NatModel, s: SocketAddr, p: u16)
    requires
        m.well_formed(),
    ensures
        10000 <= m.port_index <= 60000,
        m.addr_map.contains_key(s) && m.addr_map[s] == p <==> m.port_map.contains_key(p)
            && m.port_map[p].source == s,
        m.port_map.contains_key(p) ==> 10000 <= p <= 60000,
{
    if m.port_map.contains_key(p) {
        assert(nat_port(p));
    }
}

/// Marking a connection as used changes its time and nothing else.
pub proof fn law_touching_marks_use(m: NatModel, port: u16, now: u128)
    ensures
        marks_use(m, m.touched(port, now), port, now),
        !m.port_map.contains_key(port) ==> m.touched(port, now) == m,
{
}

} // verus!
