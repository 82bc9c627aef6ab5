//! What callers may rely on of the functions that read, rewrite and build packets.
use bytes::Bytes;
use vstd::prelude::*;

use crate::buf::bytes_contents;
use crate::inbound::tun::checksum::{
    checksum_of, checksum_with_pseudo_v4, checksum_with_pseudo_v6, internet_checksum, pseudo_v4,
    recompute_icmpv6_checksum, recompute_ipv4_checksum, recompute_tcp_checksum_v4,
    recompute_tcp_checksum_v6, tcp_checksum_v4, tcp_checksum_v6, udp_checksum_v4, udp_checksum_v6,
    word_sum,
};
use crate::inbound::tun::frame::{prepend_pi, Framing};
use crate::inbound::tun::handlers::{
    dispatch_udp, handle_icmpv4, handle_icmpv6, handle_tcp_v4, handle_tcp_v6, UdpDelivery,
};
use crate::inbound::tun::laws::{
    adds_up, body_v4, echoed_v4, echoed_v6, forwarded_v4, forwarded_v6, header_at, holds_connection,
    law_checksum_fills_up, law_checksum_is_set_v6, law_frames_hold_packets,
    law_header_checksum_is_set, law_tcp_checksum_is_set_v4, lead, leads_with, lemma_echoed_v4,
    lemma_echoed_v6, lemma_forwarded_v4, lemma_forwarded_v6, lemma_holds_connection, marks_use,
    pair_at, reachable_v4, reachable_v6, same_but_field,
};
use crate::inbound::tun::packet::{
    build_udp_reply_v4, build_udp_reply_v6, reply_fits, udp_packet_v4, udp_packet_v6,
};
use crate::inbound::tun::rewrite::{echo_v4, echo_v6, rewrite_tcp_v4, rewrite_tcp_v6};
use crate::inbound::tun::session::UdpSessions;
use crate::inbound::tun::tcp_nat::TcpNat;
use crate::inbound::Target;
use crate::net::{Ipv4Addr, Ipv6Addr, SocketAddr, SocketAddrV4, SocketAddrV6};
use crate::octets::{be_bytes, lemma_be_bytes_2, lemma_be_bytes_len};

verus! {

/// Whether a checksum is right for some octets: with it their words add up to all ones.
pub open spec fn completes(ck: u16, s: Seq<u8>) -> bool {
    &&& (word_sum(s) + ck) % 0xffff == 0
    &&& ck == 0xffff <==> word_sum(s) == 0
}

/// A checksum makes the words of its octets up to all ones.
pub proof fn law_checksums_complete_their_octets(data: &[u8], r: u16)
    requires
        call_ensures(internet_checksum, (data,), r),
    ensures
        completes(r, data@),
{
    law_checksum_fills_up(data@);
}

/// The pseudo header over IPv4 is the two addresses, a zero, the protocol and the length.
pub open spec fn over_v4(src: Seq<u8>, dst: Seq<u8>, proto: u8, data: Seq<u8>) -> Seq<u8> {
    let n = data.len() as int;
    src + dst + seq![0u8, proto, ((n / 256) % 256) as u8, (n % 256) as u8] + data
}

/// The pseudo header over IPv6 is the two addresses, the length, three zeros and the protocol.
pub open spec fn over_v6(src: Seq<u8>, dst: Seq<u8>, proto: u8, data: Seq<u8>) -> Seq<u8> {
    src + dst + be_bytes(data.len(), 4) + seq![0u8, 0u8, 0u8, proto] + data
}

/// The checksums over IPv4 count the pseudo header: with the given protocol, with that of TCP, and
/// with that of UDP.
pub proof fn law_checksums_count_the_pseudo_header_v4(
    src: [u8; 4],
    dst: [u8; 4],
    proto: u8,
    data: &[u8],
    any: u16,
    tcp: u16,
    udp: u16,
)
    requires
        call_ensures(checksum_with_pseudo_v4, (&src, &dst, proto, data), any),
        call_ensures(tcp_checksum_v4, (&src, &dst, data), tcp),
        call_ensures(udp_checksum_v4, (&src, &dst, data), udp),
    ensures
        completes(any, over_v4(src@, dst@, proto, data@)),
        completes(tcp, over_v4(src@, dst@, 6, data@)),
        completes(udp, over_v4(src@, dst@, 17, data@)),
{
    lemma_be_bytes_2(data@.len());
    lemma_over_v4(src@, dst@, proto, data@);
    lemma_over_v4(src@, dst@, 6, data@);
    lemma_over_v4(src@, dst@, 17, data@);
}

proof fn lemma_over_v4(src: Seq<u8>, dst: Seq<u8>, proto: u8, data: Seq<u8>)
    ensures
        ({
            let s = pseudo_v4(src, dst, proto, data.len()) + data;
            s == over_v4(src, dst, proto, data) && completes(
                checksum_of(s),
                s,
            )
        }),
{
    let s = pseudo_v4(src, dst, proto, data.len()) + data;
    lemma_be_bytes_2(data.len());
    assert(s =~= over_v4(src, dst, proto, data));
    law_checksum_fills_up(s);
}

/// The checksums over IPv6 count the pseudo header: with the given protocol, with that of TCP, and
/// with that of UDP.
pub proof fn law_checksums_count_the_pseudo_header_v6(
    src: [u8; 16],
    dst: [u8; 16],
    proto: u8,
    data: &[u8],
    any: u16,
    tcp: u16,
    udp: u16,
)
    requires
        call_ensures(checksum_with_pseudo_v6, (&src, &dst, proto, data), any),
        call_ensures(tcp_checksum_v6, (&src, &dst, data), tcp),
        call_ensures(udp_checksum_v6, (&src, &dst, data), udp),
    ensures
        completes(any, over_v6(src@, dst@, proto, data@)),
        completes(tcp, over_v6(src@, dst@, 6, data@)),
        completes(udp, over_v6(src@, dst@, 17, data@)),
{
    law_checksum_fills_up(over_v6(src@, dst@, proto, data@));
    law_checksum_fills_up(over_v6(src@, dst@, 6, data@));
    law_checksum_fills_up(over_v6(src@, dst@, 17, data@));
}

/// Recomputing the checksum of an IPv4 header sets it where the frame holds the whole header, and
/// changes nothing otherwise.
pub proof fn law_header_checksums_are_recomputed(pkt: &mut [u8], framing: Framing, r: ())
    requires
        call_ensures(recompute_ipv4_checksum, (pkt, framing), r),
    ensures
        ({
            let off = lead(framing);
            let whole = off < old(pkt)@.len() && off + header_at(old(pkt)@, off)
                <= old(pkt)@.len();
            &&& !whole ==> final(pkt)@ == old(pkt)@
            &&& whole ==> same_but_field(final(pkt)@, old(pkt)@, off + 10) && adds_up(
                final(pkt)@.subrange(off, off + header_at(old(pkt)@, off)),
            )
        }),
{
    law_header_checksum_is_set(old(pkt)@, lead(framing));
}

/// Recomputing the checksum of TCP over IPv6 sets it where the frame holds its two octets, and
/// changes nothing otherwise.
pub proof fn law_tcp_checksums_are_recomputed_v6(pkt: &mut [u8], framing: Framing, r: ())
    requires
        call_ensures(recompute_tcp_checksum_v6, (pkt, framing), r),
    ensures
        ({
            let off = lead(framing);
            let q = final(pkt)@.skip(off);
            &&& old(pkt)@.len() < off + 58 ==> final(pkt)@ == old(pkt)@
            &&& old(pkt)@.len() >= off + 58 ==> same_but_field(final(pkt)@, old(pkt)@, off + 56)
                && adds_up(over_v6(q.subrange(8, 24), q.subrange(24, 40), 6, q.skip(40)))
        }),
{
    if old(pkt)@.len() >= lead(framing) + 58 {
        law_checksum_is_set_v6(old(pkt)@, lead(framing), 6, 16);
        lemma_set_v6(final(pkt)@, lead(framing), 6);
    }
}

/// Recomputing the checksum of an echo over IPv6 sets it where the frame holds the whole echo
/// header, and changes nothing otherwise.
pub proof fn law_echo_checksums_are_recomputed_v6(pkt: &mut [u8], framing: Framing, r: ())
    requires
        call_ensures(recompute_icmpv6_checksum, (pkt, framing), r),
    ensures
        ({
            let off = lead(framing);
            let q = final(pkt)@.skip(off);
            &&& old(pkt)@.len() < off + 48 ==> final(pkt)@ == old(pkt)@
            &&& old(pkt)@.len() >= off + 48 ==> same_but_field(final(pkt)@, old(pkt)@, off + 42)
                && adds_up(over_v6(q.subrange(8, 24), q.subrange(24, 40), 58, q.skip(40)))
        }),
{
    if old(pkt)@.len() >= lead(framing) + 48 {
        law_checksum_is_set_v6(old(pkt)@, lead(framing), 58, 2);
        lemma_set_v6(final(pkt)@, lead(framing), 58);
    }
}

proof fn lemma_set_v6(out: Seq<u8>, off: int, proto: u8)
    requires
        0 <= off,
        out.len() >= off + 40,
        adds_up(
            out.subrange(off + 8, off + 40) + be_bytes((out.len() - off - 40) as nat, 4) + seq![
                0u8,
                0u8,
                0u8,
                proto,
            ] + out.skip(off + 40),
        ),
    ensures
        ({
            let q = out.skip(off);
            adds_up(over_v6(q.subrange(8, 24), q.subrange(24, 40), proto, q.skip(40)))
        }),
{
    let q = out.skip(off);
    let n = (out.len() - off - 40) as nat;
    lemma_be_bytes_len(n, 4);
    assert(over_v6(q.subrange(8, 24), q.subrange(24, 40), proto, q.skip(40)) =~= out.subrange(
        off + 8,
        off + 40,
    ) + be_bytes(n, 4) + seq![0u8, 0u8, 0u8, proto] + out.skip(off + 40));
}

/// Recomputing the checksum of TCP over IPv4 sets it where the frame reaches to its segment, and
/// changes nothing otherwise.
pub proof fn law_tcp_checksums_are_recomputed_v4(
    pkt: &mut [u8],
    ihl: usize,
    framing: Framing,
    r: (),
)
    requires
        call_ensures(recompute_tcp_checksum_v4, (pkt, ihl, framing), r),
        ihl >= 20,
    ensures
        ({
            let tcp = lead(framing) + ihl;
            &&& old(pkt)@.len() < tcp + 2 ==> final(pkt)@ == old(pkt)@
            &&& old(pkt)@.len() >= tcp + 18 ==> same_but_field(final(pkt)@, old(pkt)@, tcp + 16)
                && adds_up(
                over_v4(
                    final(pkt)@.subrange(lead(framing) + 12, lead(framing) + 16),
                    final(pkt)@.subrange(lead(framing) + 16, lead(framing) + 20),
                    6,
                    final(pkt)@.skip(tcp),
                ),
            )
        }),
{
    let off = lead(framing);
    if old(pkt)@.len() >= off + ihl + 18 {
        let out = final(pkt)@;
        let n = out.len() - off - ihl;
        law_tcp_checksum_is_set_v4(old(pkt)@, off, ihl as int);
        assert(over_v4(
            out.subrange(off + 12, off + 16),
            out.subrange(off + 16, off + 20),
            6,
            out.skip(off + ihl),
        ) =~= out.subrange(off + 12, off + 20) + seq![
            0u8,
            6u8,
            ((n / 256) % 256) as u8,
            (n % 256) as u8,
        ] + out.skip(off + ihl));
    }
}

/// A packet is put into a frame behind its header, or as it is.
pub proof fn law_packets_are_wrapped(
    framing: Framing,
    pkt: &[u8],
    ethertype: u16,
    r: Vec<u8>,
    headed: Vec<u8>,
    offset: usize,
)
    requires
        call_ensures(Framing::wrap, (framing, pkt, ethertype), r),
        call_ensures(prepend_pi, (pkt, ethertype), headed),
        call_ensures(Framing::offset, (framing,), offset),
    ensures
        offset == lead(framing),
        framing is Bare ==> r@ == pkt@,
        framing is PacketInfo ==> r@ == headed@,
        headed@.len() == 4 + pkt@.len(),
        headed@[0] == 0 && headed@[1] == 0,
        pair_at(headed@, 2) == ethertype,
        headed@.skip(4) == pkt@,
{
    assert(headed@.skip(4) =~= pkt@);
    if framing is Bare {
        assert(r@ =~= pkt@);
    }
}

/// A TCP packet is rewritten for other places, and nothing else changes.
pub proof fn law_tcp_packets_are_rewritten_v4(
    raw: &[u8],
    src: Ipv4Addr,
    src_port: u16,
    dst: Ipv4Addr,
    dst_port: u16,
    framing: Framing,
    r: Vec<u8>,
)
    requires
        call_ensures(rewrite_tcp_v4, (raw, src, src_port, dst, dst_port, framing), r),
        raw@.len() >= 20,
        body_v4(raw@) >= 20,
        raw@.len() >= body_v4(raw@) + 20,
    ensures
        forwarded_v4(
            r@,
            raw@,
            SocketAddrV4 { ip: src, port: src_port },
            SocketAddrV4 { ip: dst, port: dst_port },
            framing,
        ),
{
    lemma_forwarded_v4(raw@, src, src_port, dst, dst_port, framing);
}

/// A TCP packet is rewritten for other places, and nothing else changes.
pub proof fn law_tcp_packets_are_rewritten_v6(
    raw: &[u8],
    src: Ipv6Addr,
    src_port: u16,
    dst: Ipv6Addr,
    dst_port: u16,
    framing: Framing,
    r: Vec<u8>,
)
    requires
        call_ensures(rewrite_tcp_v6, (raw, src, src_port, dst, dst_port, framing), r),
        raw@.len() >= 60,
    ensures
        forwarded_v6(
            r@,
            raw@,
            SocketAddrV6 { ip: src, port: src_port, flowinfo: 0, scope_id: 0 },
            SocketAddrV6 { ip: dst, port: dst_port, flowinfo: 0, scope_id: 0 },
            framing,
        ),
{
    lemma_forwarded_v6(raw@, src, src_port, dst, dst_port, framing);
}

/// The reply to an echo request goes the other way with the rest of the request.
pub proof fn law_echoes_are_made(
    raw: &[u8],
    src: Ipv4Addr,
    dst: Ipv4Addr,
    raw6: &[u8],
    src6: Ipv6Addr,
    dst6: Ipv6Addr,
    framing: Framing,
    r: Vec<u8>,
    r6: Vec<u8>,
)
    requires
        call_ensures(echo_v4, (raw, src, dst, framing), r),
        call_ensures(echo_v6, (raw6, src6, dst6, framing), r6),
        raw@.len() >= 20,
        body_v4(raw@) >= 20,
        raw@.len() >= body_v4(raw@) + 8,
        raw6@.len() >= 48,
    ensures
        echoed_v4(r@, raw@, src, dst, framing),
        echoed_v6(r6@, raw6@, src6, dst6, framing),
{
    lemma_echoed_v4(raw@, src, dst, framing);
    lemma_echoed_v6(raw6@, src6, dst6, framing);
}

/// An echo request over IPv4 is answered exactly if it is one to the device's own address.
pub proof fn law_echo_requests_are_handled_v4(
    raw: &[u8],
    ihl: usize,
    src: Ipv4Addr,
    dst: Ipv4Addr,
    addr: Option<Ipv4Addr>,
    framing: Framing,
    r: Option<Vec<u8>>,
)
    requires
        call_ensures(handle_icmpv4, (raw, ihl, src, dst, addr, framing), r),
        raw@.len() >= 20,
        ihl == body_v4(raw@),
        20 <= ihl <= raw@.len(),
    ensures
        r is Some <==> {
            &&& raw@.len() >= body_v4(raw@) + 8
            &&& raw@[body_v4(raw@)] == 8
            &&& raw@[body_v4(raw@) + 1] == 0
            &&& addr == Some(dst)
        },
        r matches Some(out) ==> echoed_v4(out@, raw@, src, dst, framing),
{
    if r is Some {
        lemma_echoed_v4(raw@, src, dst, framing);
    }
}

/// An echo request over IPv6 is answered exactly if it is one to the device's own address, or to
/// any where it has none.
pub proof fn law_echo_requests_are_handled_v6(
    raw: &[u8],
    src: Ipv6Addr,
    dst: Ipv6Addr,
    addr: Option<Ipv6Addr>,
    framing: Framing,
    r: Option<Vec<u8>>,
)
    requires
        call_ensures(handle_icmpv6, (raw, src, dst, addr, framing), r),
    ensures
        r is Some <==> {
            &&& raw@.len() >= 48
            &&& raw@[40] == 128
            &&& addr is None || addr == Some(dst)
        },
        r matches Some(out) ==> echoed_v6(out@, raw@, src, dst, framing),
{
    if r is Some {
        lemma_echoed_v6(raw@, src, dst, framing);
    }
}

/// A TCP packet over IPv4 goes to the listener, or from the listener back to the client, or
/// nowhere.
pub proof fn law_tcp_is_handled_v4(
    raw: &[u8],
    payload: &[u8],
    src: Ipv4Addr,
    dst: Ipv4Addr,
    addr: Option<Ipv4Addr>,
    next: Option<Ipv4Addr>,
    tcp_port: u16,
    table: &mut TcpNat,
    now: u128,
    framing: Framing,
    r: Option<Vec<u8>>,
)
    requires
        call_ensures(
            handle_tcp_v4,
            (raw, payload, src, dst, addr, next, tcp_port, table, now, framing),
            r,
        ),
        old(table)@.well_formed(),
        raw@.len() >= 20,
        20 <= body_v4(raw@) <= raw@.len(),
    ensures
        ({
            let at = body_v4(raw@);
            let before = old(table)@;
            let after = final(table)@;
            let back = addr == Some(src) && pair_at(raw@, at) == tcp_port;
            let port = pair_at(raw@, at + 2) as u16;
            if addr is None || next is None || raw@.len() < at + 20 {
                r is None && after == before
            } else if back {
                &&& marks_use(before, after, port, now)
                &&& r is Some <==> before.port_map.contains_key(port)
                    && before.port_map[port].source is V4 && before.port_map[port].destination is V4
                &&& r matches Some(out) ==> forwarded_v4(
                    out@,
                    raw@,
                    before.port_map[port].destination->V4_0,
                    before.port_map[port].source->V4_0,
                    framing,
                )
            } else if !reachable_v4(dst) {
                r is None && after == before
            } else {
                let s = SocketAddr::V4(
                    SocketAddrV4 { ip: src, port: pair_at(raw@, at) as u16 },
                );
                let d = SocketAddr::V4(SocketAddrV4 { ip: dst, port });
                let own = after.addr_map[s];
                &&& holds_connection(before, after, s, d, own, now)
                &&& r matches Some(out) && forwarded_v4(
                    out@,
                    raw@,
                    SocketAddrV4 { ip: next->0, port: own },
                    SocketAddrV4 { ip: addr->0, port: tcp_port },
                    framing,
                )
            }
        }),
{
    let at = body_v4(raw@);
    let before = old(table)@;
    let port = pair_at(raw@, at + 2) as u16;
    let s = SocketAddr::V4(SocketAddrV4 { ip: src, port: pair_at(raw@, at) as u16 });
    let d = SocketAddr::V4(SocketAddrV4 { ip: dst, port });
    if addr is Some && next is Some && raw@.len() >= at + 20 {
        lemma_holds_connection(before, s, d, now);
        lemma_forwarded_v4(raw@, next->0, before.port_for(s), addr->0, tcp_port, framing);
        match (before.port_map[port].destination, before.port_map[port].source) {
            (SocketAddr::V4(x), SocketAddr::V4(y)) => {
                lemma_forwarded_v4(raw@, x.ip, x.port, y.ip, y.port, framing);
            },
            _ => {},
        }
    }
}

/// A TCP packet over IPv6 goes to the listener, or from the listener back to the client, or
/// nowhere.
pub proof fn law_tcp_is_handled_v6(
    raw: &[u8],
    payload: &[u8],
    src: Ipv6Addr,
    dst: Ipv6Addr,
    addr: Option<Ipv6Addr>,
    next: Option<Ipv6Addr>,
    tcp_port: u16,
    table: &mut TcpNat,
    now: u128,
    framing: Framing,
    r: Option<Vec<u8>>,
)
    requires
        call_ensures(
            handle_tcp_v6,
            (raw, payload, src, dst, addr, next, tcp_port, table, now, framing),
            r,
        ),
        old(table)@.well_formed(),
        raw@.len() >= 40,
    ensures
        ({
            let before = old(table)@;
            let after = final(table)@;
            let back = addr == Some(src) && pair_at(raw@, 40) == tcp_port;
            let port = pair_at(raw@, 42) as u16;
            if addr is None || next is None || raw@.len() < 60 {
                r is None && after == before
            } else if back {
                &&& marks_use(before, after, port, now)
                &&& r is Some <==> before.port_map.contains_key(port)
                    && before.port_map[port].source is V6 && before.port_map[port].destination is V6
                &&& r matches Some(out) ==> forwarded_v6(
                    out@,
                    raw@,
                    before.port_map[port].destination->V6_0,
                    before.port_map[port].source->V6_0,
                    framing,
                )
            } else if !reachable_v6(dst) {
                r is None && after == before
            } else {
                let s = SocketAddr::V6(
                    SocketAddrV6 {
                        ip: src,
                        port: pair_at(raw@, 40) as u16,
                        flowinfo: 0,
                        scope_id: 0,
                    },
                );
                let d = SocketAddr::V6(
                    SocketAddrV6 { ip: dst, port, flowinfo: 0, scope_id: 0 },
                );
                let own = after.addr_map[s];
                &&& holds_connection(before, after, s, d, own, now)
                &&& r matches Some(out) && forwarded_v6(
                    out@,
                    raw@,
                    SocketAddrV6 { ip: next->0, port: own, flowinfo: 0, scope_id: 0 },
                    SocketAddrV6 { ip: addr->0, port: tcp_port, flowinfo: 0, scope_id: 0 },
                    framing,
                )
            }
        }),
{
    let before = old(table)@;
    let port = pair_at(raw@, 42) as u16;
    let s = SocketAddr::V6(
        SocketAddrV6 { ip: src, port: pair_at(raw@, 40) as u16, flowinfo: 0, scope_id: 0 },
    );
    let d = SocketAddr::V6(SocketAddrV6 { ip: dst, port, flowinfo: 0, scope_id: 0 });
    if addr is Some && next is Some && raw@.len() >= 60 {
        lemma_holds_connection(before, s, d, now);
        lemma_forwarded_v6(raw@, next->0, before.port_for(s), addr->0, tcp_port, framing);
        match (before.port_map[port].destination, before.port_map[port].source) {
            (SocketAddr::V6(x), SocketAddr::V6(y)) => {
                lemma_forwarded_v6(raw@, x.ip, x.port, y.ip, y.port, framing);
            },
            _ => {},
        }
    }
}

/// A datagram is handed on whole, and its session is marked as used.
pub proof fn law_datagrams_are_dispatched(
    src: SocketAddr,
    dst: SocketAddr,
    data: Bytes,
    tag: String,
    sessions: &mut UdpSessions,
    now: u128,
    d: UdpDelivery,
)
    requires
        call_ensures(dispatch_udp, (src, dst, data, &tag, sessions, now), d),
    ensures
        bytes_contents(d.data) == bytes_contents(data),
        d.src == src,
        d.target == Target::Socket(dst),
        d.inbound_tag@ == tag@,
        d.sniffed_protocol is None && d.sniffed_domain is None,
        d.opens_session <==> !old(sessions)@.contains_key((src, dst)),
        final(sessions)@ == old(sessions)@.insert((src, dst), now),
{
}

/// A datagram for a client is put into a frame of its family.
pub proof fn law_replies_are_built(
    src: SocketAddrV4,
    dst: SocketAddrV4,
    src6: SocketAddrV6,
    dst6: SocketAddrV6,
    payload: &[u8],
    framing: Framing,
    r: Option<Vec<u8>>,
    r6: Option<Vec<u8>>,
)
    requires
        call_ensures(build_udp_reply_v4, (src, dst, payload, framing), r),
        call_ensures(build_udp_reply_v6, (src6, dst6, payload, framing), r6),
    ensures
        r matches Some(f) && leads_with(f@, framing, 0x08, 0x00) && f@.skip(lead(framing))
            == udp_packet_v4(src, dst, payload@),
        r6 matches Some(f) && leads_with(f@, framing, 0x86, 0xdd) && f@.skip(lead(framing))
            == udp_packet_v6(src6, dst6, payload@),
{
    law_frames_hold_packets(
        framing,
        0x0800,
        udp_packet_v4(src, dst, payload@),
    );
    law_frames_hold_packets(
        framing,
        0x86dd,
        udp_packet_v6(src6, dst6, payload@),
    );
}

/// Every datagram that a packet of its family can carry fits.
pub proof fn law_datagrams_fit(src: SocketAddr, dst: SocketAddr, payload: &[u8], r: bool)
    requires
        call_ensures(reply_fits, (src, dst, payload), r),
    ensures
        payload@.len() <= 65507 ==> r,
        !(src is V4 && dst is V4) ==> r,
        src is V4 && dst is V4 && 65507 < payload@.len() < 65528 ==> !r,
{
}

} // verus!
