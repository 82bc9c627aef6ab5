//! What callers may rely on of the TUN inbound: what it does on each event.
use bytes::Bytes;
use vstd::arithmetic::power2::pow2;
use vstd::prelude::*;

use crate::buf::bytes_contents;
use crate::inbound::tun::address::{law_prefix_lengths_fit, v4_prefixes};
use crate::inbound::tun::address_laws::{
    denotes, law_masks_have_leading_ones, law_some_text_some_address, law_v4_texts_are_taken,
    v4_text,
};
use crate::inbound::tun::engine::{
    first_v4, first_v6, AcceptEvent, AcceptStep, DeviceEvent, DevicePlan, DeviceStep, TunEngine,
    TunError, TunInbound,
};
use crate::inbound::tun::frame::Framing;
use crate::inbound::tun::handlers::{ActionModel, PacketAction};
use crate::inbound::tun::laws::{
    body_v4, datagram_at, echoed_v4, echoed_v6, forwarded_v4, forwarded_v6, goes_v4, goes_v6,
    holds_connection, idle_v4, idle_v6, law_datagrams_are_handed_on_v4,
    law_datagrams_are_handed_on_v6, law_deliveries_are_complete, law_echoes_are_answered_v4,
    law_echoes_are_answered_v6, law_frames_hold_packets, law_idle_packets_are_dropped_v4,
    law_idle_packets_are_dropped_v6, law_replies_go_to_the_client_v4,
    law_replies_go_to_the_client_v6, law_strange_frames_are_dropped,
    law_tcp_goes_to_the_listener_v4, law_tcp_goes_to_the_listener_v6, law_writes_are_whole, lead,
    leads_with, lemma_holds_connection, marks_use, ports_at, reachable_v4, reachable_v6, whole_v4,
    whole_v6,
};
use crate::inbound::tun::packet::{
    build_udp_reply_packet, parse_udp_v4, parse_udp_v6, udp_packet_v4, udp_packet_v6, udp_payload,
};
use crate::inbound::tun::session::law_sessions_last_for_the_timeout;
use crate::inbound::tun::tcp_nat::{
    comes_before, law_new_sources_get_the_next_free_port, law_sweep_goes_by_time, TcpNat,
};
use crate::inbound::Target;
use crate::net::{Ipv4Addr, Ipv6Addr, SocketAddr, SocketAddrV4, SocketAddrV6};

verus! {

/// The inbound runs exactly if some text denotes an address. It then has the first address of each
/// family and the one after it, the configured timeout or else five minutes, and no connections
/// and no sessions.
pub proof fn law_inbound_needs_an_address(
    i: TunInbound,
    framing: Framing,
    r: Result<TunEngine, TunError>,
)
    requires
        call_ensures(TunInbound::run, (i, framing), r),
    ensures
        ({
            let cfg = i.spec_config();
            let a = cfg.address@;
            &&& r is Ok <==> exists|k: int| 0 <= k < a.len() && #[trigger] denotes(a, k)
            &&& r matches Ok(e) ==> {
                &&& e.config == cfg
                &&& e.framing == framing
                &&& e.inet4_addr == first_v4(a) && e.inet6_addr == first_v6(a)
                &&& e.inet4_addr is Some <==> e.inet4_next is Some
                &&& e.inet6_addr is Some <==> e.inet6_next is Some
                &&& e.inet4_addr matches Some(ip) ==> e.inet4_next->0.bits == (ip.bits + 1)
                    % 0x1_0000_0000
                &&& e.inet6_addr matches Some(ip) ==> e.inet6_next->0.bits == if ip.bits
                    == u128::MAX {
                    0
                } else {
                    ip.bits + 1
                }
                &&& cfg.udp_timeout == 0 ==> e.udp_timeout_secs == 300
                &&& cfg.udp_timeout > 0 ==> e.udp_timeout_secs == cfg.udp_timeout
                &&& e.tcp_port_v4 == 0 && e.tcp_port_v6 == 0
                &&& e.tcp_nat@.port_index == 10000
                &&& e.tcp_nat@.addr_map.dom() == Set::<SocketAddr>::empty()
                &&& e.tcp_nat@.port_map.dom() == Set::<u16>::empty()
                &&& e.udp_sessions@.dom() == Set::<(SocketAddr, SocketAddr)>::empty()
                &&& e.well_formed()
            }
        }),
{
    law_some_text_some_address(i.spec_config().address@);
}

/// A failed read is tried again after ten milliseconds, and a frame without octets ends the
/// reading; neither changes anything.
pub proof fn law_failed_reads_change_nothing(
    e: &mut TunEngine,
    event: DeviceEvent<'_>,
    now: u128,
    r: DeviceStep,
)
    requires
        call_ensures(TunEngine::on_device, (e, event, now), r),
        event matches DeviceEvent::Read(frame) ==> frame@.len() == 0,
    ensures
        event is Failed ==> r == DeviceStep::Pause(10),
        event is Read ==> r is Stop,
        *final(e) == *old(e),
{
}

/// A packet of a TCP connection over IPv4, whether it may be fragmented or not, is written back to
/// the device for the listener, and the NAT then holds its connection.
pub proof fn law_device_forwards_tcp_v4(
    e: &mut TunEngine,
    frame: &[u8],
    src: SocketAddrV4,
    dst: SocketAddrV4,
    addr: Ipv4Addr,
    next: Ipv4Addr,
    now: u128,
    r: DeviceStep,
)
    requires
        call_ensures(TunEngine::on_device, (e, DeviceEvent::Read(frame), now), r),
        old(e).well_formed(),
        frame@.len() >= lead(old(e).framing),
        whole_v4(frame@.skip(lead(old(e).framing)), 6, 20),
        goes_v4(frame@.skip(lead(old(e).framing)), src.ip, dst.ip),
        ports_at(
            frame@.skip(lead(old(e).framing)),
            body_v4(frame@.skip(lead(old(e).framing))),
            src.port,
            dst.port,
        ),
        old(e).inet4_addr == Some(addr),
        old(e).inet4_next == Some(next),
        !(src.ip == addr && src.port == old(e).tcp_port_v4),
        reachable_v4(dst.ip),
    ensures
        ({
            let port = final(e).tcp_nat@.addr_map[SocketAddr::V4(src)];
            &&& r matches DeviceStep::Act(PacketAction::Write(out)) && forwarded_v4(
                out@,
                frame@.skip(lead(old(e).framing)),
                SocketAddrV4 { ip: next, port },
                SocketAddrV4 { ip: addr, port: old(e).tcp_port_v4 },
                old(e).framing,
            )
            &&& holds_connection(
                old(e).tcp_nat@,
                final(e).tcp_nat@,
                SocketAddr::V4(src),
                SocketAddr::V4(dst),
                port,
                now,
            )
            &&& final(e).udp_sessions@ == old(e).udp_sessions@
        }),
{
    law_tcp_goes_to_the_listener_v4(*old(e), frame@, src, dst, addr, next, now);
    lemma_written(*old(e), frame@, now, r);
}

/// A packet of a TCP connection over IPv6 is written back to the device for the listener, and the
/// NAT then holds its connection.
pub proof fn law_device_forwards_tcp_v6(
    e: &mut TunEngine,
    frame: &[u8],
    src: SocketAddrV6,
    dst: SocketAddrV6,
    addr: Ipv6Addr,
    next: Ipv6Addr,
    now: u128,
    r: DeviceStep,
)
    requires
        call_ensures(TunEngine::on_device, (e, DeviceEvent::Read(frame), now), r),
        old(e).well_formed(),
        frame@.len() >= lead(old(e).framing),
        whole_v6(frame@.skip(lead(old(e).framing)), 6, 20),
        goes_v6(frame@.skip(lead(old(e).framing)), src.ip, dst.ip),
        ports_at(frame@.skip(lead(old(e).framing)), 40, src.port, dst.port),
        src.flowinfo == 0 && src.scope_id == 0,
        dst.flowinfo == 0 && dst.scope_id == 0,
        old(e).inet6_addr == Some(addr),
        old(e).inet6_next == Some(next),
        !(src.ip == addr && src.port == old(e).tcp_port_v6),
        reachable_v6(dst.ip),
    ensures
        ({
            let port = final(e).tcp_nat@.addr_map[SocketAddr::V6(src)];
            &&& r matches DeviceStep::Act(PacketAction::Write(out)) && forwarded_v6(
                out@,
                frame@.skip(lead(old(e).framing)),
                SocketAddrV6 { ip: next, port, flowinfo: 0, scope_id: 0 },
                SocketAddrV6 { ip: addr, port: old(e).tcp_port_v6, flowinfo: 0, scope_id: 0 },
                old(e).framing,
            )
            &&& holds_connection(
                old(e).tcp_nat@,
                final(e).tcp_nat@,
                SocketAddr::V6(src),
                SocketAddr::V6(dst),
                port,
                now,
            )
            &&& final(e).udp_sessions@ == old(e).udp_sessions@
        }),
{
    law_tcp_goes_to_the_listener_v6(*old(e), frame@, src, dst, addr, next, now);
    lemma_written(*old(e), frame@, now, r);
}

/// A step that writes gives the frame of the step.
proof fn lemma_written(e: TunEngine, frame: Seq<u8>, now: u128, r: DeviceStep)
    requires
        e.frame_step(frame, now).1 is Write,
        r matches DeviceStep::Act(action) && action.is_action(
            e.frame_step(frame, now).1,
            e.config.tag@,
            e.udp_sessions@,
        ),
    ensures
        r matches DeviceStep::Act(PacketAction::Write(out)) && e.frame_step(frame, now).1
            == ActionModel::Write(out@),
{
    let octets = e.frame_step(frame, now).1->Write_0;
    law_writes_are_whole(r->Act_0, octets, e.config.tag@, e.udp_sessions@);
}

/// A packet of the listener over IPv4 is written back to the device for the client, as if from
/// where the client's connection goes.
pub proof fn law_device_returns_tcp_v4(
    e: &mut TunEngine,
    frame: &[u8],
    addr: Ipv4Addr,
    next: Ipv4Addr,
    to: Ipv4Addr,
    port: u16,
    source: SocketAddrV4,
    destination: SocketAddrV4,
    now: u128,
    r: DeviceStep,
)
    requires
        call_ensures(TunEngine::on_device, (e, DeviceEvent::Read(frame), now), r),
        frame@.len() >= lead(old(e).framing),
        whole_v4(frame@.skip(lead(old(e).framing)), 6, 20),
        goes_v4(frame@.skip(lead(old(e).framing)), addr, to),
        ports_at(
            frame@.skip(lead(old(e).framing)),
            body_v4(frame@.skip(lead(old(e).framing))),
            old(e).tcp_port_v4,
            port,
        ),
        old(e).inet4_addr == Some(addr),
        old(e).inet4_next == Some(next),
        old(e).tcp_nat@.port_map.contains_key(port),
        old(e).tcp_nat@.port_map[port].source == SocketAddr::V4(source),
        old(e).tcp_nat@.port_map[port].destination == SocketAddr::V4(destination),
    ensures
        r matches DeviceStep::Act(PacketAction::Write(out)) && forwarded_v4(
            out@,
            frame@.skip(lead(old(e).framing)),
            destination,
            source,
            old(e).framing,
        ),
        marks_use(old(e).tcp_nat@, final(e).tcp_nat@, port, now),
        final(e).udp_sessions@ == old(e).udp_sessions@,
{
    law_replies_go_to_the_client_v4(
        *old(e),
        frame@,
        addr,
        next,
        to,
        port,
        source,
        destination,
        now,
    );
    lemma_written(*old(e), frame@, now, r);
}

/// A packet of the listener over IPv6 is written back to the device for the client, as if from
/// where the client's connection goes.
pub proof fn law_device_returns_tcp_v6(
    e: &mut TunEngine,
    frame: &[u8],
    addr: Ipv6Addr,
    next: Ipv6Addr,
    to: Ipv6Addr,
    port: u16,
    source: SocketAddrV6,
    destination: SocketAddrV6,
    now: u128,
    r: DeviceStep,
)
    requires
        call_ensures(TunEngine::on_device, (e, DeviceEvent::Read(frame), now), r),
        frame@.len() >= lead(old(e).framing),
        whole_v6(frame@.skip(lead(old(e).framing)), 6, 20),
        goes_v6(frame@.skip(lead(old(e).framing)), addr, to),
        ports_at(frame@.skip(lead(old(e).framing)), 40, old(e).tcp_port_v6, port),
        old(e).inet6_addr == Some(addr),
        old(e).inet6_next == Some(next),
        old(e).tcp_nat@.port_map.contains_key(port),
        old(e).tcp_nat@.port_map[port].source == SocketAddr::V6(source),
        old(e).tcp_nat@.port_map[port].destination == SocketAddr::V6(destination),
    ensures
        r matches DeviceStep::Act(PacketAction::Write(out)) && forwarded_v6(
            out@,
            frame@.skip(lead(old(e).framing)),
            destination,
            source,
            old(e).framing,
        ),
        marks_use(old(e).tcp_nat@, final(e).tcp_nat@, port, now),
        final(e).udp_sessions@ == old(e).udp_sessions@,
{
    law_replies_go_to_the_client_v6(
        *old(e),
        frame@,
        addr,
        next,
        to,
        port,
        source,
        destination,
        now,
    );
    lemma_written(*old(e), frame@, now, r);
}

/// An echo request over IPv4 to the device's own address is answered, and changes nothing.
pub proof fn law_device_answers_echoes_v4(
    e: &mut TunEngine,
    frame: &[u8],
    src: Ipv4Addr,
    addr: Ipv4Addr,
    now: u128,
    r: DeviceStep,
)
    requires
        call_ensures(TunEngine::on_device, (e, DeviceEvent::Read(frame), now), r),
        frame@.len() >= lead(old(e).framing),
        whole_v4(frame@.skip(lead(old(e).framing)), 1, 8),
        goes_v4(frame@.skip(lead(old(e).framing)), src, addr),
        frame@.skip(lead(old(e).framing))[body_v4(frame@.skip(lead(old(e).framing)))] == 8,
        frame@.skip(lead(old(e).framing))[body_v4(frame@.skip(lead(old(e).framing))) + 1] == 0,
        old(e).inet4_addr == Some(addr),
    ensures
        r matches DeviceStep::Act(PacketAction::Write(out)) && echoed_v4(
            out@,
            frame@.skip(lead(old(e).framing)),
            src,
            addr,
            old(e).framing,
        ),
        final(e).tcp_nat@ == old(e).tcp_nat@,
        final(e).udp_sessions@ == old(e).udp_sessions@,
{
    law_echoes_are_answered_v4(*old(e), frame@, src, addr, now);
    lemma_written(*old(e), frame@, now, r);
}

/// An echo request over IPv6 to the device's own address, or to any where it has none, is
/// answered, and changes nothing.
pub proof fn law_device_answers_echoes_v6(
    e: &mut TunEngine,
    frame: &[u8],
    src: Ipv6Addr,
    dst: Ipv6Addr,
    now: u128,
    r: DeviceStep,
)
    requires
        call_ensures(TunEngine::on_device, (e, DeviceEvent::Read(frame), now), r),
        frame@.len() >= lead(old(e).framing),
        whole_v6(frame@.skip(lead(old(e).framing)), 58, 8),
        goes_v6(frame@.skip(lead(old(e).framing)), src, dst),
        frame@.skip(lead(old(e).framing))[40] == 128,
        old(e).inet6_addr == Some(dst) || old(e).inet6_addr is None,
    ensures
        r matches DeviceStep::Act(PacketAction::Write(out)) && echoed_v6(
            out@,
            frame@.skip(lead(old(e).framing)),
            src,
            dst,
            old(e).framing,
        ),
        final(e).tcp_nat@ == old(e).tcp_nat@,
        final(e).udp_sessions@ == old(e).udp_sessions@,
{
    law_echoes_are_answered_v6(*old(e), frame@, src, dst, now);
    lemma_written(*old(e), frame@, now, r);
}

/// Whether a step hands a datagram on, as the first between its two ends or not, and marks the
/// session between them, and no other, as used.
pub open spec fn hands_on(
    before: TunEngine,
    after: TunEngine,
    r: DeviceStep,
    src: SocketAddr,
    dst: SocketAddr,
    data: Seq<u8>,
    now: u128,
) -> bool {
    &&& r matches DeviceStep::Act(PacketAction::Udp(d)) && {
        &&& bytes_contents(d.data) == data
        &&& d.src == src
        &&& d.target == Target::Socket(dst)
        &&& d.inbound_tag@ == before.config.tag@
        &&& d.sniffed_protocol is None && d.sniffed_domain is None
        &&& d.opens_session <==> !before.udp_sessions@.contains_key((src, dst))
    }
    &&& after.udp_sessions@ == before.udp_sessions@.insert((src, dst), now)
    &&& after.tcp_nat@ == before.tcp_nat@
}

/// A datagram over IPv4 is handed on to where it goes.
pub proof fn law_device_hands_datagrams_on_v4(
    e: &mut TunEngine,
    frame: &[u8],
    src: SocketAddrV4,
    dst: SocketAddrV4,
    now: u128,
    r: DeviceStep,
)
    requires
        call_ensures(TunEngine::on_device, (e, DeviceEvent::Read(frame), now), r),
        frame@.len() >= lead(old(e).framing),
        whole_v4(frame@.skip(lead(old(e).framing)), 17, 8),
        goes_v4(frame@.skip(lead(old(e).framing)), src.ip, dst.ip),
        ports_at(
            frame@.skip(lead(old(e).framing)),
            body_v4(frame@.skip(lead(old(e).framing))),
            src.port,
            dst.port,
        ),
    ensures
        ({
            let pkt = frame@.skip(lead(old(e).framing));
            hands_on(
                *old(e),
                *final(e),
                r,
                SocketAddr::V4(src),
                SocketAddr::V4(dst),
                datagram_at(pkt, body_v4(pkt)),
                now,
            )
        }),
{
    let pkt = frame@.skip(lead(old(e).framing));
    law_datagrams_are_handed_on_v4(*old(e), frame@, src, dst, now);
    law_deliveries_are_complete(
        r->Act_0,
        SocketAddr::V4(src),
        SocketAddr::V4(dst),
        datagram_at(pkt, body_v4(pkt)),
        old(e).config.tag@,
        old(e).udp_sessions@,
    );
}

/// A datagram over IPv6 is handed on to where it goes.
pub proof fn law_device_hands_datagrams_on_v6(
    e: &mut TunEngine,
    frame: &[u8],
    src: SocketAddrV6,
    dst: SocketAddrV6,
    now: u128,
    r: DeviceStep,
)
    requires
        call_ensures(TunEngine::on_device, (e, DeviceEvent::Read(frame), now), r),
        frame@.len() >= lead(old(e).framing),
        whole_v6(frame@.skip(lead(old(e).framing)), 17, 8),
        goes_v6(frame@.skip(lead(old(e).framing)), src.ip, dst.ip),
        ports_at(frame@.skip(lead(old(e).framing)), 40, src.port, dst.port),
        src.flowinfo == 0 && src.scope_id == 0,
        dst.flowinfo == 0 && dst.scope_id == 0,
    ensures
        hands_on(
            *old(e),
            *final(e),
            r,
            SocketAddr::V6(src),
            SocketAddr::V6(dst),
            datagram_at(frame@.skip(lead(old(e).framing)), 40),
            now,
        ),
{
    let pkt = frame@.skip(lead(old(e).framing));
    law_datagrams_are_handed_on_v6(*old(e), frame@, src, dst, now);
    law_deliveries_are_complete(
        r->Act_0,
        SocketAddr::V6(src),
        SocketAddr::V6(dst),
        datagram_at(pkt, 40),
        old(e).config.tag@,
        old(e).udp_sessions@,
    );
}

/// A frame for which there is nothing to do changes nothing.
pub proof fn law_device_drops_the_rest(
    e: &mut TunEngine,
    frame: &[u8],
    src4: Ipv4Addr,
    dst4: Ipv4Addr,
    src6: Ipv6Addr,
    dst6: Ipv6Addr,
    now: u128,
    r: DeviceStep,
)
    requires
        call_ensures(TunEngine::on_device, (e, DeviceEvent::Read(frame), now), r),
        frame@.len() > 0,
        ({
            let start = lead(old(e).framing);
            let pkt = frame@.skip(start);
            ||| frame@.len() <= start
            ||| frame@[start] / 16 != 4 && frame@[start] / 16 != 6
            ||| frame@[start] / 16 == 4 && (pkt.len() >= 20 ==> goes_v4(pkt, src4, dst4))
                && idle_v4(*old(e), pkt, src4, dst4)
            ||| frame@[start] / 16 == 6 && (pkt.len() >= 40 ==> goes_v6(pkt, src6, dst6))
                && idle_v6(*old(e), pkt, src6, dst6)
        }),
    ensures
        r matches DeviceStep::Act(action) && action is Drop,
        final(e).tcp_nat@ == old(e).tcp_nat@,
        final(e).udp_sessions@ == old(e).udp_sessions@,
{
    let start = lead(old(e).framing);
    let pkt = frame@.skip(start);
    if frame@.len() <= start || (frame@[start] / 16 != 4 && frame@[start] / 16 != 6) {
        law_strange_frames_are_dropped(*old(e), frame@, now);
    } else if frame@[start] / 16 == 4 {
        law_idle_packets_are_dropped_v4(*old(e), frame@, src4, dst4, now);
    } else {
        law_idle_packets_are_dropped_v6(*old(e), frame@, src6, dst6, now);
    }
    law_writes_are_whole(r->Act_0, Seq::empty(), old(e).config.tag@, old(e).udp_sessions@);
}

/// A connection to a listener is handed on to where the connection at the port of its peer goes,
/// which then counts as used; one from a port that nobody holds is closed. A failure is tried
/// again after five milliseconds.
pub proof fn law_connections_go_where_their_port_says(
    e: &mut TunEngine,
    event: AcceptEvent,
    now: u128,
    r: AcceptStep,
)
    requires
        call_ensures(TunEngine::on_accept, (e, event, now), r),
    ensures
        event is Failed ==> r == AcceptStep::Pause(5) && final(e).tcp_nat == old(e).tcp_nat,
        event matches AcceptEvent::Accepted(peer) ==> {
            let port = match peer {
                SocketAddr::V4(s) => s.port,
                SocketAddr::V6(s) => s.port,
            };
            let held = old(e).tcp_nat@.port_map.contains_key(port);
            &&& marks_use(old(e).tcp_nat@, final(e).tcp_nat@, port, now)
            &&& !held ==> r is Drop
            &&& held ==> (r matches AcceptStep::Deliver(d) && {
                &&& d.target == Target::Socket(old(e).tcp_nat@.port_map[port].destination)
                &&& d.inbound_tag@ == old(e).config.tag@
                &&& d.sniffed_protocol is None && d.sniffed_domain is None
            })
        },
        final(e).udp_sessions == old(e).udp_sessions,
{
}

/// A tick takes out the connections and the sessions that were not used for the timeout, tells
/// which sessions those are, and leaves the others as they are.
pub proof fn law_ticks_take_out_the_idle(
    e: &mut TunEngine,
    now: u128,
    dropped: Vec<(SocketAddr, SocketAddr)>,
    p: u16,
    k: (SocketAddr, SocketAddr),
)
    requires
        call_ensures(TunEngine::on_tick, (e, now), dropped),
        old(e).well_formed(),
    ensures
        ({
            let timeout = old(e).udp_timeout_secs * 1_000_000_000;
            let before = old(e).tcp_nat@.port_map;
            let after = final(e).tcp_nat@.port_map;
            let sessions = old(e).udp_sessions@;
            let left = final(e).udp_sessions@;
            &&& after.contains_key(p) <==> before.contains_key(p) && timeout > 0 && now
                <= before[p].last_active + timeout
            &&& after.contains_key(p) ==> after[p] == before[p]
            &&& left.contains_key(k) <==> sessions.contains_key(k) && timeout > 0 && now
                < sessions[k] + timeout
            &&& left.contains_key(k) ==> left[k] == sessions[k]
            &&& dropped@.contains(k) <==> sessions.contains_key(k) && !left.contains_key(k)
        }),
{
    let timeout = (old(e).udp_timeout_secs * 1_000_000_000) as u128;
    let s = old(e).tcp_nat@.port_map[p].source;
    assert(old(e).udp_timeout_secs * 1_000_000_000 <= u128::MAX);
    law_sweep_goes_by_time(old(e).tcp_nat@, timeout, now, p, s);
    law_sessions_last_for_the_timeout(old(e).udp_sessions@, timeout, now, k);
}

/// Times: an idle session ends after the configured seconds, and sweeps come twice in that time.
pub proof fn law_sweeps_come_twice_in_a_timeout(e: TunEngine, timeout: u128, interval: u128)
    requires
        call_ensures(TunEngine::timeout_nanos, (&e,), timeout),
        call_ensures(TunEngine::sweep_interval_nanos, (&e,), interval),
    ensures
        timeout == e.udp_timeout_secs * 1_000_000_000,
        2 * interval == timeout,
{
}

/// The ports of the listeners are noted, and nothing else changes.
pub proof fn law_listeners_are_noted(e: &mut TunEngine, v4: u16, v6: u16, r: ())
    requires
        call_ensures(TunEngine::listeners_bound, (e, v4, v6), r),
    ensures
        final(e).tcp_port_v4 == v4 && final(e).tcp_port_v6 == v6,
        final(e).config == old(e).config && final(e).framing == old(e).framing,
        final(e).inet4_addr == old(e).inet4_addr && final(e).inet4_next == old(e).inet4_next,
        final(e).inet6_addr == old(e).inet6_addr && final(e).inet6_next == old(e).inet6_next,
        final(e).udp_timeout_secs == old(e).udp_timeout_secs,
        final(e).tcp_nat == old(e).tcp_nat && final(e).udp_sessions == old(e).udp_sessions,
{
}

/// The device has the configured name and size of packets, the first IPv4 address with the mask of
/// its prefix length, and a header before each packet where frames have one.
pub proof fn law_device_is_as_configured(e: TunEngine, r: DevicePlan, size: usize, name: String)
    requires
        call_ensures(TunEngine::device, (&e,), r),
        call_ensures(TunEngine::buffer_size, (&e,), size),
        call_ensures(TunEngine::interface_name, (&e,), name),
    ensures
        e.config.interface_name matches Some(n) ==> (r.name matches Some(m) && m@ == n@) && name@
            == n@,
        e.config.interface_name is None ==> r.name is None && name@ == "tun0"@,
        r.mtu == e.config.mtu,
        size == e.config.mtu + 64,
        r.packet_information <==> e.framing is PacketInfo,
        r.address is Some <==> first_v4(e.config.address@) is Some,
        r.address matches Some((ip, mask)) ==> {
            &&& ip == first_v4(e.config.address@)->0
            &&& exists|k: int, len: u8|
                0 <= k < e.config.address@.len() && #[trigger] v4_text(e.config.address@)(k)
                    == Some((ip, len)) && len <= 32 && mask.bits + #[trigger] pow2((32 - len) as nat) == 0x1_0000_0000
        },
{
    let a = e.config.address@;
    if r.address is Some {
        let at = law_v4_texts_are_taken(a);
        let (ip, len) = v4_prefixes(a)[0];
        law_prefix_lengths_fit(a);
        law_masks_have_leading_ones(len);
        assert(v4_text(a)(at[0]) == Some((ip, len)));
    }
}

/// A datagram in a packet is read as its ports, with the given addresses, and its octets; what is
/// shorter than a header is none.
pub proof fn law_datagrams_are_read_v4(
    udp: &[u8],
    src: Ipv4Addr,
    dst: Ipv4Addr,
    r: Option<(SocketAddr, SocketAddr, Bytes)>,
)
    requires
        call_ensures(parse_udp_v4, (udp, src, dst), r),
    ensures
        r is Some <==> udp@.len() >= 8,
        r matches Some((from, to, data)) ==> {
            &&& from matches SocketAddr::V4(s) && s.ip == src && s.port == udp@[0] * 256 + udp@[1]
            &&& to matches SocketAddr::V4(d) && d.ip == dst && d.port == udp@[2] * 256 + udp@[3]
            &&& bytes_contents(data) == datagram_at(udp@, 0)
        },
{
    if udp@.len() >= 8 {
        assert(udp_payload(udp@) =~= datagram_at(udp@, 0));
    }
}

/// A datagram in a packet is read as its ports, with the given addresses, and its octets; what is
/// shorter than a header is none.
pub proof fn law_datagrams_are_read_v6(
    udp: &[u8],
    src: Ipv6Addr,
    dst: Ipv6Addr,
    r: Option<(SocketAddr, SocketAddr, Bytes)>,
)
    requires
        call_ensures(parse_udp_v6, (udp, src, dst), r),
    ensures
        r is Some <==> udp@.len() >= 8,
        r matches Some((from, to, data)) ==> {
            &&& from matches SocketAddr::V6(s) && s.ip == src && s.port == udp@[0] * 256 + udp@[1]
                && s.flowinfo == 0 && s.scope_id == 0
            &&& to matches SocketAddr::V6(d) && d.ip == dst && d.port == udp@[2] * 256 + udp@[3]
                && d.flowinfo == 0 && d.scope_id == 0
            &&& bytes_contents(data) == datagram_at(udp@, 0)
        },
{
    if udp@.len() >= 8 {
        assert(udp_payload(udp@) =~= datagram_at(udp@, 0));
    }
}

/// A datagram for a client goes into a frame of the family of both its ends; between ends of two
/// families there is none.
pub proof fn law_replies_go_into_frames(
    src: SocketAddr,
    dst: SocketAddr,
    payload: &[u8],
    framing: Framing,
    r: Option<Vec<u8>>,
)
    requires
        call_ensures(build_udp_reply_packet, (src, dst, payload, framing), r),
    ensures
        r is Some <==> (src is V4 <==> dst is V4),
        r matches Some(frame) ==> {
            let pkt = frame@.skip(lead(framing));
            &&& src is V4 ==> leads_with(frame@, framing, 0x08, 0x00) && pkt == udp_packet_v4(
                src->V4_0,
                dst->V4_0,
                payload@,
            )
            &&& src is V6 ==> leads_with(frame@, framing, 0x86, 0xdd) && pkt == udp_packet_v6(
                src->V6_0,
                dst->V6_0,
                payload@,
            )
        },
{
    match (src, dst) {
        (SocketAddr::V4(s), SocketAddr::V4(d)) => {
            law_frames_hold_packets(framing, 0x0800, udp_packet_v4(s, d, payload@));
        },
        (SocketAddr::V6(s), SocketAddr::V6(d)) => {
            law_frames_hold_packets(framing, 0x86dd, udp_packet_v6(s, d, payload@));
        },
        _ => {},
    }
}

/// A source that the NAT knows keeps its port; a new one gets the first free port on the way round,
/// or, where none is free, the one that was used the longest ago. The NAT then holds its
/// connection.
pub proof fn law_sources_get_a_port(
    nat_table: &mut TcpNat,
    src: SocketAddr,
    dst: SocketAddr,
    now: u128,
    r: u16,
)
    requires
        call_ensures(TcpNat::lookup_or_insert, (nat_table, src, dst, now), r),
        old(nat_table)@.well_formed(),
    ensures
        ({
            let before = old(nat_table)@;
            let after = final(nat_table)@;
            let full = forall|p: u16|
                10000 <= p <= 60000 ==> #[trigger] before.port_map.contains_key(p);
            &&& holds_connection(before, after, src, dst, r, now)
            &&& !before.addr_map.contains_key(src) && !full ==> forall|p: u16| #[trigger]
                comes_before(p, r, before.port_index) ==> before.port_map.contains_key(p)
            &&& !before.addr_map.contains_key(src) && full ==> forall|p: u16|
                10000 <= p <= 60000 ==> before.port_map[r].last_active <= (
                #[trigger] before.port_map[p]).last_active
        }),
{
    let before = old(nat_table)@;
    lemma_holds_connection(before, src, dst, now);
    if !before.addr_map.contains_key(src) {
        law_new_sources_get_the_next_free_port(before, src, dst, now);
    }
}

/// A port leads back to the source and the destination of its connection, which then counts as
/// used; one that nobody holds leads nowhere.
pub proof fn law_ports_lead_back(
    nat_table: &mut TcpNat,
    port: u16,
    now: u128,
    r: Option<(SocketAddr, SocketAddr)>,
)
    requires
        call_ensures(TcpNat::lookup_back, (nat_table, port, now), r),
    ensures
        r is Some <==> old(nat_table)@.port_map.contains_key(port),
        r matches Some((source, destination)) ==> source == old(nat_table)@.port_map[port].source
            && destination == old(nat_table)@.port_map[port].destination,
        marks_use(old(nat_table)@, final(nat_table)@, port, now),
{
}

/// A sweep of the NAT keeps what was used within the timeout, as it is, and nothing else.
pub proof fn law_nat_is_swept(nat_table: &mut TcpNat, timeout: u128, now: u128, p: u16, r: ())
    requires
        call_ensures(TcpNat::gc, (nat_table, timeout, now), r),
        old(nat_table)@.well_formed(),
    ensures
        ({
            let before = old(nat_table)@.port_map;
            let after = final(nat_table)@.port_map;
            &&& after.contains_key(p) <==> before.contains_key(p) && timeout > 0 && now
                <= before[p].last_active + timeout
            &&& after.contains_key(p) ==> after[p] == before[p]
        }),
{
    let s = old(nat_table)@.port_map[p].source;
    law_sweep_goes_by_time(old(nat_table)@, timeout, now, p, s);
}

/// The texts of the inbound, and how many connections its NAT holds.
pub proof fn law_inbound_tells_what_it_lacks(e: TunError, text: String, table: TcpNat, n: usize)
    requires
        call_ensures(TunError::message, (e,), text),
        call_ensures(TcpNat::len, (&table,), n),
    ensures
        text@ == "tun: at least one address must be configured"@,
        n == table@.port_map.dom().len(),
{
}

} // verus!
