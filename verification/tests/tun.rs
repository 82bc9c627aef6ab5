use bytes::Bytes;
use reflex::config::inbound::TunInboundConfig;
use reflex::inbound::tun::address::{
    parse_addr_prefix, prefix_len_to_mask_v4, v4_network, v6_network,
};
use reflex::inbound::tun::checksum::{
    checksum_with_pseudo_v4, checksum_with_pseudo_v6, internet_checksum, recompute_icmpv6_checksum,
    recompute_ipv4_checksum, recompute_tcp_checksum_v4, recompute_tcp_checksum_v6, tcp_checksum_v4,
    tcp_checksum_v6, udp_checksum_v4, udp_checksum_v6,
};
use reflex::inbound::tun::engine::{
    AcceptEvent, AcceptStep, DeviceEvent, DeviceStep, TunEngine, TunError, TunInbound,
};
use reflex::inbound::tun::frame::{prepend_pi, Framing};
use reflex::inbound::tun::handlers::{
    dispatch_udp, handle_icmpv4, handle_icmpv6, handle_tcp_v4, handle_tcp_v6, process_ipv4,
    PacketAction,
};
use reflex::inbound::tun::packet::{
    build_udp_reply_packet, build_udp_reply_v4, build_udp_reply_v6, parse_udp_v4, parse_udp_v6,
    reply_fits,
};
use reflex::inbound::tun::session::UdpSessions;
use reflex::inbound::tun::tcp_nat::{TcpNat, NAT_PORT_END, NAT_PORT_START};
use reflex::inbound::Target;
use reflex::net::{IpAddr, Ipv4Addr, Ipv6Addr, SocketAddr, SocketAddrV4, SocketAddrV6};

fn sock(ip: &str, port: u16) -> SocketAddr {
    SocketAddr::new(IpAddr::parse(ip).unwrap(), port)
}

fn v4(ip: &str) -> Ipv4Addr {
    Ipv4Addr::parse(ip).unwrap()
}

fn v6(ip: &str) -> Ipv6Addr {
    Ipv6Addr::parse(ip).unwrap()
}

fn config(address: &[&str]) -> TunInboundConfig {
    TunInboundConfig {
        tag: "tun-in".to_string(),
        interface_name: None,
        address: address.iter().map(|s| s.to_string()).collect(),
        mtu: 1500,
        auto_route: false,
        strict_route: false,
        udp_timeout: 0,
        iproute2_table_index: 2022,
        iproute2_rule_index: 9000,
        include_interface: vec![],
        exclude_interface: vec![],
        include_uid: vec![],
        exclude_uid: vec![],
    }
}

/// A TCP packet over IPv4 with a header of twenty octets.
fn tcp_packet(src: &str, sport: u16, dst: &str, dport: u16) -> Vec<u8> {
    let mut p = vec![0u8; 44];
    p[0] = 0x45;
    p[3] = 44;
    p[8] = 64;
    p[9] = 6;
    p[12..16].copy_from_slice(&v4(src).octets());
    p[16..20].copy_from_slice(&v4(dst).octets());
    p[20..22].copy_from_slice(&sport.to_be_bytes());
    p[22..24].copy_from_slice(&dport.to_be_bytes());
    p[32] = 0x50;
    p[33] = 0x02;
    p[40..44].copy_from_slice(b"data");
    p
}

fn tcp_packet_v6(src: &str, sport: u16, dst: &str, dport: u16) -> Vec<u8> {
    let mut p = vec![0u8; 63];
    p[0] = 0x60;
    p[5] = 23;
    p[6] = 6;
    p[7] = 64;
    p[8..24].copy_from_slice(&v6(src).octets());
    p[24..40].copy_from_slice(&v6(dst).octets());
    p[40..42].copy_from_slice(&sport.to_be_bytes());
    p[42..44].copy_from_slice(&dport.to_be_bytes());
    p[60..63].copy_from_slice(b"odd");
    p
}

fn four(p: &[u8], at: usize) -> [u8; 4] {
    [p[at], p[at + 1], p[at + 2], p[at + 3]]
}

fn sixteen(p: &[u8], at: usize) -> [u8; 16] {
    let mut r = [0u8; 16];
    r.copy_from_slice(&p[at..at + 16]);
    r
}

fn engine(address: &[&str], framing: Framing) -> TunEngine {
    let mut e = match TunInbound::new(config(address)).run(framing) {
        Ok(e) => e,
        Err(e) => panic!("{}", e.message()),
    };
    e.listeners_bound(40000, 50000);
    e
}

#[test]
fn test_parse_addr_prefix() {
    let (ip, len) = parse_addr_prefix("198.18.0.1/16").unwrap();
    assert_eq!(ip, IpAddr::parse("198.18.0.1").unwrap());
    assert_eq!(len, 16);
}

#[test]
fn test_parse_addr_prefix_ipv6() {
    let (ip, len) = parse_addr_prefix("fd00::1/126").unwrap();
    assert!(ip.is_ipv6());
    assert_eq!(len, 126);
}

#[test]
fn test_parse_addr_prefix_invalid() {
    assert!(parse_addr_prefix("198.18.0.1").is_none());
    assert!(parse_addr_prefix("198.18.0.1/33").is_none());
}

#[test]
fn prefix_lengths_are_bounded_by_the_family() {
    assert!(parse_addr_prefix("::1/128").is_some());
    assert!(parse_addr_prefix("::1/129").is_none());
    assert!(parse_addr_prefix("1.2.3.4/0").is_some());
    assert!(parse_addr_prefix("1.2.3.4/256").is_none());
    assert!(parse_addr_prefix("1.2.3.4/").is_none());
    assert!(parse_addr_prefix("1.2.3.4/8/8").is_none());
    assert_eq!(parse_addr_prefix("1.2.3.4/+8").unwrap().1, 8);
}

#[test]
fn masks_and_networks() {
    assert_eq!(prefix_len_to_mask_v4(0).text(), "0.0.0.0");
    assert_eq!(prefix_len_to_mask_v4(16).text(), "255.255.0.0");
    assert_eq!(prefix_len_to_mask_v4(30).text(), "255.255.255.252");
    assert_eq!(prefix_len_to_mask_v4(32).text(), "255.255.255.255");
    assert_eq!(prefix_len_to_mask_v4(200).text(), "255.255.255.255");
    assert_eq!(v4_network(v4("198.18.77.5"), 15).text(), "198.18.0.0");
    assert_eq!(v4_network(v4("198.18.77.5"), 32).text(), "198.18.77.5");
    assert_eq!(v6_network(v6("fd00::ab:1"), 112).text(), "fd00::ab:0");
    assert_eq!(v6_network(v6("fd00::1"), 1).text(), "8000::");
}

#[test]
fn test_internet_checksum_known() {
    let hdr = [
        0x45u8, 0x00, 0x00, 0x3c, 0x1c, 0x46, 0x40, 0x00, 0x40, 0x06, 0x00, 0x00, 0xac, 0x10, 0x0a,
        0x63, 0xac, 0x10, 0x0a, 0x0c,
    ];
    let cksum = internet_checksum(&hdr);
    assert_ne!(cksum, 0);
}

#[test]
fn internet_checksum_exact() {
    let hdr = [
        0x45u8, 0x00, 0x00, 0x3c, 0x1c, 0x46, 0x40, 0x00, 0x40, 0x06, 0x00, 0x00, 0xac, 0x10, 0x0a,
        0x63, 0xac, 0x10, 0x0a, 0x0c,
    ];
    assert_eq!(internet_checksum(&hdr), 0xb1e6);
    assert_eq!(internet_checksum(&[]), 0xffff);
    assert_eq!(internet_checksum(&[0x01]), 0xfeff);
    assert_eq!(internet_checksum(&[0xff, 0xff, 0x00, 0x01]), 0xfffe);
    assert_eq!(internet_checksum(&vec![0xffu8; 200_000]), 0);
}

#[test]
fn pseudo_header_checksums() {
    let src = [192, 168, 0, 1];
    let dst = [192, 168, 0, 2];
    let data = [0x00, 0x35, 0x00, 0x35, 0x00, 0x09, 0x00, 0x00, 0x61];
    assert_eq!(udp_checksum_v4(&src, &dst, &data), 0x1d1e);
    assert_eq!(
        udp_checksum_v4(&src, &dst, &data),
        checksum_with_pseudo_v4(&src, &dst, 17, &data)
    );
    assert_eq!(
        tcp_checksum_v4(&src, &dst, &data),
        checksum_with_pseudo_v4(&src, &dst, 6, &data)
    );
    let s6 = [0u8; 16];
    let d6 = [1u8; 16];
    assert_eq!(
        udp_checksum_v6(&s6, &d6, &data),
        checksum_with_pseudo_v6(&s6, &d6, 17, &data)
    );
    assert_eq!(
        tcp_checksum_v6(&s6, &d6, &data),
        checksum_with_pseudo_v6(&s6, &d6, 6, &data)
    );
    assert_eq!(checksum_with_pseudo_v6(&s6, &d6, 17, &[]), 0xf7e6);
}

#[test]
fn recomputing_leaves_short_frames_alone() {
    let mut short = vec![7u8; 19];
    recompute_ipv4_checksum(&mut short, Framing::Bare);
    recompute_tcp_checksum_v4(&mut short, 20, Framing::Bare);
    recompute_tcp_checksum_v6(&mut short, Framing::Bare);
    recompute_icmpv6_checksum(&mut short, Framing::Bare);
    assert_eq!(short, vec![7u8; 19]);
    // A header with options must be there as a whole.
    let mut cut = vec![0u8; 23];
    cut[0] = 0x46;
    recompute_ipv4_checksum(&mut cut, Framing::Bare);
    assert_eq!(&cut[1..], &[0u8; 22]);
    let mut framed = vec![7u8; 23];
    recompute_ipv4_checksum(&mut framed, Framing::PacketInfo);
    assert_eq!(framed, vec![7u8; 23]);
}

#[test]
fn recomputed_checksums_verify() {
    let mut p = tcp_packet("10.0.0.1", 1234, "8.8.8.8", 443);
    recompute_tcp_checksum_v4(&mut p, 20, Framing::Bare);
    recompute_ipv4_checksum(&mut p, Framing::Bare);
    assert_eq!(internet_checksum(&p[..20]), 0);
    assert_eq!(tcp_checksum_v4(&four(&p, 12), &four(&p, 16), &p[20..]), 0);
    let mut q = tcp_packet_v6("fd00::5", 1234, "2001:db8::1", 443);
    recompute_tcp_checksum_v6(&mut q, Framing::Bare);
    assert_eq!(tcp_checksum_v6(&sixteen(&q, 8), &sixteen(&q, 24), &q[40..]), 0);
}

#[test]
fn header_checksums_cover_options() {
    for framing in [Framing::Bare, Framing::PacketInfo] {
        let off = framing.offset();
        let plain = tcp_packet("192.168.7.7", 5555, "93.184.216.34", 443);
        let mut p = plain[..20].to_vec();
        p[0] = 0x47;
        p.extend_from_slice(&[0x94, 4, 0x12, 0x34, 1, 1, 1, 0]);
        p.extend_from_slice(&plain[20..]);
        let mut e = engine(&["198.18.0.1/16"], framing);
        let out = match e.on_device(DeviceEvent::Read(&framing.wrap(&p, 0x0800)), 1) {
            DeviceStep::Act(PacketAction::Write(f)) => f,
            _ => panic!("a frame"),
        };
        let pkt = &out[off..];
        assert_eq!(&pkt[20..28], &[0x94, 4, 0x12, 0x34, 1, 1, 1, 0]);
        assert_eq!(internet_checksum(&pkt[..28]), 0);
        assert_eq!(tcp_checksum_v4(&four(pkt, 12), &four(pkt, 16), &pkt[28..]), 0);
    }
}

#[test]
fn packet_information_header() {
    assert_eq!(prepend_pi(&[1, 2], 0x86dd), vec![0, 0, 0x86, 0xdd, 1, 2]);
    assert_eq!(Framing::PacketInfo.offset(), 4);
    assert_eq!(Framing::Bare.offset(), 0);
    assert_eq!(Framing::Bare.wrap(&[9], 0x0800), vec![9]);
    assert_eq!(Framing::PacketInfo.wrap(&[9], 0x0800), vec![0, 0, 8, 0, 9]);
}

#[test]
fn test_tcp_nat_alloc_and_lookup() {
    let mut nat = TcpNat::new();
    let src = sock("1.2.3.4", 5678);
    let dst = sock("8.8.8.8", 80);
    let port = nat.lookup_or_insert(src, dst, 1);
    assert!(port >= NAT_PORT_START && port <= NAT_PORT_END);
    let port2 = nat.lookup_or_insert(src, dst, 2);
    assert_eq!(port, port2, "same src should get same port");
    let (got_src, got_dst) = nat.lookup_back(port, 3).unwrap();
    assert_eq!(got_src, src);
    assert_eq!(got_dst, dst);
}

#[test]
fn test_tcp_nat_gc() {
    let mut nat = TcpNat::new();
    let src = sock("1.2.3.4", 9999);
    let dst = sock("9.9.9.9", 443);
    nat.lookup_or_insert(src, dst, 10);
    // A sweep with no timeout clears everything.
    nat.gc(0, 10);
    assert_eq!(nat.len(), 0);
}

#[test]
fn nat_ports_follow_each_other_and_differ() {
    let mut nat = TcpNat::new();
    let dst = sock("8.8.8.8", 80);
    assert_eq!(nat.lookup_or_insert(sock("1.2.3.4", 1), dst, 0), 10000);
    assert_eq!(nat.lookup_or_insert(sock("1.2.3.4", 2), dst, 0), 10001);
    assert_eq!(nat.lookup_or_insert(sock("1.2.3.4", 1), dst, 0), 10000);
    assert_eq!(nat.lookup_or_insert(sock("fd00::1", 1), dst, 0), 10002);
    assert_eq!(nat.len(), 3);
    assert!(nat.lookup_back(10003, 0).is_none());
}

#[test]
fn nat_keeps_the_first_destination_of_a_source() {
    let mut nat = TcpNat::new();
    let src = sock("1.2.3.4", 1);
    let port = nat.lookup_or_insert(src, sock("8.8.8.8", 80), 0);
    assert_eq!(nat.lookup_or_insert(src, sock("9.9.9.9", 81), 0), port);
    assert_eq!(nat.lookup_back(port, 0).unwrap().1, sock("8.8.8.8", 80));
}

#[test]
fn nat_reuses_the_port_that_was_idle_the_longest() {
    let mut nat = TcpNat::new();
    let dst = sock("8.8.8.8", 80);
    let source = |n: u32| {
        SocketAddr::V4(SocketAddrV4 { ip: Ipv4Addr { bits: 0x0a00_0000 + n }, port: 1 })
    };
    for n in 0..50001u32 {
        assert_eq!(u32::from(nat.lookup_or_insert(source(n), dst, 100)), 10000 + n);
    }
    // Port 10007 was last used before all others.
    for port in 10000..=60000u16 {
        if port != 10007 {
            assert!(nat.lookup_back(port, 200).is_some());
        }
    }
    let new = sock("1.2.3.4", 9);
    let other = sock("9.9.9.9", 443);
    assert_eq!(nat.lookup_or_insert(new, other, 300), 10007);
    assert_eq!(nat.lookup_back(10007, 300), Some((new, other)));
    assert_eq!(nat.lookup_back(10008, 300), Some((source(8), dst)));
    assert_eq!(nat.len(), 50001);
    // The source that lost its port gets another one: that of the next in age.
    assert_eq!(nat.lookup_or_insert(source(7), dst, 400), 10000);
    assert_eq!(nat.lookup_back(10000, 400), Some((source(7), dst)));
    assert_eq!(nat.lookup_back(10007, 400), Some((new, other)));
}

#[test]
fn idle_entries_are_gone_by_one_and_a_half_timeouts() {
    let mut e = engine(&["198.18.0.1/16"], Framing::Bare);
    let interval = e.sweep_interval_nanos();
    let timeout = e.timeout_nanos();
    assert_eq!((interval, timeout), (150_000_000_000, 300_000_000_000));
    let used = 7;
    let syn = tcp_packet("192.168.7.7", 5555, "93.184.216.34", 443);
    e.on_device(DeviceEvent::Read(&syn), used);
    let src = SocketAddrV4 { ip: v4("10.0.0.2"), port: 4000 };
    let dst = SocketAddrV4 { ip: v4("8.8.8.8"), port: 53 };
    let query = build_udp_reply_v4(src, dst, b"query", Framing::Bare).unwrap();
    e.on_device(DeviceEvent::Read(&query), used);
    let mut now = 0;
    while now + interval <= used + timeout + interval {
        now += interval;
        e.on_tick(now);
        let idle = now - used;
        assert_eq!(e.tcp_nat.len(), usize::from(idle <= timeout));
        let there = e.udp_sessions.contains(SocketAddr::V4(src), SocketAddr::V4(dst));
        assert_eq!(there, idle < timeout);
    }
    assert_eq!(e.tcp_nat.len(), 0);
}

#[test]
fn nat_sweep_spares_what_was_used() {
    let mut nat = TcpNat::new();
    let dst = sock("8.8.8.8", 80);
    let a = nat.lookup_or_insert(sock("1.2.3.4", 1), dst, 0);
    let b = nat.lookup_or_insert(sock("1.2.3.4", 2), dst, 0);
    assert!(nat.lookup_back(b, 50).is_some());
    nat.gc(100, 101);
    assert!(nat.lookup_back(a, 101).is_none());
    assert!(nat.lookup_back(b, 101).is_some());
    // The port of a swept source is free, but comes up again only after all others.
    assert_eq!(nat.lookup_or_insert(sock("1.2.3.4", 1), dst, 102), 10002);
    // Exactly the timeout is not too long.
    nat.gc(100, 201);
    assert!(nat.lookup_back(b, 201).is_some());
}

#[test]
fn test_build_udp_reply_v4_length() {
    let src = sock("8.8.8.8", 53);
    let dst = sock("192.168.1.1", 12345);
    let payload = b"hello world";
    let pkt = build_udp_reply_packet(src, dst, payload, Framing::PacketInfo).unwrap();
    assert_eq!(pkt.len(), 4 + 20 + 8 + payload.len());
    let pkt = build_udp_reply_packet(src, dst, payload, Framing::Bare).unwrap();
    assert_eq!(pkt.len(), 20 + 8 + payload.len());
}

#[test]
fn test_build_udp_reply_v6_length() {
    let src = sock("2001:db8::1", 53);
    let dst = sock("fe80::1", 12345);
    let payload = b"test";
    let pkt = build_udp_reply_packet(src, dst, payload, Framing::PacketInfo).unwrap();
    assert_eq!(pkt.len(), 4 + 40 + 8 + payload.len());
    let pkt = build_udp_reply_packet(src, dst, payload, Framing::Bare).unwrap();
    assert_eq!(pkt.len(), 40 + 8 + payload.len());
}

#[test]
fn udp_reply_v4_octets() {
    let src = SocketAddrV4 { ip: v4("8.8.8.8"), port: 53 };
    let dst = SocketAddrV4 { ip: v4("10.0.0.2"), port: 4000 };
    let pkt = build_udp_reply_v4(src, dst, b"hi!", Framing::Bare).unwrap();
    assert_eq!(&pkt[..10], &[0x45, 0, 0, 31, 0, 0, 0x40, 0, 64, 17]);
    assert_eq!(internet_checksum(&pkt[..20]), 0);
    assert_eq!(&pkt[12..20], &[8, 8, 8, 8, 10, 0, 0, 2]);
    assert_eq!(&pkt[20..26], &[0, 53, 0x0f, 0xa0, 0, 11]);
    assert_eq!(udp_checksum_v4(&four(&pkt, 12), &four(&pkt, 16), &pkt[20..]), 0);
    let (s, d, data) = parse_udp_v4(&pkt[20..], v4("8.8.8.8"), v4("10.0.0.2")).unwrap();
    assert_eq!(s, SocketAddr::V4(src));
    assert_eq!(d, SocketAddr::V4(dst));
    assert_eq!(&data[..], b"hi!");
}

#[test]
fn udp_reply_v6_octets() {
    let src = SocketAddrV6 { ip: v6("2001:db8::1"), port: 53, flowinfo: 0, scope_id: 0 };
    let dst = SocketAddrV6 { ip: v6("fd00::2"), port: 4000, flowinfo: 0, scope_id: 0 };
    let framed = build_udp_reply_v6(src, dst, b"", Framing::PacketInfo).unwrap();
    assert_eq!(&framed[..4], &[0, 0, 0x86, 0xdd]);
    let pkt = &framed[4..];
    assert_eq!(&pkt[..8], &[0x60, 0, 0, 0, 0, 8, 17, 64]);
    assert_eq!(udp_checksum_v6(&sixteen(pkt, 8), &sixteen(pkt, 24), &pkt[40..]), 0);
    let (s, d, data) = parse_udp_v6(&pkt[40..], src.ip, dst.ip).unwrap();
    assert_eq!(s, SocketAddr::V6(src));
    assert_eq!(d, SocketAddr::V6(dst));
    assert!(data.is_empty());
}

#[test]
fn udp_replies_need_one_family() {
    let a = sock("8.8.8.8", 53);
    let b = sock("fd00::2", 53);
    assert!(build_udp_reply_packet(a, b, b"x", Framing::Bare).is_none());
    assert!(build_udp_reply_packet(b, a, b"x", Framing::Bare).is_none());
}

#[test]
fn udp_payload_is_cut_to_what_is_there() {
    let ip = v4("1.1.1.1");
    assert!(parse_udp_v4(&[0; 7], ip, ip).is_none());
    let udp = [0, 1, 0, 2, 0, 10, 0, 0, b'a', b'b', b'c'];
    assert_eq!(&parse_udp_v4(&udp, ip, ip).unwrap().2[..], b"ab");
    let long = [0, 1, 0, 2, 0, 99, 0, 0, b'a', b'b', b'c'];
    assert_eq!(&parse_udp_v4(&long, ip, ip).unwrap().2[..], b"abc");
    let small = [0, 1, 0, 2, 0, 3, 0, 0, b'a', b'b', b'c'];
    assert!(parse_udp_v4(&small, ip, ip).unwrap().2.is_empty());
    assert!(parse_udp_v6(&[0; 7], v6("::1"), v6("::1")).is_none());
}

#[test]
fn tcp_goes_through_the_nat_and_back() {
    for framing in [Framing::Bare, Framing::PacketInfo] {
        let off = framing.offset();
        let mut e = engine(&["198.18.0.1/16"], framing);
        let syn = framing.wrap(&tcp_packet("192.168.7.7", 5555, "93.184.216.34", 443), 0x0800);
        let out = match e.on_device(DeviceEvent::Read(&syn), 1) {
            DeviceStep::Act(PacketAction::Write(f)) => f,
            _ => panic!("a frame"),
        };
        assert_eq!(out.len(), syn.len());
        assert_eq!(&out[..off], &syn[..off]);
        let pkt = &out[off..];
        assert_eq!(&pkt[12..20], &[198, 18, 0, 2, 198, 18, 0, 1]);
        assert_eq!(&pkt[20..24], &[0x27, 0x10, 0x9c, 0x40]);
        assert_eq!(&pkt[40..], b"data");
        assert_eq!(internet_checksum(&pkt[..20]), 0);
        assert_eq!(tcp_checksum_v4(&four(pkt, 12), &four(pkt, 16), &pkt[20..]), 0);

        match e.on_accept(AcceptEvent::Accepted(sock("198.18.0.2", 10000)), 2) {
            AcceptStep::Deliver(d) => {
                assert!(matches!(d.target, Target::Socket(a) if a == sock("93.184.216.34", 443)));
                assert_eq!(d.inbound_tag, "tun-in");
                assert!(d.sniffed_protocol.is_none() && d.sniffed_domain.is_none());
            }
            _ => panic!("a delivery"),
        }

        let reply = framing.wrap(&tcp_packet("198.18.0.1", 40000, "198.18.0.2", 10000), 0x0800);
        let back = match e.on_device(DeviceEvent::Read(&reply), 3) {
            DeviceStep::Act(PacketAction::Write(f)) => f,
            _ => panic!("a frame"),
        };
        let pkt = &back[off..];
        assert_eq!(&pkt[12..20], &[93, 184, 216, 34, 192, 168, 7, 7]);
        assert_eq!(&pkt[20..24], &[0x01, 0xbb, 0x15, 0xb3]);
        assert_eq!(tcp_checksum_v4(&four(pkt, 12), &four(pkt, 16), &pkt[20..]), 0);
    }
}

#[test]
fn tcp_v6_goes_through_the_nat_and_back() {
    let mut e = engine(&["198.18.0.1/16", "fd00::1/126"], Framing::PacketInfo);
    let syn = prepend_pi(&tcp_packet_v6("fd00::9", 5555, "2001:db8::2", 80), 0x86dd);
    let out = match e.on_device(DeviceEvent::Read(&syn), 1) {
        DeviceStep::Act(PacketAction::Write(f)) => f,
        _ => panic!("a frame"),
    };
    let pkt = &out[4..];
    assert_eq!(sixteen(pkt, 8), v6("fd00::2").octets());
    assert_eq!(sixteen(pkt, 24), v6("fd00::1").octets());
    assert_eq!(&pkt[40..44], &[0x27, 0x10, 0xc3, 0x50]);
    assert_eq!(tcp_checksum_v6(&sixteen(pkt, 8), &sixteen(pkt, 24), &pkt[40..]), 0);
    let reply = prepend_pi(&tcp_packet_v6("fd00::1", 50000, "fd00::2", 10000), 0x86dd);
    let back = match e.on_device(DeviceEvent::Read(&reply), 3) {
        DeviceStep::Act(PacketAction::Write(f)) => f,
        _ => panic!("a frame"),
    };
    let pkt = &back[4..];
    assert_eq!(sixteen(pkt, 8), v6("2001:db8::2").octets());
    assert_eq!(sixteen(pkt, 24), v6("fd00::9").octets());
    assert_eq!(&pkt[40..44], &[0, 80, 0x15, 0xb3]);
}

#[test]
fn tcp_that_cannot_be_connected_is_dropped() {
    let mut nat = TcpNat::new();
    let addr = Some(v4("198.18.0.1"));
    let next = Some(v4("198.18.0.2"));
    for dst in ["255.255.255.255", "224.0.0.1", "239.9.9.9", "0.0.0.0"] {
        let p = tcp_packet("10.0.0.1", 1, dst, 2);
        let r = handle_tcp_v4(
            &p, &p[20..], v4("10.0.0.1"), v4(dst), addr, next, 9, &mut nat, 0, Framing::Bare,
        );
        assert!(r.is_none());
    }
    // Without an address, with a short header, and a reply to a port that nobody has.
    let p = tcp_packet("198.18.0.1", 9, "198.18.0.2", 10000);
    let s = v4("198.18.0.1");
    let d = v4("198.18.0.2");
    assert!(handle_tcp_v4(&p, &p[20..], s, d, None, next, 9, &mut nat, 0, Framing::Bare).is_none());
    assert!(handle_tcp_v4(
        &p[..39], &p[20..39], s, d, addr, next, 9, &mut nat, 0, Framing::Bare
    )
    .is_none());
    assert!(handle_tcp_v4(&p, &p[20..], s, d, addr, next, 9, &mut nat, 0, Framing::Bare).is_none());
    assert_eq!(nat.len(), 0);
    for dst in ["ff02::1", "::"] {
        let p = tcp_packet_v6("fd00::9", 1, dst, 2);
        let r = handle_tcp_v6(
            &p,
            &p[40..],
            v6("fd00::9"),
            v6(dst),
            Some(v6("fd00::1")),
            Some(v6("fd00::2")),
            9,
            &mut nat,
            0,
            Framing::Bare,
        );
        assert!(r.is_none());
    }
}

fn echo_request(dst: &str) -> Vec<u8> {
    let mut p = vec![0u8; 32];
    p[0] = 0x45;
    p[9] = 1;
    p[12..16].copy_from_slice(&v4("10.1.1.1").octets());
    p[16..20].copy_from_slice(&v4(dst).octets());
    p[20] = 8;
    p[24..32].copy_from_slice(b"\x12\x34\x00\x01ping");
    p
}

#[test]
fn echo_requests_are_answered() {
    for framing in [Framing::Bare, Framing::PacketInfo] {
        let off = framing.offset();
        let mut e = engine(&["198.18.0.1/16"], framing);
        let req = framing.wrap(&echo_request("198.18.0.1"), 0x0800);
        let out = match e.on_device(DeviceEvent::Read(&req), 0) {
            DeviceStep::Act(PacketAction::Write(f)) => f,
            _ => panic!("a frame"),
        };
        let pkt = &out[off..];
        assert_eq!(&pkt[12..20], &[198, 18, 0, 1, 10, 1, 1, 1]);
        assert_eq!(pkt[20], 0);
        assert_eq!(&pkt[24..], b"\x12\x34\x00\x01ping");
        assert_eq!(internet_checksum(&pkt[20..]), 0);
        assert_eq!(internet_checksum(&pkt[..20]), 0);
    }
}

#[test]
fn other_echoes_are_not_answered() {
    let p = echo_request("198.18.0.9");
    let me = v4("198.18.0.1");
    let (s, d) = (v4("10.1.1.1"), v4("198.18.0.9"));
    assert!(handle_icmpv4(&p, 20, s, d, Some(me), Framing::Bare).is_none());
    assert!(handle_icmpv4(&p, 20, s, d, None, Framing::Bare).is_none());
    assert!(handle_icmpv4(&p, 20, s, d, Some(d), Framing::Bare).is_some());
    let mut reply = p.clone();
    reply[20] = 0;
    assert!(handle_icmpv4(&reply, 20, s, d, Some(d), Framing::Bare).is_none());
    let mut code = p.clone();
    code[21] = 1;
    assert!(handle_icmpv4(&code, 20, s, d, Some(d), Framing::Bare).is_none());
    assert!(handle_icmpv4(&p[..27], 20, s, d, Some(d), Framing::Bare).is_none());
}

#[test]
fn echo_requests_over_ipv6_are_answered() {
    let mut p = vec![0u8; 52];
    p[0] = 0x60;
    p[6] = 58;
    p[8..24].copy_from_slice(&v6("fd00::9").octets());
    p[24..40].copy_from_slice(&v6("fd00::1").octets());
    p[40] = 128;
    p[48..].copy_from_slice(b"ping");
    let (s, d) = (v6("fd00::9"), v6("fd00::1"));
    let out = handle_icmpv6(&p, s, d, Some(d), Framing::Bare).unwrap();
    assert_eq!(out[40], 129);
    assert_eq!(sixteen(&out, 8), d.octets());
    assert_eq!(sixteen(&out, 24), s.octets());
    assert_eq!(&out[48..], b"ping");
    assert_eq!(checksum_with_pseudo_v6(&d.octets(), &s.octets(), 58, &out[40..]), 0);
    assert!(handle_icmpv6(&p, s, d, Some(s), Framing::Bare).is_none());
    assert_eq!(handle_icmpv6(&p, s, d, None, Framing::Bare), Some(out));
    assert!(handle_icmpv6(&p[..47], s, d, Some(d), Framing::Bare).is_none());
    p[40] = 135;
    assert!(handle_icmpv6(&p, s, d, Some(d), Framing::Bare).is_none());
}

#[test]
fn fragments_are_dropped() {
    for flags in [[0x20u8, 0x00], [0x00, 0x01], [0x1f, 0xff]] {
        for mut p in [tcp_packet("10.0.0.1", 1, "8.8.8.8", 2), echo_request("198.18.0.1")] {
            p[6..8].copy_from_slice(&flags);
            let mut nat = TcpNat::new();
            let mut sessions = UdpSessions::new();
            let r = process_ipv4(
                &p,
                Some(v4("198.18.0.1")),
                Some(v4("198.18.0.2")),
                9,
                &"t".to_string(),
                &mut nat,
                &mut sessions,
                0,
                Framing::Bare,
            );
            assert!(matches!(r, PacketAction::Drop));
        }
    }
}

#[test]
fn udp_is_handed_on_with_its_session() {
    let mut e = engine(&["198.18.0.1/16"], Framing::Bare);
    let src = SocketAddrV4 { ip: v4("10.0.0.2"), port: 4000 };
    let dst = SocketAddrV4 { ip: v4("8.8.8.8"), port: 53 };
    let pkt = build_udp_reply_v4(src, dst, b"query", Framing::Bare).unwrap();
    for opens in [true, false] {
        match e.on_device(DeviceEvent::Read(&pkt), 5) {
            DeviceStep::Act(PacketAction::Udp(d)) => {
                assert_eq!(&d.data[..], b"query");
                assert_eq!(d.src, SocketAddr::V4(src));
                assert!(matches!(d.target, Target::Socket(a) if a == SocketAddr::V4(dst)));
                assert_eq!(d.inbound_tag, "tun-in");
                assert_eq!(d.opens_session, opens);
            }
            _ => panic!("a datagram"),
        }
    }
    // The default timeout is three hundred seconds; the session ends when it has passed.
    assert!(e.on_tick(300_000_000_004).is_empty());
    let dropped = e.on_tick(300_000_000_005);
    assert_eq!(dropped, vec![(SocketAddr::V4(src), SocketAddr::V4(dst))]);
    assert!(!e.udp_sessions.contains(SocketAddr::V4(src), SocketAddr::V4(dst)));
}

#[test]
fn sessions_are_told_apart_by_both_ends() {
    let mut s = UdpSessions::new();
    let (a, b) = (sock("1.1.1.1", 1), sock("2.2.2.2", 2));
    let tag = "t".to_string();
    assert!(dispatch_udp(a, b, Bytes::new(), &tag, &mut s, 0).opens_session);
    assert!(dispatch_udp(b, a, Bytes::new(), &tag, &mut s, 7).opens_session);
    assert!(!dispatch_udp(a, b, Bytes::new(), &tag, &mut s, 3).opens_session);
    assert_eq!(s.retain(5, 8), vec![(a, b)]);
    assert!(s.contains(b, a));
    assert_eq!(s.retain(0, 0), vec![(b, a)]);
}

#[test]
fn device_events() {
    let mut e = engine(&["198.18.0.1/16"], Framing::PacketInfo);
    assert!(matches!(e.on_device(DeviceEvent::Read(&[]), 0), DeviceStep::Stop));
    assert!(matches!(e.on_device(DeviceEvent::Failed, 0), DeviceStep::Pause(10)));
    for junk in [vec![0u8; 1], vec![0u8; 4], vec![0, 0, 8, 0, 0x55], vec![0, 0, 8, 0, 0x45]] {
        let step = e.on_device(DeviceEvent::Read(&junk), 0);
        assert!(matches!(step, DeviceStep::Act(PacketAction::Drop)));
    }
    assert!(matches!(e.on_accept(AcceptEvent::Failed, 0), AcceptStep::Pause(5)));
    let unknown = e.on_accept(AcceptEvent::Accepted(sock("198.18.0.2", 12345)), 0);
    assert!(matches!(unknown, AcceptStep::Drop));
}

#[test]
fn inbound_needs_an_address() {
    let r = TunInbound::new(config(&["nonsense", "1.2.3.4"])).run(Framing::Bare);
    match r {
        Err(e) => {
            assert_eq!(e, TunError::NoAddress);
            assert_eq!(e.message(), "tun: at least one address must be configured");
        }
        Ok(_) => panic!("no address"),
    }
}

#[test]
fn inbound_takes_the_first_address_of_each_family() {
    let e = engine(&["bad", "fd00::ffff/64", "10.0.0.255/24", "10.1.0.1/24"], Framing::PacketInfo);
    assert_eq!(e.inet4_addr, Some(v4("10.0.0.255")));
    assert_eq!(e.inet4_next, Some(v4("10.0.1.0")));
    assert_eq!(e.inet6_next, Some(v6("fd00::1:0")));
    let d = e.device();
    assert_eq!(d.address, Some((v4("10.0.0.255"), v4("255.255.255.0"))));
    assert_eq!(d.mtu, 1500);
    assert!(d.name.is_none() && d.packet_information);
    assert_eq!(e.interface_name(), "tun0");
    assert_eq!(e.buffer_size(), 1564);
    assert_eq!(e.timeout_nanos(), 300_000_000_000);
    assert_eq!(e.sweep_interval_nanos(), 150_000_000_000);
    let last = engine(&["255.255.255.255/32"], Framing::Bare);
    assert_eq!(last.inet4_next, Some(v4("0.0.0.0")));
}

#[test]
fn replies_that_do_not_fit() {
    let a = sock("1.2.3.4", 1);
    let b = sock("5.6.7.8", 2);
    let c = sock("fd00::1", 3);
    for (len, fits) in [(0, true), (65507, true), (65508, false), (65527, false), (65528, true)] {
        let payload = vec![0u8; len];
        assert_eq!(reply_fits(a, b, &payload), fits);
        assert!(reply_fits(c, c, &payload));
        assert!(reply_fits(a, c, &payload));
    }
}

#[test]
fn prefix_text_reads_back() {
    for text in ["198.18.0.1/16", "0.0.0.0/0", "255.255.255.255/32", "fd00::1/126", "::/0"] {
        let (ip, n) = parse_addr_prefix(text).unwrap();
        assert_eq!(ip.text_with_prefix(n), text);
        assert_eq!(parse_addr_prefix(&ip.text_with_prefix(n)), Some((ip, n)));
    }
}
