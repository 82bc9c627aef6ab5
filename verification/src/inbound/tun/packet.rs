//! UDP datagrams inside IP packets: reading those that come, building those that answer.
use bytes::Bytes;
use vstd::prelude::*;

use crate::buf::bytes_contents;
use crate::inbound::tun::checksum::{
    checksum_of, internet_checksum, law_checksum_verifies, pseudo_v4, pseudo_v6, udp_checksum_v4,
    udp_checksum_v6, with_field,
};
use crate::inbound::tun::frame::{Framing, ETHERTYPE_IPV4, ETHERTYPE_IPV6, IPPROTO_UDP};
use crate::net::{Ipv4Addr, Ipv6Addr, SocketAddr, SocketAddrV4, SocketAddrV6};
use crate::octets::{be_bytes, lemma_be_bytes_2, lemma_be_bytes_len};

verus! {

/// The two octets of a sixteen-bit field.
pub open spec fn field_octets(v: u16) -> Seq<u8> {
    seq![(v / 256) as u8, (v % 256) as u8]
}

/// The sixteen-bit field at `at`.
pub open spec fn field_at(s: Seq<u8>, at: int) -> u16 {
    (s[at] * 256 + s[at + 1]) as u16
}

/// Reads the sixteen-bit field at `at`.
pub(crate) fn read_field(s: &[u8], at: usize) -> (r: u16)
    requires
        at + 1 < s@.len(),
    ensures
        r == field_at(s@, at as int),
{
    s[at] as u16 * 256 + s[at + 1] as u16
}

/// Appends a sixteen-bit field.
fn push_field(out: &mut Vec<u8>, v: u16)
    ensures
        final(out)@ == old(out)@ + field_octets(v),
{
    out.push((v / 256) as u8);
    out.push((v % 256) as u8);
    assert(out@ =~= old(out)@ + field_octets(v));
}

/// The payload of a datagram: as much as its length field says, or as much as there is.
pub open spec fn udp_payload(udp: Seq<u8>) -> Seq<u8> {
    let length = field_at(udp, 4) as int;
    let said = if length < 8 {
        8
    } else {
        length
    };
    udp.subrange(
        8,
        if said < udp.len() {
            said
        } else {
            udp.len() as int
        },
    )
}

/// Copies the payload of a datagram.
fn copy_payload(udp: &[u8]) -> (r: Bytes)
    requires
        udp@.len() >= 8,
    ensures
        bytes_contents(r) == udp_payload(udp@),
{
    let length = read_field(udp, 4) as usize;
    let said: usize = if length < 8 {
        8
    } else {
        length
    };
    let end: usize = if said < udp.len() {
        said
    } else {
        udp.len()
    };
    Bytes::copy_from_slice(vstd::slice::slice_subrange(udp, 8, end))
}

/// Reads a datagram that came over IPv4: its source, its destination and its payload.
pub fn parse_udp_v4(udp: &[u8], src_ip: Ipv4Addr, dst_ip: Ipv4Addr) -> (r: Option<
    (SocketAddr, SocketAddr, Bytes),
>)
    ensures
        r is Some <==> udp@.len() >= 8,
        r matches Some((src, dst, data)) ==> {
            &&& src == SocketAddr::V4(SocketAddrV4 { ip: src_ip, port: field_at(udp@, 0) })
            &&& dst == SocketAddr::V4(SocketAddrV4 { ip: dst_ip, port: field_at(udp@, 2) })
            &&& bytes_contents(data) == udp_payload(udp@)
        },
{
    if udp.len() < 8 {
        return None;
    }
    let src_port = read_field(udp, 0);
    let dst_port = read_field(udp, 2);
    let data = copy_payload(udp);
    Some(
        (
            SocketAddr::V4(SocketAddrV4 { ip: src_ip, port: src_port }),
            SocketAddr::V4(SocketAddrV4 { ip: dst_ip, port: dst_port }),
            data,
        ),
    )
}

/// Reads a datagram that came over IPv6: its source, its destination and its payload.
pub fn parse_udp_v6(udp: &[u8], src_ip: Ipv6Addr, dst_ip: Ipv6Addr) -> (r: Option<
    (SocketAddr, SocketAddr, Bytes),
>)
    ensures
        r is Some <==> udp@.len() >= 8,
        r matches Some((src, dst, data)) ==> {
            &&& src == SocketAddr::V6(
                SocketAddrV6 { ip: src_ip, port: field_at(udp@, 0), flowinfo: 0, scope_id: 0 },
            )
            &&& dst == SocketAddr::V6(
                SocketAddrV6 { ip: dst_ip, port: field_at(udp@, 2), flowinfo: 0, scope_id: 0 },
            )
            &&& bytes_contents(data) == udp_payload(udp@)
        },
{
    if udp.len() < 8 {
        return None;
    }
    let src_port = read_field(udp, 0);
    let dst_port = read_field(udp, 2);
    let data = copy_payload(udp);
    Some(
        (
            SocketAddr::V6(
                SocketAddrV6 { ip: src_ip, port: src_port, flowinfo: 0, scope_id: 0 },
            ),
            SocketAddr::V6(
                SocketAddrV6 { ip: dst_ip, port: dst_port, flowinfo: 0, scope_id: 0 },
            ),
            data,
        ),
    )
}

/// The length that the header of a datagram with `n` octets of payload states: the low sixteen
/// bits of the length of the datagram.
pub open spec fn udp_length(n: nat) -> u16 {
    ((n + 8) % 0x1_0000) as u16
}

/// A datagram whose checksum is still zero.
pub open spec fn udp_plain(src_port: u16, dst_port: u16, payload: Seq<u8>) -> Seq<u8> {
    field_octets(src_port) + field_octets(dst_port) + field_octets(udp_length(payload.len()))
        + seq![0u8, 0u8] + payload
}

/// The IPv4 header of a datagram with `n` octets of payload, with the checksum still zero.
pub open spec fn ipv4_plain(src: Ipv4Addr, dst: Ipv4Addr, n: nat) -> Seq<u8> {
    seq![0x45u8, 0u8] + field_octets((20 + udp_length(n)) as u16) + seq![
        0u8,
        0u8,
        0x40u8,
        0u8,
        64u8,
        IPPROTO_UDP,
        0u8,
        0u8,
    ] + be_bytes(src.bits as nat, 4) + be_bytes(dst.bits as nat, 4)
}

/// The IPv6 header of a datagram with `n` octets of payload.
pub open spec fn ipv6_plain(src: Ipv6Addr, dst: Ipv6Addr, n: nat) -> Seq<u8> {
    seq![0x60u8, 0u8, 0u8, 0u8] + field_octets(udp_length(n)) + seq![IPPROTO_UDP, 64u8] + be_bytes(
        src.bits as nat,
        16,
    ) + be_bytes(dst.bits as nat, 16)
}

/// The IPv4 packet that carries `payload` from `src` to `dst`.
pub open spec fn udp_packet_v4(src: SocketAddrV4, dst: SocketAddrV4, payload: Seq<u8>) -> Seq<u8> {
    let hdr = ipv4_plain(src.ip, dst.ip, payload.len());
    let udp = udp_plain(src.port, dst.port, payload);
    let pseudo = pseudo_v4(
        be_bytes(src.ip.bits as nat, 4),
        be_bytes(dst.ip.bits as nat, 4),
        IPPROTO_UDP,
        udp.len(),
    );
    with_field(hdr, 10, checksum_of(hdr)) + with_field(udp, 6, checksum_of(pseudo + udp))
}

/// The IPv6 packet that carries `payload` from `src` to `dst`.
pub open spec fn udp_packet_v6(src: SocketAddrV6, dst: SocketAddrV6, payload: Seq<u8>) -> Seq<u8> {
    let hdr = ipv6_plain(src.ip, dst.ip, payload.len());
    let udp = udp_plain(src.port, dst.port, payload);
    let pseudo = pseudo_v6(
        be_bytes(src.ip.bits as nat, 16),
        be_bytes(dst.ip.bits as nat, 16),
        IPPROTO_UDP,
        udp.len(),
    );
    hdr + with_field(udp, 6, checksum_of(pseudo + udp))
}

/// The datagram whose checksum is still zero.
fn build_udp_plain(src_port: u16, dst_port: u16, payload: &[u8]) -> (r: Vec<u8>)
    ensures
        r@ == udp_plain(src_port, dst_port, payload@),
{
    let mut udp: Vec<u8> = Vec::new();
    push_field(&mut udp, src_port);
    push_field(&mut udp, dst_port);
    push_field(&mut udp, stated_length(payload));
    push_field(&mut udp, 0);
    udp.extend_from_slice(payload);
    assert(udp@ =~= udp_plain(src_port, dst_port, payload@));
    udp
}

/// The length that the header of a datagram states.
fn stated_length(payload: &[u8]) -> (r: u16)
    ensures
        r == udp_length(payload@.len()),
{
    ((payload.len() % 0x1_0000 + 8) % 0x1_0000) as u16
}

/// Builds the frame that carries `payload` over IPv4 from `src` to `dst`. The stated length of
/// the packet must fit in sixteen bits.
pub fn build_udp_reply_v4(
    src: SocketAddrV4,
    dst: SocketAddrV4,
    payload: &[u8],
    framing: Framing,
) -> (r: Option<Vec<u8>>)
    requires
        20 + udp_length(payload@.len()) <= u16::MAX,
    ensures
        r matches Some(pkt) && pkt@ == framing.prefix(ETHERTYPE_IPV4) + udp_packet_v4(
            src,
            dst,
            payload@,
        ),
{
    let total_len: u16 = 20 + stated_length(payload);
    let src_ip = src.ip.octets();
    let dst_ip = dst.ip.octets();
    let ghost plain_hdr = ipv4_plain(src.ip, dst.ip, payload@.len());
    let ghost plain_udp = udp_plain(src.port, dst.port, payload@);
    proof {
        lemma_be_bytes_len(src.ip.bits as nat, 4);
        lemma_be_bytes_len(dst.ip.bits as nat, 4);
    }
    let mut pkt: Vec<u8> = Vec::new();
    pkt.push(0x45);
    pkt.push(0x00);
    push_field(&mut pkt, total_len);
    pkt.push(0x00);
    pkt.push(0x00);
    pkt.push(0x40);
    pkt.push(0x00);
    pkt.push(64);
    pkt.push(IPPROTO_UDP);
    push_field(&mut pkt, 0);
    pkt.extend_from_slice(src_ip.as_slice());
    pkt.extend_from_slice(dst_ip.as_slice());
    assert(pkt@ =~= plain_hdr);
    let cksum = internet_checksum(pkt.as_slice());
    pkt.set(10, (cksum / 256) as u8);
    pkt.set(11, (cksum % 256) as u8);
    let mut udp = build_udp_plain(src.port, dst.port, payload);
    let udp_cksum = udp_checksum_v4(&src_ip, &dst_ip, udp.as_slice());
    udp.set(6, (udp_cksum / 256) as u8);
    udp.set(7, (udp_cksum % 256) as u8);
    pkt.extend_from_slice(udp.as_slice());
    assert(pkt@ =~= udp_packet_v4(src, dst, payload@));
    Some(framing.wrap(pkt.as_slice(), ETHERTYPE_IPV4))
}

/// Builds the frame that carries `payload` over IPv6 from `src` to `dst`.
pub fn build_udp_reply_v6(
    src: SocketAddrV6,
    dst: SocketAddrV6,
    payload: &[u8],
    framing: Framing,
) -> (r: Option<Vec<u8>>)
    ensures
        r matches Some(pkt) && pkt@ == framing.prefix(ETHERTYPE_IPV6) + udp_packet_v6(
            src,
            dst,
            payload@,
        ),
{
    let src_ip = src.ip.octets();
    let dst_ip = dst.ip.octets();
    proof {
        lemma_be_bytes_len(src.ip.bits as nat, 16);
        lemma_be_bytes_len(dst.ip.bits as nat, 16);
    }
    let mut pkt: Vec<u8> = Vec::new();
    pkt.push(0x60);
    pkt.push(0x00);
    pkt.push(0x00);
    pkt.push(0x00);
    push_field(&mut pkt, stated_length(payload));
    pkt.push(IPPROTO_UDP);
    pkt.push(64);
    pkt.extend_from_slice(src_ip.as_slice());
    pkt.extend_from_slice(dst_ip.as_slice());
    assert(pkt@ =~= ipv6_plain(src.ip, dst.ip, payload@.len()));
    let mut udp = build_udp_plain(src.port, dst.port, payload);
    let cksum = udp_checksum_v6(&src_ip, &dst_ip, udp.as_slice());
    udp.set(6, (cksum / 256) as u8);
    udp.set(7, (cksum % 256) as u8);
    pkt.extend_from_slice(udp.as_slice());
    assert(pkt@ =~= udp_packet_v6(src, dst, payload@));
    Some(framing.wrap(pkt.as_slice(), ETHERTYPE_IPV6))
}

/// Whether the stated length of the packet that carries `payload` from `src` to `dst` fits in
/// sixteen bits. It always does, but over IPv4 for some payloads of more than 65507 octets.
pub fn reply_fits(src: SocketAddr, dst: SocketAddr, payload: &[u8]) -> (r: bool)
    ensures
        r == (src is V4 && dst is V4 ==> 20 + udp_length(payload@.len()) <= u16::MAX),
        payload@.len() <= 65507 ==> r,
{
    match (src, dst) {
        (SocketAddr::V4(_), SocketAddr::V4(_)) => stated_length(payload) <= u16::MAX - 20,
        _ => true,
    }
}

/// Builds the frame that carries `payload` from `src` to `dst`, where both are of one family.
pub fn build_udp_reply_packet(
    src: SocketAddr,
    dst: SocketAddr,
    payload: &[u8],
    framing: Framing,
) -> (r: Option<Vec<u8>>)
    requires
        src is V4 && dst is V4 ==> 20 + udp_length(payload@.len()) <= u16::MAX,
    ensures
        match (src, dst) {
            (SocketAddr::V4(s), SocketAddr::V4(d)) => r matches Some(pkt) && pkt@
                == framing.prefix(ETHERTYPE_IPV4) + udp_packet_v4(s, d, payload@),
            (SocketAddr::V6(s), SocketAddr::V6(d)) => r matches Some(pkt) && pkt@
                == framing.prefix(ETHERTYPE_IPV6) + udp_packet_v6(s, d, payload@),
            _ => r is None,
        },
{
    match (src, dst) {
        (SocketAddr::V4(s), SocketAddr::V4(d)) => build_udp_reply_v4(s, d, payload, framing),
        (SocketAddr::V6(s), SocketAddr::V6(d)) => build_udp_reply_v6(s, d, payload, framing),
        _ => None,
    }
}

/// What a datagram reads back as.
proof fn lemma_udp_reads_back(src_port: u16, dst_port: u16, payload: Seq<u8>, ck: u16)
    requires
        payload.len() <= 65527,
    ensures
        ({
            let udp = with_field(udp_plain(src_port, dst_port, payload), 6, ck);
            &&& udp.len() == 8 + payload.len()
            &&& field_at(udp, 0) == src_port
            &&& field_at(udp, 2) == dst_port
            &&& field_at(udp, 4) == udp.len()
            &&& udp_payload(udp) == payload
        }),
{
    let udp = with_field(udp_plain(src_port, dst_port, payload), 6, ck);
    assert(udp_payload(udp) =~= payload);
}

/// A packet built for IPv4 is read back as what it was built from: the addresses and the length
/// stand in the header, the ports and the payload in the datagram. Both checksums verify.
pub proof fn law_udp_v4_reads_back(src: SocketAddrV4, dst: SocketAddrV4, payload: Seq<u8>)
    requires
        payload.len() <= 65507,
    ensures
        ({
            let pkt = udp_packet_v4(src, dst, payload);
            let udp = pkt.skip(20);
            &&& pkt.len() == 28 + payload.len()
            &&& pkt[0] == 0x45
            &&& field_at(pkt, 2) == pkt.len()
            &&& field_at(pkt, 6) == 0x4000
            &&& pkt[9] == IPPROTO_UDP
            &&& pkt.subrange(12, 16) == be_bytes(src.ip.bits as nat, 4)
            &&& pkt.subrange(16, 20) == be_bytes(dst.ip.bits as nat, 4)
            &&& field_at(udp, 0) == src.port
            &&& field_at(udp, 2) == dst.port
            &&& udp_payload(udp) == payload
            &&& checksum_of(pkt.take(20)) == 0
            &&& checksum_of(
                pseudo_v4(pkt.subrange(12, 16), pkt.subrange(16, 20), IPPROTO_UDP, udp.len()) + udp,
            ) == 0
        }),
{
    let pkt = udp_packet_v4(src, dst, payload);
    let hdr = ipv4_plain(src.ip, dst.ip, payload.len());
    let plain = udp_plain(src.port, dst.port, payload);
    let s = be_bytes(src.ip.bits as nat, 4);
    let d = be_bytes(dst.ip.bits as nat, 4);
    lemma_be_bytes_len(src.ip.bits as nat, 4);
    lemma_be_bytes_len(dst.ip.bits as nat, 4);
    lemma_be_bytes_2(plain.len());
    let pseudo = pseudo_v4(s, d, IPPROTO_UDP, plain.len());
    let ck = checksum_of(pseudo + plain);
    lemma_udp_reads_back(src.port, dst.port, payload, ck);
    assert(pkt.skip(20) =~= with_field(plain, 6, ck));
    assert(pkt.take(20) =~= with_field(hdr, 10, checksum_of(hdr)));
    assert(with_field(hdr, 10, 0) =~= hdr);
    law_checksum_verifies(hdr, 10);
    assert(pkt.subrange(12, 16) =~= s);
    assert(pkt.subrange(16, 20) =~= d);
    let all = pseudo + plain;
    assert(with_field(all, 18, 0) =~= all);
    law_checksum_verifies(all, 18);
    assert(with_field(all, 18, ck) =~= pseudo + pkt.skip(20));
}

/// A packet built for IPv6 is read back as what it was built from: the addresses and the length
/// stand in the header, the ports and the payload in the datagram. The checksum verifies.
pub proof fn law_udp_v6_reads_back(src: SocketAddrV6, dst: SocketAddrV6, payload: Seq<u8>)
    requires
        payload.len() <= 65527,
    ensures
        ({
            let pkt = udp_packet_v6(src, dst, payload);
            let udp = pkt.skip(40);
            &&& pkt.len() == 48 + payload.len()
            &&& pkt[0] == 0x60
            &&& field_at(pkt, 4) == udp.len()
            &&& pkt[6] == IPPROTO_UDP
            &&& pkt.subrange(8, 24) == be_bytes(src.ip.bits as nat, 16)
            &&& pkt.subrange(24, 40) == be_bytes(dst.ip.bits as nat, 16)
            &&& field_at(udp, 0) == src.port
            &&& field_at(udp, 2) == dst.port
            &&& udp_payload(udp) == payload
            &&& checksum_of(
                pseudo_v6(pkt.subrange(8, 24), pkt.subrange(24, 40), IPPROTO_UDP, udp.len()) + udp,
            ) == 0
        }),
{
    let pkt = udp_packet_v6(src, dst, payload);
    let plain = udp_plain(src.port, dst.port, payload);
    let s = be_bytes(src.ip.bits as nat, 16);
    let d = be_bytes(dst.ip.bits as nat, 16);
    lemma_be_bytes_len(src.ip.bits as nat, 16);
    lemma_be_bytes_len(dst.ip.bits as nat, 16);
    lemma_be_bytes_len(plain.len(), 4);
    let pseudo = pseudo_v6(s, d, IPPROTO_UDP, plain.len());
    let ck = checksum_of(pseudo + plain);
    lemma_udp_reads_back(src.port, dst.port, payload, ck);
    assert(pkt.skip(40) =~= with_field(plain, 6, ck));
    assert(pkt.subrange(8, 24) =~= s);
    assert(pkt.subrange(24, 40) =~= d);
    let all = pseudo + plain;
    assert(with_field(all, 46, 0) =~= all);
    law_checksum_verifies(all, 46);
    assert(with_field(all, 46, ck) =~= pseudo + pkt.skip(40));
}

} // verus!
