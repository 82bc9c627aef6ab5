//! Rewriting of packets: new addresses and ports, echo replies, checksums to match.
use vstd::prelude::*;

use crate::inbound::tun::checksum::{
    checksum_of, internet_checksum, ipv4_checksummed, law_checksum_verifies,
    law_ipv4_checksum_verifies, law_tcp_v4_checksum_verifies, law_v6_checksum_verifies, pseudo_v4,
    pseudo_v6, recompute_icmpv6_checksum, recompute_ipv4_checksum, recompute_tcp_checksum_v4,
    recompute_tcp_checksum_v6, set_field, tcp_v4_checksummed, v6_checksummed, with_field,
};
use crate::inbound::tun::frame::{
    Framing, ETHERTYPE_IPV4, ETHERTYPE_IPV6, IPPROTO_ICMPV6, IPPROTO_TCP,
};
use crate::inbound::tun::packet::field_at;
use crate::net::{Ipv4Addr, Ipv6Addr};
use crate::octets::{be_bytes, lemma_be_bytes_len, overwrite, write_at};

verus! {

/// The length of the header of an IPv4 packet, as its first octet gives it.
pub open spec fn header_len(raw: Seq<u8>) -> int {
    (raw[0] % 16) * 4
}

/// An IPv4 packet with other addresses.
pub open spec fn readdressed_v4(raw: Seq<u8>, src: Ipv4Addr, dst: Ipv4Addr) -> Seq<u8> {
    overwrite(
        overwrite(raw, 12, be_bytes(src.bits as nat, 4)),
        16,
        be_bytes(dst.bits as nat, 4),
    )
}

/// An IPv6 packet with other addresses.
pub open spec fn readdressed_v6(raw: Seq<u8>, src: Ipv6Addr, dst: Ipv6Addr) -> Seq<u8> {
    overwrite(
        overwrite(raw, 8, be_bytes(src.bits as nat, 16)),
        24,
        be_bytes(dst.bits as nat, 16),
    )
}

/// A packet with other ports in the transport header at `at`.
pub open spec fn reported(raw: Seq<u8>, at: int, src_port: u16, dst_port: u16) -> Seq<u8> {
    with_field(with_field(raw, at, src_port), at + 2, dst_port)
}

/// The frame of a TCP packet over IPv4 with other addresses and ports, both checksums recomputed.
pub open spec fn tcp_frame_v4(
    raw: Seq<u8>,
    src: Ipv4Addr,
    src_port: u16,
    dst: Ipv4Addr,
    dst_port: u16,
    framing: Framing,
) -> Seq<u8> {
    let ihl = header_len(raw);
    let pkt = reported(readdressed_v4(raw, src, dst), ihl, src_port, dst_port);
    let frame = framing.prefix(ETHERTYPE_IPV4) + pkt;
    ipv4_checksummed(tcp_v4_checksummed(frame, framing.start(), ihl), framing.start())
}

/// The frame of a TCP packet over IPv6 with other addresses and ports, the checksum recomputed.
pub open spec fn tcp_frame_v6(
    raw: Seq<u8>,
    src: Ipv6Addr,
    src_port: u16,
    dst: Ipv6Addr,
    dst_port: u16,
    framing: Framing,
) -> Seq<u8> {
    let pkt = reported(readdressed_v6(raw, src, dst), 40, src_port, dst_port);
    let frame = framing.prefix(ETHERTYPE_IPV6) + pkt;
    v6_checksummed(frame, framing.start(), IPPROTO_TCP, 16)
}

/// The frame of the reply to an echo request over IPv4: addresses swapped, type zero, both
/// checksums recomputed.
pub open spec fn echo_frame_v4(
    raw: Seq<u8>,
    src: Ipv4Addr,
    dst: Ipv4Addr,
    framing: Framing,
) -> Seq<u8> {
    let ihl = header_len(raw);
    let plain = with_field(readdressed_v4(raw, dst, src).update(ihl, 0), ihl + 2, 0);
    let pkt = with_field(plain, ihl + 2, checksum_of(plain.skip(ihl)));
    ipv4_checksummed(framing.prefix(ETHERTYPE_IPV4) + pkt, framing.start())
}

/// The frame of the reply to an echo request over IPv6: addresses swapped, type 129, the checksum
/// recomputed.
pub open spec fn echo_frame_v6(
    raw: Seq<u8>,
    src: Ipv6Addr,
    dst: Ipv6Addr,
    framing: Framing,
) -> Seq<u8> {
    let pkt = readdressed_v6(raw, dst, src).update(40, 129);
    v6_checksummed(framing.prefix(ETHERTYPE_IPV6) + pkt, framing.start(), IPPROTO_ICMPV6, 2)
}

/// The header length of an IPv4 packet.
pub(crate) fn read_header_len(raw: &[u8]) -> (r: usize)
    requires
        raw@.len() >= 1,
    ensures
        r == header_len(raw@),
        r <= 60,
{
    (raw[0] % 16) as usize * 4
}

/// Replaces the addresses of an IPv4 packet.
fn readdress_v4(raw: &[u8], src: Ipv4Addr, dst: Ipv4Addr) -> (r: Vec<u8>)
    requires
        raw@.len() >= 20,
    ensures
        r@ == readdressed_v4(raw@, src, dst),
{
    proof {
        lemma_be_bytes_len(src.bits as nat, 4);
        lemma_be_bytes_len(dst.bits as nat, 4);
    }
    let mut pkt = vstd::slice::slice_to_vec(raw);
    let src_octets = src.octets();
    let dst_octets = dst.octets();
    write_at(&mut pkt, 12, src_octets.as_slice());
    write_at(&mut pkt, 16, dst_octets.as_slice());
    pkt
}

/// Replaces the addresses of an IPv6 packet.
fn readdress_v6(raw: &[u8], src: Ipv6Addr, dst: Ipv6Addr) -> (r: Vec<u8>)
    requires
        raw@.len() >= 40,
    ensures
        r@ == readdressed_v6(raw@, src, dst),
{
    proof {
        lemma_be_bytes_len(src.bits as nat, 16);
        lemma_be_bytes_len(dst.bits as nat, 16);
    }
    let mut pkt = vstd::slice::slice_to_vec(raw);
    let src_octets = src.octets();
    let dst_octets = dst.octets();
    write_at(&mut pkt, 8, src_octets.as_slice());
    write_at(&mut pkt, 24, dst_octets.as_slice());
    pkt
}

/// Gives a TCP packet over IPv4 other addresses and ports.
pub fn rewrite_tcp_v4(
    raw: &[u8],
    src: Ipv4Addr,
    src_port: u16,
    dst: Ipv4Addr,
    dst_port: u16,
    framing: Framing,
) -> (r: Vec<u8>)
    requires
        header_len(raw@) >= 20,
        raw@.len() >= header_len(raw@) + 20,
    ensures
        r@ == tcp_frame_v4(raw@, src, src_port, dst, dst_port, framing),
{
    let ihl = read_header_len(raw);
    let mut pkt = readdress_v4(raw, src, dst);
    set_field(pkt.as_mut_slice(), ihl, src_port);
    set_field(pkt.as_mut_slice(), ihl + 2, dst_port);
    let mut frame = framing.wrap(pkt.as_slice(), ETHERTYPE_IPV4);
    recompute_tcp_checksum_v4(frame.as_mut_slice(), ihl, framing);
    recompute_ipv4_checksum(frame.as_mut_slice(), framing);
    frame
}

/// Gives a TCP packet over IPv6 other addresses and ports.
pub fn rewrite_tcp_v6(
    raw: &[u8],
    src: Ipv6Addr,
    src_port: u16,
    dst: Ipv6Addr,
    dst_port: u16,
    framing: Framing,
) -> (r: Vec<u8>)
    requires
        raw@.len() >= 60,
    ensures
        r@ == tcp_frame_v6(raw@, src, src_port, dst, dst_port, framing),
{
    let mut pkt = readdress_v6(raw, src, dst);
    set_field(pkt.as_mut_slice(), 40, src_port);
    set_field(pkt.as_mut_slice(), 42, dst_port);
    let mut frame = framing.wrap(pkt.as_slice(), ETHERTYPE_IPV6);
    recompute_tcp_checksum_v6(frame.as_mut_slice(), framing);
    frame
}

/// Makes the reply to an echo request over IPv4.
pub fn echo_v4(raw: &[u8], src: Ipv4Addr, dst: Ipv4Addr, framing: Framing) -> (r: Vec<u8>)
    requires
        header_len(raw@) >= 20,
        raw@.len() >= header_len(raw@) + 8,
    ensures
        r@ == echo_frame_v4(raw@, src, dst, framing),
{
    let ihl = read_header_len(raw);
    let mut pkt = readdress_v4(raw, dst, src);
    pkt.set(ihl, 0);
    set_field(pkt.as_mut_slice(), ihl + 2, 0);
    let body = vstd::slice::slice_subrange(pkt.as_slice(), ihl, pkt.len());
    assert(body@ =~= pkt@.skip(ihl as int));
    let cksum = internet_checksum(body);
    set_field(pkt.as_mut_slice(), ihl + 2, cksum);
    let mut frame = framing.wrap(pkt.as_slice(), ETHERTYPE_IPV4);
    recompute_ipv4_checksum(frame.as_mut_slice(), framing);
    frame
}

/// Makes the reply to an echo request over IPv6.
pub fn echo_v6(raw: &[u8], src: Ipv6Addr, dst: Ipv6Addr, framing: Framing) -> (r: Vec<u8>)
    requires
        raw@.len() >= 48,
    ensures
        r@ == echo_frame_v6(raw@, src, dst, framing),
{
    let mut pkt = readdress_v6(raw, dst, src);
    pkt.set(40, 129);
    let mut frame = framing.wrap(pkt.as_slice(), ETHERTYPE_IPV6);
    recompute_icmpv6_checksum(frame.as_mut_slice(), framing);
    frame
}

/// A rewritten TCP packet over IPv4 carries the addresses and the ports that it was given, is
/// unchanged but for those and the checksums, and both its checksums verify.
pub proof fn law_tcp_frame_v4(
    raw: Seq<u8>,
    src: Ipv4Addr,
    src_port: u16,
    dst: Ipv4Addr,
    dst_port: u16,
    framing: Framing,
)
    requires
        header_len(raw) >= 20,
        raw.len() >= header_len(raw) + 20,
    ensures
        ({
            let ihl = header_len(raw);
            let frame = tcp_frame_v4(raw, src, src_port, dst, dst_port, framing);
            let pkt = frame.skip(framing.start());
            &&& frame.take(framing.start()) == framing.prefix(ETHERTYPE_IPV4)
            &&& pkt.len() == raw.len()
            &&& pkt.subrange(12, 16) == be_bytes(src.bits as nat, 4)
            &&& pkt.subrange(16, 20) == be_bytes(dst.bits as nat, 4)
            &&& field_at(pkt, ihl) == src_port
            &&& field_at(pkt, ihl + 2) == dst_port
            &&& forall|i: int|
                0 <= i < raw.len() && !(10 <= i < 20) && !(ihl <= i < ihl + 4) && !(ihl + 16 <= i
                    < ihl + 18) ==> pkt[i] == raw[i]
            &&& checksum_of(
                pseudo_v4(
                    pkt.subrange(12, 16),
                    pkt.subrange(16, 20),
                    IPPROTO_TCP,
                    pkt.skip(ihl).len(),
                ) + pkt.skip(ihl),
            ) == 0
            &&& checksum_of(pkt.take(ihl)) == 0
        }),
{
    let ihl = header_len(raw);
    let off = framing.start();
    let plain = reported(readdressed_v4(raw, src, dst), ihl, src_port, dst_port);
    let wrapped = framing.prefix(ETHERTYPE_IPV4) + plain;
    let summed = tcp_v4_checksummed(wrapped, off, ihl);
    let frame = ipv4_checksummed(summed, off);
    let pkt = frame.skip(off);
    lemma_be_bytes_len(src.bits as nat, 4);
    lemma_be_bytes_len(dst.bits as nat, 4);
    law_tcp_v4_checksum_verifies(wrapped, off, ihl);
    law_ipv4_checksum_verifies(summed, off);
    assert(frame.take(off) =~= framing.prefix(ETHERTYPE_IPV4));
    assert(pkt.subrange(12, 16) =~= be_bytes(src.bits as nat, 4));
    assert(pkt.subrange(16, 20) =~= be_bytes(dst.bits as nat, 4));
    assert(summed.subrange(off + 12, off + 16) =~= pkt.subrange(12, 16));
    assert(summed.subrange(off + 16, off + 20) =~= pkt.subrange(16, 20));
    assert(summed.skip(off + ihl) =~= pkt.skip(ihl));
    assert(frame[off] == raw[0]);
    assert(frame.subrange(off, off + ihl) =~= pkt.take(ihl));
}

/// A rewritten TCP packet over IPv6 carries the addresses and the ports that it was given, is
/// unchanged but for those and the checksum, and the checksum verifies.
pub proof fn law_tcp_frame_v6(
    raw: Seq<u8>,
    src: Ipv6Addr,
    src_port: u16,
    dst: Ipv6Addr,
    dst_port: u16,
    framing: Framing,
)
    requires
        raw.len() >= 60,
    ensures
        ({
            let frame = tcp_frame_v6(raw, src, src_port, dst, dst_port, framing);
            let pkt = frame.skip(framing.start());
            &&& frame.take(framing.start()) == framing.prefix(ETHERTYPE_IPV6)
            &&& pkt.len() == raw.len()
            &&& pkt.subrange(8, 24) == be_bytes(src.bits as nat, 16)
            &&& pkt.subrange(24, 40) == be_bytes(dst.bits as nat, 16)
            &&& field_at(pkt, 40) == src_port
            &&& field_at(pkt, 42) == dst_port
            &&& forall|i: int|
                0 <= i < raw.len() && !(8 <= i < 44) && !(56 <= i < 58) ==> pkt[i] == raw[i]
            &&& checksum_of(
                pseudo_v6(
                    pkt.subrange(8, 24),
                    pkt.subrange(24, 40),
                    IPPROTO_TCP,
                    pkt.skip(40).len(),
                ) + pkt.skip(40),
            ) == 0
        }),
{
    let off = framing.start();
    let plain = reported(readdressed_v6(raw, src, dst), 40, src_port, dst_port);
    let wrapped = framing.prefix(ETHERTYPE_IPV6) + plain;
    let frame = v6_checksummed(wrapped, off, IPPROTO_TCP, 16);
    let pkt = frame.skip(off);
    lemma_be_bytes_len(src.bits as nat, 16);
    lemma_be_bytes_len(dst.bits as nat, 16);
    law_v6_checksum_verifies(wrapped, off, IPPROTO_TCP, 16);
    assert(frame.take(off) =~= framing.prefix(ETHERTYPE_IPV6));
    assert(pkt.subrange(8, 24) =~= be_bytes(src.bits as nat, 16));
    assert(pkt.subrange(24, 40) =~= be_bytes(dst.bits as nat, 16));
    assert(frame.subrange(off + 8, off + 24) =~= pkt.subrange(8, 24));
    assert(frame.subrange(off + 24, off + 40) =~= pkt.subrange(24, 40));
    assert(frame.skip(off + 40) =~= pkt.skip(40));
}

/// The reply to an echo request over IPv4 goes the other way, is of type zero, gives the rest of
/// the request back, and both its checksums verify.
pub proof fn law_echo_frame_v4(raw: Seq<u8>, src: Ipv4Addr, dst: Ipv4Addr, framing: Framing)
    requires
        header_len(raw) >= 20,
        raw.len() >= header_len(raw) + 8,
    ensures
        ({
            let ihl = header_len(raw);
            let frame = echo_frame_v4(raw, src, dst, framing);
            let pkt = frame.skip(framing.start());
            &&& frame.take(framing.start()) == framing.prefix(ETHERTYPE_IPV4)
            &&& pkt.len() == raw.len()
            &&& pkt.subrange(12, 16) == be_bytes(dst.bits as nat, 4)
            &&& pkt.subrange(16, 20) == be_bytes(src.bits as nat, 4)
            &&& pkt[ihl] == 0
            &&& forall|i: int|
                0 <= i < raw.len() && !(10 <= i < 20) && i != ihl && !(ihl + 2 <= i < ihl + 4)
                    ==> pkt[i] == raw[i]
            &&& checksum_of(pkt.skip(ihl)) == 0
            &&& checksum_of(pkt.take(ihl)) == 0
        }),
{
    let ihl = header_len(raw);
    let off = framing.start();
    let plain = with_field(readdressed_v4(raw, dst, src).update(ihl, 0), ihl + 2, 0);
    let ck = checksum_of(plain.skip(ihl));
    let whole = with_field(plain, ihl + 2, ck);
    let wrapped = framing.prefix(ETHERTYPE_IPV4) + whole;
    let frame = ipv4_checksummed(wrapped, off);
    let pkt = frame.skip(off);
    lemma_be_bytes_len(src.bits as nat, 4);
    lemma_be_bytes_len(dst.bits as nat, 4);
    law_ipv4_checksum_verifies(wrapped, off);
    law_checksum_verifies(plain.skip(ihl), 2);
    assert(with_field(plain.skip(ihl), 2, 0) =~= plain.skip(ihl));
    assert(pkt.skip(ihl) =~= with_field(plain.skip(ihl), 2, ck));
    assert(frame.take(off) =~= framing.prefix(ETHERTYPE_IPV4));
    assert(pkt.subrange(12, 16) =~= be_bytes(dst.bits as nat, 4));
    assert(pkt.subrange(16, 20) =~= be_bytes(src.bits as nat, 4));
    assert(frame[off] == raw[0]);
    assert(frame.subrange(off, off + ihl) =~= pkt.take(ihl));
}

/// The reply to an echo request over IPv6 goes the other way, is of type 129, gives the rest of
/// the request back, and its checksum verifies.
pub proof fn law_echo_frame_v6(raw: Seq<u8>, src: Ipv6Addr, dst: Ipv6Addr, framing: Framing)
    requires
        raw.len() >= 48,
    ensures
        ({
            let frame = echo_frame_v6(raw, src, dst, framing);
            let pkt = frame.skip(framing.start());
            &&& frame.take(framing.start()) == framing.prefix(ETHERTYPE_IPV6)
            &&& pkt.len() == raw.len()
            &&& pkt.subrange(8, 24) == be_bytes(dst.bits as nat, 16)
            &&& pkt.subrange(24, 40) == be_bytes(src.bits as nat, 16)
            &&& pkt[40] == 129
            &&& forall|i: int|
                0 <= i < raw.len() && !(8 <= i < 41) && !(42 <= i < 44) ==> pkt[i] == raw[i]
            &&& checksum_of(
                pseudo_v6(
                    pkt.subrange(8, 24),
                    pkt.subrange(24, 40),
                    IPPROTO_ICMPV6,
                    pkt.skip(40).len(),
                ) + pkt.skip(40),
            ) == 0
        }),
{
    let off = framing.start();
    let plain = readdressed_v6(raw, dst, src).update(40, 129);
    let wrapped = framing.prefix(ETHERTYPE_IPV6) + plain;
    let frame = v6_checksummed(wrapped, off, IPPROTO_ICMPV6, 2);
    let pkt = frame.skip(off);
    lemma_be_bytes_len(src.bits as nat, 16);
    lemma_be_bytes_len(dst.bits as nat, 16);
    law_v6_checksum_verifies(wrapped, off, IPPROTO_ICMPV6, 2);
    assert(frame.take(off) =~= framing.prefix(ETHERTYPE_IPV6));
    assert(pkt.subrange(8, 24) =~= be_bytes(dst.bits as nat, 16));
    assert(pkt.subrange(24, 40) =~= be_bytes(src.bits as nat, 16));
    assert(frame.subrange(off + 8, off + 24) =~= pkt.subrange(8, 24));
    assert(frame.subrange(off + 24, off + 40) =~= pkt.subrange(24, 40));
    assert(frame.skip(off + 40) =~= pkt.skip(40));
}

} // verus!
