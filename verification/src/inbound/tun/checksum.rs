//! Internet checksums, with and without the pseudo headers of TCP, UDP and ICMPv6.
use vstd::prelude::*;

use crate::inbound::tun::frame::{Framing, IPPROTO_ICMPV6, IPPROTO_TCP, IPPROTO_UDP};
use crate::octets::{be_bytes, lemma_be_bytes_2, octets_of};

verus! {

/// The sum of the sixteen-bit words of `s`; an odd last octet counts as the high half of a word.
pub open spec fn word_sum(s: Seq<u8>) -> nat
    decreases s.len(),
{
    if s.len() == 0 {
        0
    } else if s.len() == 1 {
        s[0] as nat * 256
    } else {
        s[0] as nat * 256 + s[1] as nat + word_sum(s.skip(2))
    }
}

/// A sum brought into sixteen bits by end-around carries.
pub open spec fn ones_fold(n: nat) -> nat {
    if n == 0 {
        0
    } else {
        ((n - 1) % 0xffff + 1) as nat
    }
}

/// The one's complement of the one's complement sum of the words of `s`.
pub open spec fn checksum_of(s: Seq<u8>) -> u16 {
    (0xffff - ones_fold(word_sum(s))) as u16
}

/// The pseudo header of TCP and UDP over IPv4.
pub open spec fn pseudo_v4(src: Seq<u8>, dst: Seq<u8>, proto: u8, len: nat) -> Seq<u8> {
    src + dst + seq![0u8, proto] + be_bytes(len, 2)
}

/// The pseudo header of TCP, UDP and ICMPv6 over IPv6.
pub open spec fn pseudo_v6(src: Seq<u8>, dst: Seq<u8>, proto: u8, len: nat) -> Seq<u8> {
    src + dst + be_bytes(len, 4) + seq![0u8, 0u8, 0u8, proto]
}

/// `s` with the sixteen-bit field at `at` set to `v`.
pub open spec fn with_field(s: Seq<u8>, at: int, v: u16) -> Seq<u8> {
    s.update(at, (v / 256) as u8).update(at + 1, (v % 256) as u8)
}

/// The length of the IPv4 header at `off`, options and all: as its first octet gives it, but no
/// less than the twenty octets of the fixed header.
pub open spec fn ipv4_header_len(frame: Seq<u8>, off: int) -> int {
    let stated = (frame[off] % 16) * 4;
    if stated < 20 {
        20
    } else {
        stated
    }
}

/// `frame` with the IPv4 header checksum of the packet at `off` recomputed over the whole header.
pub open spec fn ipv4_checksummed(frame: Seq<u8>, off: int) -> Seq<u8> {
    let zeroed = with_field(frame, off + 10, 0);
    with_field(
        frame,
        off + 10,
        checksum_of(zeroed.subrange(off, off + ipv4_header_len(frame, off))),
    )
}

/// Whether a frame holds the whole header of the IPv4 packet at `off`.
pub open spec fn holds_ipv4_header(frame: Seq<u8>, off: int) -> bool {
    off < frame.len() && off + ipv4_header_len(frame, off) <= frame.len()
}

/// `frame` with the TCP checksum of the IPv4 packet at `off` recomputed.
pub open spec fn tcp_v4_checksummed(frame: Seq<u8>, off: int, ihl: int) -> Seq<u8> {
    let tcp = off + ihl;
    let data = with_field(frame, tcp + 16, 0).skip(tcp);
    let pseudo = pseudo_v4(
        frame.subrange(off + 12, off + 16),
        frame.subrange(off + 16, off + 20),
        IPPROTO_TCP,
        data.len(),
    );
    with_field(frame, tcp + 16, checksum_of(pseudo + data))
}

/// `frame` with the checksum field at `field` of the upper-layer header of the IPv6 packet at
/// `off` recomputed.
pub open spec fn v6_checksummed(frame: Seq<u8>, off: int, proto: u8, field: int) -> Seq<u8> {
    let upper = off + 40;
    let data = with_field(frame, upper + field, 0).skip(upper);
    let pseudo = pseudo_v6(
        frame.subrange(off + 8, off + 24),
        frame.subrange(off + 24, off + 40),
        proto,
        data.len(),
    );
    with_field(frame, upper + field, checksum_of(pseudo + data))
}

/// An end-around carry may be taken at any point of a sum.
proof fn lemma_fold_step(a: nat, b: nat)
    ensures
        ones_fold(ones_fold(a) + b) == ones_fold(a + b),
        ones_fold(a) <= 0xffff,
        a <= 0xffff ==> ones_fold(a) == a,
{
}

/// Adding one word with an end-around carry.
fn add_word(sum: u32, word: u32) -> (r: u32)
    requires
        sum <= 0xffff,
        word <= 0xffff,
    ensures
        r <= 0xffff,
        r == ones_fold((sum + word) as nat),
{
    let s = sum + word;
    if s > 0xffff {
        s - 0xffff
    } else {
        s
    }
}

/// Words add up over an even split.
pub proof fn lemma_word_sum_concat(a: Seq<u8>, b: Seq<u8>)
    requires
        a.len() % 2 == 0,
    ensures
        word_sum(a + b) == word_sum(a) + word_sum(b),
    decreases a.len(),
{
    if a.len() == 0 {
        assert(a + b =~= b);
    } else {
        assert((a + b).skip(2) =~= a.skip(2) + b);
        lemma_word_sum_concat(a.skip(2), b);
    }
}

/// Continues a one's complement sum over `data`.
fn sum_words(start: u32, data: &[u8]) -> (r: u32)
    requires
        start <= 0xffff,
    ensures
        r <= 0xffff,
        r == ones_fold(start as nat + word_sum(data@)),
{
    let mut sum: u32 = start;
    let mut i: usize = 0;
    let n = data.len();
    assert(data@.skip(0) =~= data@);
    while i < n && n - i >= 2
        invariant
            i <= n,
            n == data@.len(),
            sum <= 0xffff,
            start <= 0xffff,
            ones_fold(sum as nat + word_sum(data@.skip(i as int))) == ones_fold(
                start as nat + word_sum(data@),
            ),
        decreases n - i,
    {
        let ghost rest = data@.skip(i as int);
        let word: u32 = data[i] as u32 * 256 + data[i + 1] as u32;
        proof {
            assert(rest.skip(2) =~= data@.skip(i + 2));
            lemma_fold_step((sum + word) as nat, word_sum(rest.skip(2)));
        }
        sum = add_word(sum, word);
        i += 2;
    }
    if i < n {
        let ghost rest = data@.skip(i as int);
        assert(rest.len() == 1);
        sum = add_word(sum, data[i] as u32 * 256);
    } else {
        assert(data@.skip(i as int) =~= Seq::<u8>::empty());
        proof {
            lemma_fold_step(sum as nat, 0);
        }
    }
    sum
}

/// The internet checksum of `data`.
pub fn internet_checksum(data: &[u8]) -> (r: u16)
    ensures
        r == checksum_of(data@),
{
    let sum = sum_words(0, data);
    0xffff - (sum as u16)
}

/// The sum of a pseudo header and the data behind it, complemented.
fn finish_checksum(pseudo: &[u8], data: &[u8]) -> (r: u16)
    requires
        pseudo@.len() % 2 == 0,
    ensures
        r == checksum_of(pseudo@ + data@),
{
    let head = sum_words(0, pseudo);
    let sum = sum_words(head, data);
    proof {
        lemma_fold_step(word_sum(pseudo@), word_sum(data@));
        lemma_word_sum_concat(pseudo@, data@);
    }
    0xffff - (sum as u16)
}

/// The checksum of `data` behind the IPv4 pseudo header. The length field holds the low sixteen
/// bits of the length.
pub fn checksum_with_pseudo_v4(src: &[u8; 4], dst: &[u8; 4], proto: u8, data: &[u8]) -> (r: u16)
    ensures
        r == checksum_of(pseudo_v4(src@, dst@, proto, data@.len()) + data@),
{
    let len = data.len();
    let mut pseudo: Vec<u8> = Vec::new();
    pseudo.extend_from_slice(src.as_slice());
    pseudo.extend_from_slice(dst.as_slice());
    pseudo.push(0);
    pseudo.push(proto);
    pseudo.push(((len / 256) % 256) as u8);
    pseudo.push((len % 256) as u8);
    proof {
        lemma_be_bytes_2(len as nat);
        assert(pseudo@ =~= pseudo_v4(src@, dst@, proto, data@.len()));
    }
    finish_checksum(pseudo.as_slice(), data)
}

/// The checksum of `data` behind the IPv6 pseudo header. The length field holds the low thirty-two
/// bits of the length.
pub fn checksum_with_pseudo_v6(src: &[u8; 16], dst: &[u8; 16], proto: u8, data: &[u8]) -> (r: u16)
    ensures
        r == checksum_of(pseudo_v6(src@, dst@, proto, data@.len()) + data@),
{
    let len = octets_of(data.len() as u128, 4);
    let mut pseudo: Vec<u8> = Vec::new();
    pseudo.extend_from_slice(src.as_slice());
    pseudo.extend_from_slice(dst.as_slice());
    pseudo.extend_from_slice(len.as_slice());
    pseudo.push(0);
    pseudo.push(0);
    pseudo.push(0);
    pseudo.push(proto);
    proof {
        crate::octets::lemma_be_bytes_len(data@.len(), 4);
        assert(pseudo@ =~= pseudo_v6(src@, dst@, proto, data@.len()));
    }
    finish_checksum(pseudo.as_slice(), data)
}

/// The TCP checksum over IPv4.
pub fn tcp_checksum_v4(src: &[u8; 4], dst: &[u8; 4], tcp: &[u8]) -> (r: u16)
    ensures
        r == checksum_of(pseudo_v4(src@, dst@, IPPROTO_TCP, tcp@.len()) + tcp@),
{
    checksum_with_pseudo_v4(src, dst, IPPROTO_TCP, tcp)
}

/// The TCP checksum over IPv6.
pub fn tcp_checksum_v6(src: &[u8; 16], dst: &[u8; 16], tcp: &[u8]) -> (r: u16)
    ensures
        r == checksum_of(pseudo_v6(src@, dst@, IPPROTO_TCP, tcp@.len()) + tcp@),
{
    checksum_with_pseudo_v6(src, dst, IPPROTO_TCP, tcp)
}

/// The UDP checksum over IPv4.
pub fn udp_checksum_v4(src: &[u8; 4], dst: &[u8; 4], udp: &[u8]) -> (r: u16)
    ensures
        r == checksum_of(pseudo_v4(src@, dst@, IPPROTO_UDP, udp@.len()) + udp@),
{
    checksum_with_pseudo_v4(src, dst, IPPROTO_UDP, udp)
}

/// The UDP checksum over IPv6.
pub fn udp_checksum_v6(src: &[u8; 16], dst: &[u8; 16], udp: &[u8]) -> (r: u16)
    ensures
        r == checksum_of(pseudo_v6(src@, dst@, IPPROTO_UDP, udp@.len()) + udp@),
{
    checksum_with_pseudo_v6(src, dst, IPPROTO_UDP, udp)
}

/// Writes a sixteen-bit field.
pub(crate) fn set_field(pkt: &mut [u8], at: usize, v: u16)
    requires
        at + 1 < old(pkt)@.len(),
    ensures
        final(pkt)@ == with_field(old(pkt)@, at as int, v),
{
    pkt[at] = (v / 256) as u8;
    pkt[at + 1] = (v % 256) as u8;
}

/// Four octets of a packet.
fn octets4(pkt: &[u8], at: usize) -> (r: [u8; 4])
    requires
        at + 4 <= pkt@.len(),
    ensures
        r@ == pkt@.subrange(at as int, at + 4),
{
    let r = [pkt[at], pkt[at + 1], pkt[at + 2], pkt[at + 3]];
    assert(r@ =~= pkt@.subrange(at as int, at + 4));
    r
}

/// Sixteen octets of a packet.
fn octets16(pkt: &[u8], at: usize) -> (r: [u8; 16])
    requires
        at + 16 <= pkt@.len(),
    ensures
        r@ == pkt@.subrange(at as int, at + 16),
{
    let len = pkt.len();
    let mut r = [0u8; 16];
    let mut i: usize = 0;
    while i < 16
        invariant
            i <= 16,
            at + 16 <= pkt@.len(),
            len == pkt@.len(),
            forall|k: int| 0 <= k < i ==> r@[k] == pkt@[at + k],
        decreases 16 - i,
    {
        r[i] = pkt[at + i];
        i += 1;
    }
    assert(r@ =~= pkt@.subrange(at as int, at + 16));
    r
}

/// Recomputes the IPv4 header checksum of the packet in a frame. A frame too short for the header
/// is left alone.
pub fn recompute_ipv4_checksum(pkt: &mut [u8], framing: Framing)
    ensures
        !holds_ipv4_header(old(pkt)@, framing.start()) ==> final(pkt)@ == old(pkt)@,
        holds_ipv4_header(old(pkt)@, framing.start()) ==> final(pkt)@ == ipv4_checksummed(
            old(pkt)@,
            framing.start(),
        ),
{
    let off = framing.offset();
    let len = pkt.len();
    if len < off + 20 {
        return;
    }
    let stated = (pkt[off] % 16) as usize * 4;
    let ihl: usize = if stated < 20 {
        20
    } else {
        stated
    };
    if len < off + ihl {
        return;
    }
    set_field(pkt, off + 10, 0);
    let cksum = internet_checksum(vstd::slice::slice_subrange(&*pkt, off, off + ihl));
    set_field(pkt, off + 10, cksum);
    assert(pkt@ =~= ipv4_checksummed(old(pkt)@, off as int));
}

/// Recomputes the TCP checksum of the IPv4 packet in a frame. A frame that ends before the
/// third octet of the TCP header is left alone.
pub fn recompute_tcp_checksum_v4(pkt: &mut [u8], ihl: usize, framing: Framing)
    requires
        framing.start() + ihl + 2 <= usize::MAX,
        old(pkt)@.len() >= framing.start() + ihl + 2 ==> {
            &&& old(pkt)@.len() >= framing.start() + ihl + 18
            &&& old(pkt)@.len() >= framing.start() + 20
        },
    ensures
        old(pkt)@.len() < framing.start() + ihl + 2 ==> final(pkt)@ == old(pkt)@,
        old(pkt)@.len() >= framing.start() + ihl + 2 ==> final(pkt)@ == tcp_v4_checksummed(
            old(pkt)@,
            framing.start(),
            ihl as int,
        ),
{
    let off = framing.offset();
    let len = pkt.len();
    if len < off + ihl + 2 {
        return;
    }
    let tcp_off = off + ihl;
    let src_ip = octets4(&*pkt, off + 12);
    let dst_ip = octets4(&*pkt, off + 16);
    set_field(pkt, tcp_off + 16, 0);
    let tcp = vstd::slice::slice_subrange(&*pkt, tcp_off, len);
    assert(tcp@ =~= with_field(old(pkt)@, tcp_off + 16, 0).skip(tcp_off as int));
    let cksum = tcp_checksum_v4(&src_ip, &dst_ip, tcp);
    set_field(pkt, tcp_off + 16, cksum);
    assert(pkt@ =~= tcp_v4_checksummed(old(pkt)@, off as int, ihl as int));
}

/// Recomputes the TCP checksum of the IPv6 packet in a frame. A frame that ends before the end
/// of the checksum field is left alone.
pub fn recompute_tcp_checksum_v6(pkt: &mut [u8], framing: Framing)
    ensures
        old(pkt)@.len() < framing.start() + 58 ==> final(pkt)@ == old(pkt)@,
        old(pkt)@.len() >= framing.start() + 58 ==> final(pkt)@ == v6_checksummed(
            old(pkt)@,
            framing.start(),
            IPPROTO_TCP,
            16,
        ),
{
    let off = framing.offset();
    let len = pkt.len();
    if len < off + 40 + 18 {
        return;
    }
    let tcp_off = off + 40;
    let src_ip = octets16(&*pkt, off + 8);
    let dst_ip = octets16(&*pkt, off + 24);
    set_field(pkt, tcp_off + 16, 0);
    let tcp = vstd::slice::slice_subrange(&*pkt, tcp_off, len);
    assert(tcp@ =~= with_field(old(pkt)@, tcp_off + 16, 0).skip(tcp_off as int));
    let cksum = tcp_checksum_v6(&src_ip, &dst_ip, tcp);
    set_field(pkt, tcp_off + 16, cksum);
    assert(pkt@ =~= v6_checksummed(old(pkt)@, off as int, IPPROTO_TCP, 16));
}

/// Recomputes the ICMPv6 checksum of the packet in a frame. A frame that ends before the end of
/// the eight octets of an echo header is left alone.
pub fn recompute_icmpv6_checksum(pkt: &mut [u8], framing: Framing)
    ensures
        old(pkt)@.len() < framing.start() + 48 ==> final(pkt)@ == old(pkt)@,
        old(pkt)@.len() >= framing.start() + 48 ==> final(pkt)@ == v6_checksummed(
            old(pkt)@,
            framing.start(),
            IPPROTO_ICMPV6,
            2,
        ),
{
    let off = framing.offset();
    let len = pkt.len();
    if len < off + 40 + 8 {
        return;
    }
    let icmp_off = off + 40;
    let src_ip = octets16(&*pkt, off + 8);
    let dst_ip = octets16(&*pkt, off + 24);
    set_field(pkt, icmp_off + 2, 0);
    let icmp = vstd::slice::slice_subrange(&*pkt, icmp_off, len);
    assert(icmp@ =~= with_field(old(pkt)@, icmp_off + 2, 0).skip(framing.start() + 40));
    let cksum = checksum_with_pseudo_v6(&src_ip, &dst_ip, IPPROTO_ICMPV6, icmp);
    set_field(pkt, icmp_off + 2, cksum);
    assert(pkt@ =~= v6_checksummed(old(pkt)@, framing.start(), IPPROTO_ICMPV6, 2));
}

/// What setting an aligned field does to the sum of the words.
proof fn lemma_word_sum_field(s: Seq<u8>, at: int, v: u16)
    requires
        0 <= at,
        at % 2 == 0,
        at + 1 < s.len(),
    ensures
        word_sum(with_field(s, at, v)) + s[at] * 256 + s[at + 1] == word_sum(s) + v,
    decreases s.len(),
{
    let t = with_field(s, at, v);
    if at == 0 {
        assert(t.skip(2) =~= s.skip(2));
    } else {
        lemma_word_sum_field(s.skip(2), at - 2, v);
        assert(t.skip(2) =~= with_field(s.skip(2), at - 2, v));
    }
}

/// A sequence that carries its own checksum in an aligned field has the checksum zero.
pub proof fn law_checksum_verifies(s: Seq<u8>, at: int)
    requires
        0 <= at,
        at % 2 == 0,
        at + 1 < s.len(),
    ensures
        checksum_of(with_field(s, at, checksum_of(with_field(s, at, 0)))) == 0,
{
    let zeroed = with_field(s, at, 0);
    let ck = checksum_of(zeroed);
    lemma_fold_step(word_sum(zeroed), 0);
    lemma_word_sum_field(zeroed, at, ck);
    assert(with_field(zeroed, at, ck) =~= with_field(s, at, ck));
    let w = word_sum(zeroed);
    let total = w + ck;
    assert(ones_fold(total as nat) == 0xffff) by {
        if w > 0 {
            let q = (w - 1) / 0xffff;
            assert(w - 1 == q * 0xffff + (w - 1) % 0xffff);
            assert(total == (q + 1) * 0xffff);
            assert((total - 1) % 0xffff == 0xfffe);
        }
    }
}

/// After the IPv4 header checksum is recomputed, the header verifies, with its options: its
/// checksum is zero.
pub proof fn law_ipv4_checksum_verifies(frame: Seq<u8>, off: int)
    requires
        0 <= off,
        holds_ipv4_header(frame, off),
    ensures
        ({
            let out = ipv4_checksummed(frame, off);
            checksum_of(out.subrange(off, off + ipv4_header_len(out, off))) == 0
        }),
{
    let end = off + ipv4_header_len(frame, off);
    let hdr = frame.subrange(off, end);
    law_checksum_verifies(hdr, 10);
    assert(with_field(frame, off + 10, 0).subrange(off, end) =~= with_field(hdr, 10, 0));
    assert(ipv4_checksummed(frame, off).subrange(off, end) =~= with_field(
        hdr,
        10,
        checksum_of(with_field(hdr, 10, 0)),
    ));
}

/// A checksum over a pseudo header and data verifies once it stands in the data.
proof fn lemma_pseudo_verifies(pseudo: Seq<u8>, data: Seq<u8>, at: int)
    requires
        pseudo.len() % 2 == 0,
        0 <= at,
        at % 2 == 0,
        at + 1 < data.len(),
    ensures
        checksum_of(
            pseudo + with_field(data, at, checksum_of(pseudo + with_field(data, at, 0))),
        ) == 0,
{
    let all = pseudo + data;
    let at2 = pseudo.len() + at;
    law_checksum_verifies(all, at2);
    let ck = checksum_of(pseudo + with_field(data, at, 0));
    assert(with_field(all, at2, 0) =~= pseudo + with_field(data, at, 0));
    assert(with_field(all, at2, ck) =~= pseudo + with_field(data, at, ck));
}

/// After the TCP checksum of an IPv4 packet is recomputed, the segment verifies against the
/// pseudo header of the packet's own addresses.
pub proof fn law_tcp_v4_checksum_verifies(frame: Seq<u8>, off: int, ihl: int)
    requires
        0 <= off,
        4 <= ihl,
        off + ihl + 18 <= frame.len(),
    ensures
        ({
            let out = tcp_v4_checksummed(frame, off, ihl);
            checksum_of(
                pseudo_v4(
                    out.subrange(off + 12, off + 16),
                    out.subrange(off + 16, off + 20),
                    IPPROTO_TCP,
                    out.skip(off + ihl).len(),
                ) + out.skip(off + ihl),
            ) == 0
        }),
{
    let tcp = off + ihl;
    let out = tcp_v4_checksummed(frame, off, ihl);
    let data = frame.skip(tcp);
    let src = frame.subrange(off + 12, off + 16);
    let dst = frame.subrange(off + 16, off + 20);
    let pseudo = pseudo_v4(src, dst, IPPROTO_TCP, data.len());
    lemma_be_bytes_2(data.len());
    lemma_pseudo_verifies(pseudo, data, 16);
    assert(with_field(frame, tcp + 16, 0).skip(tcp) =~= with_field(data, 16, 0));
    let ck = checksum_of(pseudo + with_field(data, 16, 0));
    assert(out.skip(tcp) =~= with_field(data, 16, ck));
    assert(out.subrange(off + 12, off + 16) =~= src);
    assert(out.subrange(off + 16, off + 20) =~= dst);
}

/// After a checksum of the upper layer of an IPv6 packet is recomputed, the upper layer verifies
/// against the pseudo header of the packet's own addresses.
pub proof fn law_v6_checksum_verifies(frame: Seq<u8>, off: int, proto: u8, field: int)
    requires
        0 <= off,
        0 <= field,
        field % 2 == 0,
        off + 40 + field + 2 <= frame.len(),
    ensures
        ({
            let out = v6_checksummed(frame, off, proto, field);
            checksum_of(
                pseudo_v6(
                    out.subrange(off + 8, off + 24),
                    out.subrange(off + 24, off + 40),
                    proto,
                    out.skip(off + 40).len(),
                ) + out.skip(off + 40),
            ) == 0
        }),
{
    let upper = off + 40;
    let out = v6_checksummed(frame, off, proto, field);
    let data = frame.skip(upper);
    let src = frame.subrange(off + 8, off + 24);
    let dst = frame.subrange(off + 24, off + 40);
    let pseudo = pseudo_v6(src, dst, proto, data.len());
    crate::octets::lemma_be_bytes_len(data.len(), 4);
    lemma_pseudo_verifies(pseudo, data, field);
    assert(with_field(frame, upper + field, 0).skip(upper) =~= with_field(data, field, 0));
    let ck = checksum_of(pseudo + with_field(data, field, 0));
    assert(out.skip(upper) =~= with_field(data, field, ck));
    assert(out.subrange(off + 8, off + 24) =~= src);
    assert(out.subrange(off + 24, off + 40) =~= dst);
}

} // verus!
