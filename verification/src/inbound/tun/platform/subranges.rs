//! Networks that together stand for a default route without replacing it.
use vstd::arithmetic::power2::{lemma2_to64, lemma2_to64_rest, lemma_pow2_adds, pow2};
use vstd::prelude::*;

use crate::inbound::tun::address::{
    law_prefix_text_reads_back, network_v4, network_v6, prefix_value,
};
use crate::inbound::tun::platform::command::{arg, no_args, texts};
use crate::net::{
    groups_text, ipv4_text, ipv6_groups, ipv6_text, longest_run, prefix_text, zero_run, IpAddr,
    Ipv4Addr, Ipv6Addr,
};
use crate::octets::{be_bytes, lemma_be_bytes_2, lemma_be_bytes_len, pow256};
use crate::text::{decimal, numeral};

verus! {

/// The IPv4 networks.
pub open spec fn sub_ranges_v4() -> Seq<Seq<char>> {
    seq![
        "1.0.0.0/8"@,
        "2.0.0.0/7"@,
        "4.0.0.0/6"@,
        "8.0.0.0/5"@,
        "16.0.0.0/4"@,
        "32.0.0.0/3"@,
        "64.0.0.0/2"@,
        "128.0.0.0/1"@,
    ]
}

/// The IPv6 networks.
pub open spec fn sub_ranges_v6() -> Seq<Seq<char>> {
    seq![
        "100::/8"@,
        "200::/7"@,
        "400::/6"@,
        "800::/5"@,
        "1000::/4"@,
        "2000::/3"@,
        "4000::/2"@,
        "8000::/1"@,
    ]
}

/// The IPv4 networks.
pub fn ipv4_sub_ranges() -> (r: Vec<String>)
    ensures
        texts(r@) == sub_ranges_v4(),
{
    let mut r = no_args();
    arg(&mut r, "1.0.0.0/8");
    arg(&mut r, "2.0.0.0/7");
    arg(&mut r, "4.0.0.0/6");
    arg(&mut r, "8.0.0.0/5");
    arg(&mut r, "16.0.0.0/4");
    arg(&mut r, "32.0.0.0/3");
    arg(&mut r, "64.0.0.0/2");
    arg(&mut r, "128.0.0.0/1");
    assert(texts(r@) =~= sub_ranges_v4());
    r
}

/// The IPv6 networks.
pub fn ipv6_sub_ranges() -> (r: Vec<String>)
    ensures
        texts(r@) == sub_ranges_v6(),
{
    let mut r = no_args();
    arg(&mut r, "100::/8");
    arg(&mut r, "200::/7");
    arg(&mut r, "400::/6");
    arg(&mut r, "800::/5");
    arg(&mut r, "1000::/4");
    arg(&mut r, "2000::/3");
    arg(&mut r, "4000::/2");
    arg(&mut r, "8000::/1");
    assert(texts(r@) =~= sub_ranges_v6());
    r
}

/// The first address of each IPv4 network, with its prefix length.
pub open spec fn start_v4(i: int) -> (Ipv4Addr, u8) {
    (Ipv4Addr { bits: pow2((24 + i) as nat) as u32 }, (8 - i) as u8)
}

/// The first address of each IPv6 network, with its prefix length.
pub open spec fn start_v6(i: int) -> (Ipv6Addr, u8) {
    (Ipv6Addr { bits: pow2((120 + i) as nat) as u128 }, (8 - i) as u8)
}

/// Whether a text denotes the IPv4 network in which an address lies.
pub open spec fn covers_v4(range: Seq<char>, bits: u32) -> bool {
    prefix_value(range) matches Some((IpAddr::V4(ip), n)) && network_v4(bits, n) == ip.bits
}

/// Whether a text denotes the IPv6 network in which an address lies.
pub open spec fn covers_v6(range: Seq<char>, bits: u128) -> bool {
    prefix_value(range) matches Some((IpAddr::V6(ip), n)) && network_v6(bits, n) == ip.bits
}

/// The text of an IPv4 address of which only the first octet is not zero.
proof fn lemma_leading_octet(v: nat)
    requires
        v < 256,
    ensures
        ipv4_text((v * 0x100_0000) as u32) == decimal(v) + seq!['.', '0', '.', '0', '.', '0'],
{
    let n = v * 0x100_0000;
    reveal_with_fuel(be_bytes, 5);
    assert(n / 256 == v * 0x1_0000 && n / 256 / 256 == v * 0x100 && n / 256 / 256 / 256 == v);
    let o = be_bytes(n, 4);
    assert(o[0] == v && o[1] == 0 && o[2] == 0 && o[3] == 0);
    assert(decimal(0) =~= seq!['0']);
    assert(ipv4_text(n as u32) =~= decimal(v) + seq!['.', '0', '.', '0', '.', '0']);
}

/// The decimal numerals of the first octets of the IPv4 networks.
proof fn lemma_octet_numerals()
    ensures
        decimal(1) == seq!['1'],
        decimal(2) == seq!['2'],
        decimal(3) == seq!['3'],
        decimal(4) == seq!['4'],
        decimal(5) == seq!['5'],
        decimal(6) == seq!['6'],
        decimal(7) == seq!['7'],
        decimal(8) == seq!['8'],
        decimal(16) == seq!['1', '6'],
        decimal(32) == seq!['3', '2'],
        decimal(64) == seq!['6', '4'],
        decimal(128) == seq!['1', '2', '8'],
{
    reveal_with_fuel(numeral, 4);
    assert(decimal(16) =~= seq!['1', '6']);
    assert(decimal(32) =~= seq!['3', '2']);
    assert(decimal(64) =~= seq!['6', '4']);
    assert(decimal(128) =~= seq!['1', '2', '8']);
}

/// A text that denotes an IPv4 network of which only the first octet is not zero.
proof fn lemma_denotes_v4(s: Seq<char>, v: nat, n: u8)
    requires
        v < 256,
        n <= 32,
        s =~= decimal(v) + seq!['.', '0', '.', '0', '.', '0', '/'] + decimal(n as nat),
    ensures
        prefix_value(s) == Some((IpAddr::V4(Ipv4Addr { bits: (v * 0x100_0000) as u32 }), n)),
{
    let ip = IpAddr::V4(Ipv4Addr { bits: (v * 0x100_0000) as u32 });
    lemma_leading_octet(v);
    assert(s =~= prefix_text(ip, n));
    law_prefix_text_reads_back(ip, n);
}

/// What the IPv4 networks are.
proof fn lemma_range_v4(i: int)
    requires
        0 <= i < 8,
    ensures
        prefix_value(sub_ranges_v4()[i]) == Some((IpAddr::V4(start_v4(i).0), start_v4(i).1)),
        start_v4(i).0.bits == pow2((24 + i) as nat),
{
    lemma2_to64();
    lemma_octet_numerals();
    if i == 0 {
        reveal_strlit("1.0.0.0/8");
        lemma_denotes_v4("1.0.0.0/8"@, 1, 8);
    } else if i == 1 {
        reveal_strlit("2.0.0.0/7");
        lemma_denotes_v4("2.0.0.0/7"@, 2, 7);
    } else if i == 2 {
        reveal_strlit("4.0.0.0/6");
        lemma_denotes_v4("4.0.0.0/6"@, 4, 6);
    } else if i == 3 {
        reveal_strlit("8.0.0.0/5");
        lemma_denotes_v4("8.0.0.0/5"@, 8, 5);
    } else if i == 4 {
        reveal_strlit("16.0.0.0/4");
        lemma_denotes_v4("16.0.0.0/4"@, 16, 4);
    } else if i == 5 {
        reveal_strlit("32.0.0.0/3");
        lemma_denotes_v4("32.0.0.0/3"@, 32, 3);
    } else if i == 6 {
        reveal_strlit("64.0.0.0/2");
        lemma_denotes_v4("64.0.0.0/2"@, 64, 2);
    } else {
        reveal_strlit("128.0.0.0/1");
        lemma_denotes_v4("128.0.0.0/1"@, 128, 1);
    }
}

/// Every IPv4 address lies in one of the networks, but for those whose first octet is zero.
pub proof fn law_sub_ranges_cover_v4(bits: u32)
    ensures
        bits >= 0x100_0000 <==> exists|i: int|
            0 <= i < 8 && #[trigger] covers_v4(sub_ranges_v4()[i], bits),
{
    lemma2_to64();
    assert forall|i: int| 0 <= i < 8 implies #[trigger] covers_v4(sub_ranges_v4()[i], bits) == (pow2(
        (24 + i) as nat,
    ) <= bits < 2 * pow2((24 + i) as nat)) by {
        lemma_range_v4(i);
        lemma_block_v4(bits, i);
    }
    if bits >= 0x100_0000 {
        let i: int = if bits < 0x200_0000 {
            0
        } else if bits < 0x400_0000 {
            1
        } else if bits < 0x800_0000 {
            2
        } else if bits < 0x1000_0000 {
            3
        } else if bits < 0x2000_0000 {
            4
        } else if bits < 0x4000_0000 {
            5
        } else if bits < 0x8000_0000 {
            6
        } else {
            7
        };
        assert(covers_v4(sub_ranges_v4()[i], bits));
    }
}

/// A run of zeros up to the end is the longest from any place in it on.
proof fn lemma_zero_tail(g: Seq<nat>, i: int)
    requires
        1 <= i <= g.len(),
        forall|j: int| 1 <= j < g.len() ==> g[j] == 0,
    ensures
        zero_run(g, i) == g.len() - i,
        longest_run(g, i) == i,
    decreases g.len() - i,
{
    if i < g.len() {
        lemma_zero_tail(g, i + 1);
    }
}

/// The octets of a number of which only the first two are not zero.
proof fn lemma_leading_octets(v: nat, k: nat, n: nat, w: nat)
    requires
        v < 0x1_0000,
        n == v * pow256(k),
        w == 2 + k,
    ensures
        be_bytes(n, w).len() == w,
        be_bytes(n, w)[0] == v / 256,
        be_bytes(n, w)[1] == v % 256,
        forall|j: int| 2 <= j < w ==> be_bytes(n, w)[j] == 0,
    decreases k,
{
    lemma_be_bytes_len(n, w);
    if k == 0 {
        assert(v * 1 == v) by (nonlinear_arith);
        lemma_be_bytes_2(v);
    } else {
        let h = (k - 1) as nat;
        assert(v * (256 * pow256(h)) == 256 * (v * pow256(h))) by (nonlinear_arith);
        assert(n / 256 == v * pow256(h) && n % 256 == 0);
        lemma_leading_octets(v, h, n / 256, (w - 1) as nat);
        assert(be_bytes(n, w) == be_bytes(n / 256, (w - 1) as nat).push(0));
    }
}

/// The text of an IPv6 address of which only the first group is not zero.
proof fn lemma_leading_group(v: nat)
    requires
        0 < v < 0x1_0000,
    ensures
        ipv6_text((v * 0x1_0000_0000_0000_0000_0000_0000_0000) as u128) == numeral(v, 16) + seq![':', ':'],
{
    let n = v * 0x1_0000_0000_0000_0000_0000_0000_0000;
    assert(pow256(14) == 0x1_0000_0000_0000_0000_0000_0000_0000) by {
        reveal_with_fuel(pow256, 15);
    }
    lemma_leading_octets(v, 14, n, 16);
    let g = ipv6_groups(n as u128);
    assert(g[0] == v);
    assert forall|j: int| 1 <= j < 8 implies g[j] == 0 by {
        assert(be_bytes(n, 16)[2 * j] == 0 && be_bytes(n, 16)[2 * j + 1] == 0);
    }
    lemma_zero_tail(g, 1);
    assert(zero_run(g, 0) == 0);
    assert(longest_run(g, 0) == 1);
    assert(g.take(1) =~= seq![v]);
    assert(g.skip(8) =~= Seq::<nat>::empty());
    assert(groups_text(g.take(1)) == numeral(v, 16));
    assert(groups_text(g.skip(8)) =~= Seq::<char>::empty());
    assert(ipv6_text(n as u128) =~= numeral(v, 16) + seq![':', ':']);
}

/// The hexadecimal numerals of the first groups of the IPv6 networks.
proof fn lemma_group_numerals()
    ensures
        numeral(0x100, 16) == seq!['1', '0', '0'],
        numeral(0x200, 16) == seq!['2', '0', '0'],
        numeral(0x400, 16) == seq!['4', '0', '0'],
        numeral(0x800, 16) == seq!['8', '0', '0'],
        numeral(0x1000, 16) == seq!['1', '0', '0', '0'],
        numeral(0x2000, 16) == seq!['2', '0', '0', '0'],
        numeral(0x4000, 16) == seq!['4', '0', '0', '0'],
        numeral(0x8000, 16) == seq!['8', '0', '0', '0'],
{
    reveal_with_fuel(numeral, 5);
    assert(numeral(0x100, 16) =~= seq!['1', '0', '0']);
    assert(numeral(0x200, 16) =~= seq!['2', '0', '0']);
    assert(numeral(0x400, 16) =~= seq!['4', '0', '0']);
    assert(numeral(0x800, 16) =~= seq!['8', '0', '0']);
    assert(numeral(0x1000, 16) =~= seq!['1', '0', '0', '0']);
    assert(numeral(0x2000, 16) =~= seq!['2', '0', '0', '0']);
    assert(numeral(0x4000, 16) =~= seq!['4', '0', '0', '0']);
    assert(numeral(0x8000, 16) =~= seq!['8', '0', '0', '0']);
}

/// A text that denotes an IPv6 network of which only the first group is not zero.
proof fn lemma_denotes_v6(s: Seq<char>, v: nat, n: u8)
    requires
        0 < v < 0x1_0000,
        n <= 128,
        s =~= numeral(v, 16) + seq![':', ':', '/'] + decimal(n as nat),
    ensures
        prefix_value(s) == Some((IpAddr::V6(Ipv6Addr { bits: (v * 0x1_0000_0000_0000_0000_0000_0000_0000) as u128 }), n)),
{
    let ip = IpAddr::V6(Ipv6Addr { bits: (v * 0x1_0000_0000_0000_0000_0000_0000_0000) as u128 });
    lemma_leading_group(v);
    assert(s =~= prefix_text(ip, n));
    law_prefix_text_reads_back(ip, n);
}

/// The powers of two at which the IPv6 networks start.
proof fn lemma_powers_v6(i: int)
    requires
        0 <= i < 8,
    ensures
        pow2((120 + i) as nat) == pow2((8 + i) as nat) * 0x1_0000_0000_0000_0000_0000_0000_0000,
        0x100 <= pow2((8 + i) as nat) <= 0x8000,
{
    lemma2_to64();
    lemma2_to64_rest();
    lemma_pow2_adds(56, 56);
    assert(pow2(112) == 0x1_0000_0000_0000_0000_0000_0000_0000);
    lemma_pow2_adds((8 + i) as nat, 112);
    assert(0x100 <= pow2((8 + i) as nat) <= 0x8000);
}

/// What the IPv6 networks are.
#[verifier::rlimit(40)]
proof fn lemma_range_v6(i: int)
    requires
        0 <= i < 8,
    ensures
        prefix_value(sub_ranges_v6()[i]) == Some((IpAddr::V6(start_v6(i).0), start_v6(i).1)),
        start_v6(i).0.bits == pow2((120 + i) as nat),
{
    lemma2_to64();
    lemma_powers_v6(i);
    lemma_octet_numerals();
    lemma_group_numerals();
    if i == 0 {
        reveal_strlit("100::/8");
        lemma_denotes_v6("100::/8"@, 0x100, 8);
    } else if i == 1 {
        reveal_strlit("200::/7");
        lemma_denotes_v6("200::/7"@, 0x200, 7);
    } else if i == 2 {
        reveal_strlit("400::/6");
        lemma_denotes_v6("400::/6"@, 0x400, 6);
    } else if i == 3 {
        reveal_strlit("800::/5");
        lemma_denotes_v6("800::/5"@, 0x800, 5);
    } else if i == 4 {
        reveal_strlit("1000::/4");
        lemma_denotes_v6("1000::/4"@, 0x1000, 4);
    } else if i == 5 {
        reveal_strlit("2000::/3");
        lemma_denotes_v6("2000::/3"@, 0x2000, 3);
    } else if i == 6 {
        reveal_strlit("4000::/2");
        lemma_denotes_v6("4000::/2"@, 0x4000, 2);
    } else {
        reveal_strlit("8000::/1");
        lemma_denotes_v6("8000::/1"@, 0x8000, 1);
    }
}

/// Every IPv6 address lies in one of the networks, but for those whose first octet is zero.
pub proof fn law_sub_ranges_cover_v6(bits: u128)
    ensures
        bits >= 0x100_0000_0000_0000_0000_0000_0000_0000 <==> exists|i: int|
            0 <= i < 8 && #[trigger] covers_v6(sub_ranges_v6()[i], bits),
{
    lemma2_to64();
    assert forall|i: int| 0 <= i < 8 implies #[trigger] covers_v6(sub_ranges_v6()[i], bits) == (pow2(
        (8 + i) as nat,
    ) * 0x1_0000_0000_0000_0000_0000_0000_0000 <= bits < 2 * (pow2((8 + i) as nat)
        * 0x1_0000_0000_0000_0000_0000_0000_0000)) by {
        lemma_range_v6(i);
        lemma_powers_v6(i);
        lemma_first_block(bits as int, pow2((120 + i) as nat) as int);
    }
    if bits >= 0x100_0000_0000_0000_0000_0000_0000_0000 {
        let i: int = if bits < 0x200_0000_0000_0000_0000_0000_0000_0000 {
            0
        } else if bits < 0x400_0000_0000_0000_0000_0000_0000_0000 {
            1
        } else if bits < 0x800_0000_0000_0000_0000_0000_0000_0000 {
            2
        } else if bits < 0x1000_0000_0000_0000_0000_0000_0000_0000 {
            3
        } else if bits < 0x2000_0000_0000_0000_0000_0000_0000_0000 {
            4
        } else if bits < 0x4000_0000_0000_0000_0000_0000_0000_0000 {
            5
        } else if bits < 0x8000_0000_0000_0000_0000_0000_0000_0000 {
            6
        } else {
            7
        };
        assert(covers_v6(sub_ranges_v6()[i], bits));
    }
}

/// The network of an IPv4 address starts at a power of two if and only if the address lies from
/// there to the next power of two.
proof fn lemma_block_v4(bits: u32, i: int)
    requires
        0 <= i < 8,
    ensures
        pow2((24 + i) as nat) >= 0x100_0000,
        network_v4(bits, (8 - i) as u8) == pow2((24 + i) as nat) <==> pow2((24 + i) as nat) <= bits
            < 2 * pow2((24 + i) as nat),
{
    lemma2_to64();
    let b = pow2((24 + i) as nat) as int;
    assert(0x100_0000 <= b <= 0x8000_0000);
    lemma_first_block(bits as int, b);
}

/// A number less its remainder is the divisor if and only if the quotient is one.
proof fn lemma_first_block(x: int, b: int)
    requires
        0 <= x,
        0 < b,
    ensures
        0 <= x - x % b <= x,
        x - x % b == b <==> b <= x < 2 * b,
{
    vstd::arithmetic::div_mod::lemma_mod_bound(x, b);
    if b <= x < 2 * b {
        vstd::arithmetic::div_mod::lemma_mod_multiples_vanish(-1, x, b);
        assert(b * -1 + x == x - b) by (nonlinear_arith);
        vstd::arithmetic::div_mod::lemma_small_mod((x - b) as nat, b as nat);
    }
    if x < b {
        vstd::arithmetic::div_mod::lemma_small_mod(x as nat, b as nat);
    } else {
        vstd::arithmetic::div_mod::lemma_mod_decreases(x as nat, b as nat);
    }
}

/// The networks that are handed out cover every address but those whose first octet is zero.
pub proof fn law_networks_are_handed_out(r4: Vec<String>, r6: Vec<String>, a: u32, b: u128)
    requires
        call_ensures(ipv4_sub_ranges, (), r4),
        call_ensures(ipv6_sub_ranges, (), r6),
    ensures
        r4@.len() == 8 && r6@.len() == 8,
        a >= 0x100_0000 <==> exists|i: int| 0 <= i < 8 && #[trigger] covers_v4(texts(r4@)[i], a),
        b >= 0x100_0000_0000_0000_0000_0000_0000_0000 <==> exists|i: int|
            0 <= i < 8 && #[trigger] covers_v6(texts(r6@)[i], b),
{
    law_sub_ranges_cover_v4(a);
    law_sub_ranges_cover_v6(b);
    assert(texts(r4@).len() == r4@.len());
    assert(texts(r6@).len() == r6@.len());
}

} // verus!
