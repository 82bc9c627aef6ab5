//! The addresses of the TUN device and the networks that they stand in.
use vstd::arithmetic::power2::{lemma2_to64, lemma2_to64_rest, lemma_pow2_adds, lemma_pow2_pos,
    lemma_pow2_strictly_increases, lemma_pow2_unfold, pow2};
use vstd::prelude::*;

use crate::config::inbound::TunInboundConfig;
use crate::net::{
    ip_text, ip_value, law_ip_text_reads_back, lemma_ip_text_chars, parse_ip, prefix_text, IpAddr,
    Ipv4Addr, Ipv6Addr,
};
use crate::text::{
    chars_of, decimal, find_char, law_numeral_reads_back, lemma_numeral_chars, lemma_position,
    lemma_position_unique, parse_unsigned, position, unsigned_value,
};

verus! {

/// The address and the prefix length that `s` denotes: an address, a slash, and a number that
/// does not exceed the number of bits of the address.
pub open spec fn prefix_value(s: Seq<char>) -> Option<(IpAddr, u8)> {
    let p = position(s, '/') as int;
    if p < s.len() {
        match (ip_value(s.take(p)), unsigned_value(s.skip(p + 1), 255)) {
            (Some(ip), Some(n)) => if n <= (if ip is V4 {
                32nat
            } else {
                128nat
            }) {
                Some((ip, n as u8))
            } else {
                None
            },
            _ => None,
        }
    } else {
        None
    }
}

/// Reads an address with a prefix length, such as `198.18.0.1/16`.
pub fn parse_addr_prefix(s: &str) -> (r: Option<(IpAddr, u8)>)
    ensures
        r == prefix_value(s@),
{
    let chars = chars_of(s);
    let len = chars.len();
    let p = find_char(chars.as_slice(), '/');
    proof {
        lemma_position(s@, '/');
    }
    if p >= len {
        return None;
    }
    let left = vstd::slice::slice_subrange(chars.as_slice(), 0, p);
    let right = vstd::slice::slice_subrange(chars.as_slice(), p + 1, len);
    assert(left@ =~= s@.take(p as int));
    assert(right@ =~= s@.skip(p as int + 1));
    let ip = match parse_ip(left) {
        Some(ip) => ip,
        None => {
            return None;
        },
    };
    let prefix_len: u8 = match parse_unsigned(right, 255) {
        Some(n) => n as u8,
        None => {
            return None;
        },
    };
    let max_len: u8 = if ip.is_ipv4() {
        32
    } else {
        128
    };
    if prefix_len > max_len {
        return None;
    }
    Some((ip, prefix_len))
}

/// The text of an address with a prefix length denotes both.
pub proof fn law_prefix_text_reads_back(ip: IpAddr, n: u8)
    requires
        n <= (if ip is V4 {
            32
        } else {
            128int
        }),
    ensures
        prefix_value(prefix_text(ip, n)) == Some((ip, n)),
{
    let s = prefix_text(ip, n);
    let a = ip_text(ip);
    let d = decimal(n as nat);
    law_ip_text_reads_back(ip);
    lemma_ip_text_chars(ip, '/');
    law_numeral_reads_back(n as nat, 10);
    lemma_numeral_chars(n as nat, 10, '+');
    assert(s[a.len() as int] == '/');
    lemma_position_unique(s, '/', a.len() as int);
    assert(s.take(a.len() as int) =~= a);
    assert(s.skip(a.len() as int + 1) =~= d);
}

/// The mask of an IPv4 prefix: ones, then zeros. Lengths above 32 count as 32.
pub open spec fn mask_v4(len: u8) -> u32 {
    let n: int = if len > 32 {
        32
    } else {
        len as int
    };
    (0x1_0000_0000 - pow2((32 - n) as nat)) as u32
}

/// The first address of the IPv4 network of the given prefix length in which `bits` lies.
pub open spec fn network_v4(bits: u32, len: u8) -> u32 {
    let n: int = if len > 32 {
        32
    } else {
        len as int
    };
    (bits - bits as int % pow2((32 - n) as nat) as int) as u32
}

/// The first address of the IPv6 network of the given prefix length in which `bits` lies.
pub open spec fn network_v6(bits: u128, len: u8) -> u128 {
    let n: int = if len > 128 {
        128
    } else {
        len as int
    };
    (bits - bits as int % pow2((128 - n) as nat) as int) as u128
}

/// A power of two.
fn power_of_two(n: u8) -> (r: u128)
    requires
        n <= 127,
    ensures
        r == pow2(n as nat),
        r >= 1,
        n <= 32 ==> r <= 0x1_0000_0000,
{
    proof {
        lemma2_to64();
        lemma2_to64_rest();
        lemma_pow2_adds(63, 64);
    }
    let mut acc: u128 = 1;
    let mut i: u8 = 0;
    while i < n
        invariant
            i <= n <= 127,
            acc == pow2(i as nat),
            pow2(127) == 0x8000_0000_0000_0000_0000_0000_0000_0000,
        decreases n - i,
    {
        proof {
            lemma_pow2_unfold((i + 1) as nat);
            if i + 1 < 127 {
                lemma_pow2_strictly_increases((i + 1) as nat, 127);
            }
        }
        acc = acc * 2;
        i += 1;
    }
    proof {
        lemma_pow2_pos(n as nat);
        if n < 32 {
            lemma_pow2_strictly_increases(n as nat, 32);
        }
    }
    acc
}

/// The mask of an IPv4 prefix.
pub fn prefix_len_to_mask_v4(len: u8) -> (r: Ipv4Addr)
    ensures
        r.bits == mask_v4(len),
{
    if len == 0 {
        proof {
            lemma2_to64();
        }
        return Ipv4Addr { bits: 0 };
    }
    let n: u8 = if len > 32 {
        32
    } else {
        len
    };
    let block = power_of_two(32 - n);
    proof {
        lemma2_to64();
        if n > 0 {
            lemma_pow2_strictly_increases((32 - n) as nat, 32);
        }
    }
    Ipv4Addr { bits: (0x1_0000_0000u128 - block) as u32 }
}

/// The first address of the network in which an IPv4 address lies.
pub fn v4_network(ip: Ipv4Addr, prefix_len: u8) -> (r: Ipv4Addr)
    requires
        prefix_len >= 1,
    ensures
        r.bits == network_v4(ip.bits, prefix_len),
{
    let n: u8 = if prefix_len > 32 {
        32
    } else {
        prefix_len
    };
    let block = power_of_two(32 - n);
    let bits = ip.bits as u128;
    proof {
        vstd::arithmetic::div_mod::lemma_mod_bound(bits as int, block as int);
        vstd::arithmetic::div_mod::lemma_mod_decreases(bits as nat, block as nat);
    }
    Ipv4Addr { bits: (bits - bits % block) as u32 }
}

/// The first address of the network in which an IPv6 address lies.
pub fn v6_network(ip: Ipv6Addr, prefix_len: u8) -> (r: Ipv6Addr)
    requires
        prefix_len >= 1,
    ensures
        r.bits == network_v6(ip.bits, prefix_len),
{
    let n: u8 = if prefix_len > 128 {
        128
    } else {
        prefix_len
    };
    let block = power_of_two(128 - n);
    proof {
        vstd::arithmetic::div_mod::lemma_mod_bound(ip.bits as int, block as int);
        vstd::arithmetic::div_mod::lemma_mod_decreases(ip.bits as nat, block as nat);
    }
    Ipv6Addr { bits: ip.bits - ip.bits % block }
}

/// The IPv4 addresses with their prefix lengths, in the order in which they are given. Texts that
/// denote no address are passed over.
pub open spec fn v4_prefixes(a: Seq<String>) -> Seq<(Ipv4Addr, u8)>
    decreases a.len(),
{
    if a.len() == 0 {
        Seq::empty()
    } else {
        match prefix_value(a.last()@) {
            Some((IpAddr::V4(ip), n)) => v4_prefixes(a.drop_last()).push((ip, n)),
            _ => v4_prefixes(a.drop_last()),
        }
    }
}

/// The IPv6 addresses with their prefix lengths, in the order in which they are given. Texts that
/// denote no address are passed over.
pub open spec fn v6_prefixes(a: Seq<String>) -> Seq<(Ipv6Addr, u8)>
    decreases a.len(),
{
    if a.len() == 0 {
        Seq::empty()
    } else {
        match prefix_value(a.last()@) {
            Some((IpAddr::V6(ip), n)) => v6_prefixes(a.drop_last()).push((ip, n)),
            _ => v6_prefixes(a.drop_last()),
        }
    }
}

/// The addresses of an interface, by family.
pub struct AddrInfo {
    pub inet4: Vec<(Ipv4Addr, u8)>,
    pub inet6: Vec<(Ipv6Addr, u8)>,
}

/// Reads the addresses of the interface.
pub fn parse_addresses(cfg: &TunInboundConfig) -> (r: AddrInfo)
    ensures
        r.inet4@ == v4_prefixes(cfg.address@),
        r.inet6@ == v6_prefixes(cfg.address@),
{
    let mut inet4: Vec<(Ipv4Addr, u8)> = Vec::new();
    let mut inet6: Vec<(Ipv6Addr, u8)> = Vec::new();
    let mut i: usize = 0;
    while i < cfg.address.len()
        invariant
            i <= cfg.address@.len(),
            inet4@ == v4_prefixes(cfg.address@.take(i as int)),
            inet6@ == v6_prefixes(cfg.address@.take(i as int)),
        decreases cfg.address@.len() - i,
    {
        let ghost t = cfg.address@.take(i + 1);
        assert(t.drop_last() =~= cfg.address@.take(i as int));
        match parse_addr_prefix(cfg.address[i].as_str()) {
            Some((IpAddr::V4(ip), prefix_len)) => inet4.push((ip, prefix_len)),
            Some((IpAddr::V6(ip), prefix_len)) => inet6.push((ip, prefix_len)),
            None => {},
        }
        i += 1;
    }
    assert(cfg.address@.take(i as int) =~= cfg.address@);
    AddrInfo { inet4, inet6 }
}

/// Every prefix length fits its family.
pub proof fn law_prefix_lengths_fit(a: Seq<String>)
    ensures
        forall|i: int| 0 <= i < v4_prefixes(a).len() ==> (#[trigger] v4_prefixes(a)[i]).1 <= 32,
        forall|i: int| 0 <= i < v6_prefixes(a).len() ==> (#[trigger] v6_prefixes(a)[i]).1 <= 128,
    decreases a.len(),
{
    if a.len() > 0 {
        law_prefix_lengths_fit(a.drop_last());
        let b4 = v4_prefixes(a.drop_last());
        let b6 = v6_prefixes(a.drop_last());
        assert forall|i: int| 0 <= i < v4_prefixes(a).len() implies (#[trigger] v4_prefixes(
            a,
        )[i]).1 <= 32 by {
            if i < b4.len() {
                assert(v4_prefixes(a)[i] == b4[i]);
            }
        }
        assert forall|i: int| 0 <= i < v6_prefixes(a).len() implies (#[trigger] v6_prefixes(
            a,
        )[i]).1 <= 128 by {
            if i < b6.len() {
                assert(v6_prefixes(a)[i] == b6[i]);
            }
        }
    }
}

} // verus!
