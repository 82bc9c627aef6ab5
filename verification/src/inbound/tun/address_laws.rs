//! What the addresses of an interface come to.
use vstd::arithmetic::power2::pow2;
use vstd::prelude::*;

use crate::config::inbound::TunInboundConfig;
use crate::inbound::tun::address::{
    law_prefix_text_reads_back, mask_v4, parse_addr_prefix, parse_addresses, prefix_len_to_mask_v4,
    prefix_value, v4_network, v4_prefixes, v6_network, v6_prefixes, AddrInfo,
};
use crate::inbound::tun::engine::{first_v4, first_v6, next_v4, next_v6};
use crate::net::{ip_value, prefix_text, IpAddr, Ipv4Addr, Ipv6Addr};
use crate::text::{lemma_position, lemma_position_unique, position, unsigned_value};

verus! {

/// A text denotes an address with a prefix length only if a slash parts it into an address and a
/// number that is no greater than the family allows.
pub proof fn law_prefixes_have_two_parts(s: Seq<char>) -> (p: int)
    ensures
        prefix_value(s) matches Some((ip, n)) ==> {
            &&& 0 <= p < s.len()
            &&& s[p] == '/'
            &&& ip_value(s.take(p)) == Some(ip)
            &&& unsigned_value(s.skip(p + 1), 255) == Some(n as nat)
            &&& ip is V4 ==> n <= 32
            &&& ip is V6 ==> n <= 128
        },
{
    lemma_position(s, '/');
    position(s, '/') as int
}

/// A text that a slash parts into an address without one and a number that is no greater than the
/// family allows denotes that address with that prefix length.
pub proof fn law_two_parts_make_a_prefix(a: Seq<char>, b: Seq<char>, ip: IpAddr, n: u8)
    requires
        forall|i: int| 0 <= i < a.len() ==> a[i] != '/',
        ip_value(a) == Some(ip),
        unsigned_value(b, 255) == Some(n as nat),
        ip is V4 ==> n <= 32,
        ip is V6 ==> n <= 128,
    ensures
        prefix_value(a + seq!['/'] + b) == Some((ip, n)),
{
    let s = a + seq!['/'] + b;
    lemma_position_unique(s, '/', a.len() as int);
    assert(s.take(a.len() as int) =~= a);
    assert(s.skip(a.len() as int + 1) =~= b);
}

/// Whether the `i`th text denotes an IPv4 address.
pub open spec fn v4_at(a: Seq<String>, i: int) -> bool {
    prefix_value(a[i]@) matches Some((IpAddr::V4(_), _))
}

/// Whether the `i`th text denotes an IPv6 address.
pub open spec fn v6_at(a: Seq<String>, i: int) -> bool {
    prefix_value(a[i]@) matches Some((IpAddr::V6(_), _))
}

/// Whether `r` is what `f` gives at some of the first `n` places, in order, and `at` says at which:
/// at all where it gives something.
pub open spec fn picked<T>(r: Seq<T>, f: spec_fn(int) -> Option<T>, n: int, at: Seq<int>) -> bool {
    &&& at.len() == r.len()
    &&& forall|k: int|
        0 <= k < at.len() ==> 0 <= #[trigger] at[k] < n && f(at[k]) == Some(r[k])
    &&& forall|j: int, k: int| 0 <= j < k < at.len() ==> #[trigger] at[j] < #[trigger] at[k]
    &&& forall|i: int| 0 <= i < n && (#[trigger] f(i)) is Some ==> at.contains(i)
}

/// One place more.
pub proof fn lemma_picked<T>(r: Seq<T>, f: spec_fn(int) -> Option<T>, n: int, at: Seq<int>)
    requires
        picked(r, f, n, at),
        0 <= n,
    ensures
        f(n) matches Some(x) ==> picked(r.push(x), f, n + 1, at.push(n)),
        f(n) is None ==> picked(r, f, n + 1, at),
{
    if f(n) is Some {
        let x = f(n)->0;
        let more = at.push(n);
        assert forall|k: int| 0 <= k < more.len() implies 0 <= #[trigger] more[k] < n + 1 && f(
            more[k],
        ) == Some(r.push(x)[k]) by {
            if k < at.len() {
                assert(more[k] == at[k]);
            }
        }
        assert forall|j: int, k: int| 0 <= j < k < more.len() implies #[trigger] more[j]
            < #[trigger] more[k] by {
            assert(more[j] == at[j]);
            if k < at.len() {
                assert(more[k] == at[k]);
            }
        }
        assert forall|i: int| 0 <= i < n + 1 && (#[trigger] f(i)) is Some implies more.contains(
            i,
        ) by {
            if i < n {
                let k = choose|k: int| 0 <= k < at.len() && at[k] == i;
                assert(more[k] == i);
            } else {
                assert(more[at.len() as int] == i);
            }
        }
    }
}

/// The IPv4 address and the prefix length that the `i`th text denotes.
pub open spec fn v4_text(a: Seq<String>) -> spec_fn(int) -> Option<(Ipv4Addr, u8)> {
    |i: int|
        match prefix_value(a[i]@) {
            Some((IpAddr::V4(ip), n)) => Some((ip, n)),
            _ => None,
        }
}

/// The IPv6 address and the prefix length that the `i`th text denotes.
pub open spec fn v6_text(a: Seq<String>) -> spec_fn(int) -> Option<(Ipv6Addr, u8)> {
    |i: int|
        match prefix_value(a[i]@) {
            Some((IpAddr::V6(ip), n)) => Some((ip, n)),
            _ => None,
        }
}

/// The IPv4 addresses are those that the texts denote, in order and with their prefix lengths; no
/// text that denotes one is passed over.
pub proof fn law_v4_texts_are_taken(a: Seq<String>) -> (at: Seq<int>)
    ensures
        picked(v4_prefixes(a), v4_text(a), a.len() as int, at),
{
    let at = lemma_v4_texts(a, a.len());
    assert(a.take(a.len() as int) =~= a);
    at
}

proof fn lemma_v4_texts(a: Seq<String>, n: nat) -> (at: Seq<int>)
    requires
        n <= a.len(),
    ensures
        picked(v4_prefixes(a.take(n as int)), v4_text(a), n as int, at),
    decreases n,
{
    if n == 0 {
        Seq::empty()
    } else {
        let m = (n - 1) as nat;
        let head = lemma_v4_texts(a, m);
        let b = a.take(n as int);
        assert(b.drop_last() =~= a.take(m as int));
        assert(b.last() == a[m as int]);
        lemma_picked(v4_prefixes(a.take(m as int)), v4_text(a), m as int, head);
        if v4_text(a)(m as int) is Some {
            head.push(m as int)
        } else {
            head
        }
    }
}

/// The IPv6 addresses are those that the texts denote, in order and with their prefix lengths; no
/// text that denotes one is passed over.
pub proof fn law_v6_texts_are_taken(a: Seq<String>) -> (at: Seq<int>)
    ensures
        picked(v6_prefixes(a), v6_text(a), a.len() as int, at),
{
    let at = lemma_v6_texts(a, a.len());
    assert(a.take(a.len() as int) =~= a);
    at
}

proof fn lemma_v6_texts(a: Seq<String>, n: nat) -> (at: Seq<int>)
    requires
        n <= a.len(),
    ensures
        picked(v6_prefixes(a.take(n as int)), v6_text(a), n as int, at),
    decreases n,
{
    if n == 0 {
        Seq::empty()
    } else {
        let m = (n - 1) as nat;
        let head = lemma_v6_texts(a, m);
        let b = a.take(n as int);
        assert(b.drop_last() =~= a.take(m as int));
        assert(b.last() == a[m as int]);
        lemma_picked(v6_prefixes(a.take(m as int)), v6_text(a), m as int, head);
        if v6_text(a)(m as int) is Some {
            head.push(m as int)
        } else {
            head
        }
    }
}

/// The device's own IPv4 address is that of the first text that denotes one, and the address after
/// it is one higher.
pub proof fn law_first_v4_text_counts(a: Seq<String>, i: int)
    requires
        0 <= i < a.len(),
        v4_at(a, i),
        forall|j: int| 0 <= j < i ==> !#[trigger] v4_at(a, j),
    ensures
        first_v4(a) is Some,
        prefix_value(a[i]@) matches Some((ip, _)) && ip == IpAddr::V4(first_v4(a)->0),
        next_v4(first_v4(a)) is Some,
        next_v4(first_v4(a))->0.bits == (first_v4(a)->0.bits + 1) % 0x1_0000_0000,
{
    let at = law_v4_texts_are_taken(a);
    let f = v4_text(a);
    assert(f(i) is Some);
    let k = choose|k: int| 0 <= k < at.len() && at[k] == i;
    assert(at[k] == i);
    assert(f(at[0]) == Some(v4_prefixes(a)[0]));
    assert(v4_at(a, at[0]));
    if k > 0 {
        assert(at[0] < at[k]);
    }
}

/// The device's own IPv6 address is that of the first text that denotes one, and the address after
/// it is one higher.
pub proof fn law_first_v6_text_counts(a: Seq<String>, i: int)
    requires
        0 <= i < a.len(),
        v6_at(a, i),
        forall|j: int| 0 <= j < i ==> !#[trigger] v6_at(a, j),
    ensures
        first_v6(a) is Some,
        prefix_value(a[i]@) matches Some((ip, _)) && ip == IpAddr::V6(first_v6(a)->0),
        next_v6(first_v6(a)) is Some,
        next_v6(first_v6(a))->0.bits == if first_v6(a)->0.bits == u128::MAX {
            0
        } else {
            first_v6(a)->0.bits + 1
        },
{
    let at = law_v6_texts_are_taken(a);
    let f = v6_text(a);
    assert(f(i) is Some);
    let k = choose|k: int| 0 <= k < at.len() && at[k] == i;
    assert(at[k] == i);
    assert(f(at[0]) == Some(v6_prefixes(a)[0]));
    assert(v6_at(a, at[0]));
    if k > 0 {
        assert(at[0] < at[k]);
    }
}

/// Whether the `i`th text denotes an address of either family.
pub open spec fn denotes(a: Seq<String>, i: int) -> bool {
    v4_at(a, i) || v6_at(a, i)
}

/// There is an address exactly if some text denotes one.
pub proof fn law_some_text_some_address(a: Seq<String>)
    ensures
        first_v4(a) is Some || first_v6(a) is Some <==> exists|i: int|
            0 <= i < a.len() && #[trigger] denotes(a, i),
{
    let at4 = law_v4_texts_are_taken(a);
    let at6 = law_v6_texts_are_taken(a);
    if at4.len() > 0 {
        assert(v4_text(a)(at4[0]) is Some);
        assert(denotes(a, at4[0]));
    }
    if at6.len() > 0 {
        assert(v6_text(a)(at6[0]) is Some);
        assert(denotes(a, at6[0]));
    }
    if exists|i: int| 0 <= i < a.len() && #[trigger] denotes(a, i) {
        let i = choose|i: int| 0 <= i < a.len() && #[trigger] denotes(a, i);
        if v4_at(a, i) {
            assert(v4_text(a)(i) is Some);
            assert(at4.contains(i));
        } else {
            assert(v6_text(a)(i) is Some);
            assert(at6.contains(i));
        }
    }
}

/// Without a text that denotes an address of a family there is none.
pub proof fn law_no_text_no_address(a: Seq<String>)
    ensures
        (forall|i: int| 0 <= i < a.len() ==> !#[trigger] v4_at(a, i)) ==> first_v4(a) is None
            && next_v4(first_v4(a)) is None,
        (forall|i: int| 0 <= i < a.len() ==> !#[trigger] v6_at(a, i)) ==> first_v6(a) is None
            && next_v6(first_v6(a)) is None,
{
    let at4 = law_v4_texts_are_taken(a);
    let at6 = law_v6_texts_are_taken(a);
    if at4.len() > 0 {
        assert(v4_text(a)(at4[0]) is Some);
        assert(v4_at(a, at4[0]));
    }
    if at6.len() > 0 {
        assert(v6_text(a)(at6[0]) is Some);
        assert(v6_at(a, at6[0]));
    }
}

/// A mask has as many leading ones as the prefix length says: it and the size of the network make
/// up all addresses. Longer prefixes count as whole addresses.
pub proof fn law_masks_have_leading_ones(len: u8)
    ensures
        len <= 32 ==> mask_v4(len) + pow2((32 - len) as nat) == 0x1_0000_0000,
        len > 32 ==> mask_v4(len) == 0xffff_ffff,
{
    vstd::arithmetic::power2::lemma2_to64();
    if 0 < len <= 32 {
        vstd::arithmetic::power2::lemma_pow2_strictly_increases((32 - len) as nat, 32);
        vstd::arithmetic::power2::lemma_pow2_pos((32 - len) as nat);
    }
}

/// A text is read as an address with a prefix length exactly where a slash parts it into the two.
pub proof fn law_prefixes_are_read(s: &str, r: Option<(IpAddr, u8)>) -> (p: int)
    requires
        call_ensures(parse_addr_prefix, (s,), r),
    ensures
        r matches Some((ip, n)) ==> {
            &&& 0 <= p < s@.len()
            &&& s@[p] == '/'
            &&& ip_value(s@.take(p)) == Some(ip)
            &&& unsigned_value(s@.skip(p + 1), 255) == Some(n as nat)
            &&& ip is V4 ==> n <= 32
            &&& ip is V6 ==> n <= 128
        },
        r is None ==> forall|ip: IpAddr, n: u8|
            n <= 32 || (ip is V6 && n <= 128) ==> s@ != #[trigger] prefix_text(ip, n),
{
    if r is None {
        assert forall|ip: IpAddr, n: u8| n <= 32 || (ip is V6 && n <= 128) implies s@
            != #[trigger] prefix_text(ip, n) by {
            law_prefix_text_reads_back(ip, n);
        }
    }
    law_prefixes_have_two_parts(s@)
}

/// The addresses of a configuration, by family, are those that its texts denote, in order.
pub proof fn law_addresses_are_read(cfg: TunInboundConfig, r: AddrInfo) -> (at: (
    Seq<int>,
    Seq<int>,
))
    requires
        call_ensures(parse_addresses, (&cfg,), r),
    ensures
        picked(r.inet4@, v4_text(cfg.address@), cfg.address@.len() as int, at.0),
        picked(r.inet6@, v6_text(cfg.address@), cfg.address@.len() as int, at.1),
{
    (law_v4_texts_are_taken(cfg.address@), law_v6_texts_are_taken(cfg.address@))
}

/// A mask has as many leading ones as the prefix length says.
pub proof fn law_masks_are_made(len: u8, r: Ipv4Addr)
    requires
        call_ensures(prefix_len_to_mask_v4, (len,), r),
    ensures
        len <= 32 ==> r.bits + pow2((32 - len) as nat) == 0x1_0000_0000,
        len > 32 ==> r.bits == u32::MAX,
{
    law_masks_have_leading_ones(len);
}

/// The network of an address starts at the last multiple of its size that is no greater.
pub proof fn law_networks_start_at_their_size(
    ip: Ipv4Addr,
    len: u8,
    r: Ipv4Addr,
    ip6: Ipv6Addr,
    len6: u8,
    r6: Ipv6Addr,
)
    requires
        1 <= len <= 32,
        1 <= len6 <= 128,
        call_ensures(v4_network, (ip, len), r),
        call_ensures(v6_network, (ip6, len6), r6),
    ensures
        r.bits as int % pow2((32 - len) as nat) as int == 0,
        r.bits <= ip.bits < r.bits + pow2((32 - len) as nat),
        r6.bits as int % pow2((128 - len6) as nat) as int == 0,
        r6.bits <= ip6.bits < r6.bits + pow2((128 - len6) as nat),
{
    lemma_rounded_down(ip.bits as int, (32 - len) as nat);
    lemma_rounded_down(ip6.bits as int, (128 - len6) as nat);
}

proof fn lemma_rounded_down(x: int, k: nat)
    requires
        0 <= x,
    ensures
        ({
            let y = x - x % pow2(k) as int;
            0 <= y <= x < y + pow2(k) && y % pow2(k) as int == 0
        }),
{
    let b = pow2(k) as int;
    vstd::arithmetic::power2::lemma_pow2_pos(k);
    vstd::arithmetic::div_mod::lemma_mod_bound(x, b);
    vstd::arithmetic::div_mod::lemma_fundamental_div_mod(x, b);
    vstd::arithmetic::div_mod::lemma_div_pos_is_pos(x, b);
    vstd::arithmetic::mul::lemma_mul_nonnegative(b, x / b);
    vstd::arithmetic::div_mod::lemma_mod_multiples_basic(x / b, b);
    vstd::arithmetic::mul::lemma_mul_is_commutative(b, x / b);
}

} // verus!
