//! Addresses of the network layer and their text.
use vstd::prelude::*;

use crate::octets::{
    be_bytes, be_nat, lemma_be_bytes_len, lemma_pow256_mono, lemma_pow256_widths, octets_of, pow256,
    read_be,
};
use crate::text::{
    char_views, chars_of, decimal, digit_value, digits_value, find_pair, law_numeral_reads_back,
    lemma_numeral_chars, lemma_numeral_len, lemma_pair_position, lemma_position,
    lemma_split_concat, lemma_split_first, lemma_split_one, numeral, pair_position, parse_digits, position, push_numeral, split,
    split_chars,
};

verus! {

/// An IPv4 address.
#[derive(Debug, Clone, Copy, PartialEq, Eq, Hash, Structural)]
pub struct Ipv4Addr {
    /// The address as a number, first octet most significant.
    pub bits: u32,
}

/// An IPv6 address.
#[derive(Debug, Clone, Copy, PartialEq, Eq, Hash, Structural)]
pub struct Ipv6Addr {
    /// The address as a number, first octet most significant.
    pub bits: u128,
}

/// An address of either family.
#[derive(Debug, Clone, Copy, PartialEq, Eq, Hash, Structural)]
pub enum IpAddr {
    V4(Ipv4Addr),
    V6(Ipv6Addr),
}

/// An IPv4 address and a port.
#[derive(Debug, Clone, Copy, PartialEq, Eq, Hash, Structural)]
pub struct SocketAddrV4 {
    pub ip: Ipv4Addr,
    pub port: u16,
}

/// An IPv6 address and a port, with flow information and scope.
#[derive(Debug, Clone, Copy, PartialEq, Eq, Hash, Structural)]
pub struct SocketAddrV6 {
    pub ip: Ipv6Addr,
    pub port: u16,
    pub flowinfo: u32,
    pub scope_id: u32,
}

/// An address of either family and a port.
#[derive(Debug, Clone, Copy, PartialEq, Eq, Hash, Structural)]
pub enum SocketAddr {
    V4(SocketAddrV4),
    V6(SocketAddrV6),
}

/// The text of an IPv4 address: four decimal numerals.
pub open spec fn ipv4_text(bits: u32) -> Seq<char> {
    let o = be_bytes(bits as nat, 4);
    decimal(o[0] as nat) + seq!['.'] + decimal(o[1] as nat) + seq!['.'] + decimal(o[2] as nat)
        + seq!['.'] + decimal(o[3] as nat)
}

/// The value of one part of the text of an IPv4 address: up to three digits, no leading zero.
pub open spec fn octet_value(s: Seq<char>) -> Option<nat> {
    if 1 <= s.len() <= 3 && (s.len() == 1 || s[0] != '0') {
        match digits_value(s, 10) {
            Some(v) => if v <= 255 {
                Some(v)
            } else {
                None
            },
            None => None,
        }
    } else {
        None
    }
}

/// The IPv4 address that `s` denotes.
pub open spec fn ipv4_value(s: Seq<char>) -> Option<nat> {
    let p = split(s, '.');
    if p.len() == 4 {
        match (octet_value(p[0]), octet_value(p[1]), octet_value(p[2]), octet_value(p[3])) {
            (Some(a), Some(b), Some(c), Some(d)) => Some(
                a * 0x100_0000 + b * 0x1_0000 + c * 0x100 + d,
            ),
            _ => None,
        }
    } else {
        None
    }
}

/// The value of a group of the text of an IPv6 address: up to four hexadecimal digits.
pub open spec fn group_value(s: Seq<char>) -> Option<nat> {
    if 1 <= s.len() <= 4 {
        digits_value(s, 16)
    } else {
        None
    }
}

/// The values of parts each of which is a group.
pub open spec fn groups_of(p: Seq<Seq<char>>) -> Option<Seq<nat>>
    decreases p.len(),
{
    if p.len() == 0 {
        Some(Seq::empty())
    } else {
        match (groups_of(p.drop_last()), group_value(p.last())) {
            (Some(g), Some(v)) => Some(g.push(v)),
            _ => None,
        }
    }
}

/// The groups before a `::`.
pub open spec fn head_groups(s: Seq<char>) -> Option<Seq<nat>> {
    if s.len() == 0 {
        Some(Seq::empty())
    } else {
        groups_of(split(s, ':'))
    }
}

/// The groups after a `::`, or of a text without one. The last part may be an IPv4 address, which
/// stands for two groups.
pub open spec fn tail_groups(s: Seq<char>) -> Option<Seq<nat>> {
    if s.len() == 0 {
        Some(Seq::empty())
    } else {
        let p = split(s, ':');
        match groups_of(p.drop_last()) {
            Some(g) => match (group_value(p.last()), ipv4_value(p.last())) {
                (Some(v), _) => Some(g.push(v)),
                (None, Some(v)) => Some(g.push(v / 0x1_0000).push(v % 0x1_0000)),
                (None, None) => None,
            },
            None => None,
        }
    }
}

/// The number made of sixteen-bit groups, first group most significant.
pub open spec fn groups_number(g: Seq<nat>) -> nat
    decreases g.len(),
{
    if g.len() == 0 {
        0
    } else {
        groups_number(g.drop_last()) * 0x1_0000 + g.last()
    }
}

/// As many groups of zero.
pub open spec fn zero_groups(n: nat) -> Seq<nat> {
    Seq::new(n, |i: int| 0nat)
}

/// The IPv6 address that `s` denotes: eight groups, of which a `::` stands for one or more that
/// are zero.
pub open spec fn ipv6_value(s: Seq<char>) -> Option<nat> {
    let p = pair_position(s, ':');
    if p < s.len() {
        match (head_groups(s.take(p as int)), tail_groups(s.skip(p as int + 2))) {
            (Some(h), Some(t)) => if h.len() + t.len() <= 7 {
                Some(groups_number(h + zero_groups((8 - h.len() - t.len()) as nat) + t))
            } else {
                None
            },
            _ => None,
        }
    } else {
        match tail_groups(s) {
            Some(g) => if g.len() == 8 {
                Some(groups_number(g))
            } else {
                None
            },
            None => None,
        }
    }
}

/// The address that `s` denotes.
pub open spec fn ip_value(s: Seq<char>) -> Option<IpAddr> {
    match ipv4_value(s) {
        Some(v) => Some(IpAddr::V4(Ipv4Addr { bits: v as u32 })),
        None => match ipv6_value(s) {
            Some(v) => Some(IpAddr::V6(Ipv6Addr { bits: v as u128 })),
            None => None,
        },
    }
}

/// The `i`th of the eight groups of an IPv6 address.
pub open spec fn group_at(bits: u128, i: int) -> nat {
    let o = be_bytes(bits as nat, 16);
    (o[2 * i] * 256 + o[2 * i + 1]) as nat
}

/// The eight groups of an IPv6 address.
pub open spec fn ipv6_groups(bits: u128) -> Seq<nat> {
    Seq::new(8, |i: int| group_at(bits, i))
}

/// How many groups from the `i`th on are zero without a break.
pub open spec fn zero_run(g: Seq<nat>, i: int) -> nat
    decreases g.len() - i,
{
    if 0 <= i < g.len() && g[i] == 0 {
        1 + zero_run(g, i + 1)
    } else {
        0
    }
}

/// Where, from the `i`th group on, the first of the longest runs of zeros starts.
pub open spec fn longest_run(g: Seq<nat>, i: int) -> int
    decreases g.len() - i,
{
    if i < g.len() {
        let later = longest_run(g, i + 1);
        if zero_run(g, i) >= zero_run(g, later) {
            i
        } else {
            later
        }
    } else {
        i
    }
}

/// Groups in hexadecimal with colons between them.
pub open spec fn groups_text(g: Seq<nat>) -> Seq<char>
    decreases g.len(),
{
    if g.len() == 0 {
        Seq::empty()
    } else if g.len() == 1 {
        numeral(g[0], 16)
    } else {
        groups_text(g.drop_last()) + seq![':'] + numeral(g.last(), 16)
    }
}

/// The text of an IPv6 address. The first of the longest runs of at least two groups of zero is
/// written `::`; an IPv4 address that is mapped into IPv6 keeps its own form.
pub open spec fn ipv6_text(bits: u128) -> Seq<char> {
    if bits / 0x1_0000_0000 == 0xffff {
        seq![':', ':', 'f', 'f', 'f', 'f', ':'] + ipv4_text((bits % 0x1_0000_0000) as u32)
    } else {
        let g = ipv6_groups(bits);
        let start = longest_run(g, 0);
        let run = zero_run(g, start);
        if run > 1 {
            groups_text(g.take(start)) + seq![':', ':'] + groups_text(g.skip(start + run))
        } else {
            groups_text(g)
        }
    }
}

impl Ipv4Addr {
    /// The address with the given octets.
    pub fn new(a: u8, b: u8, c: u8, d: u8) -> (r: Ipv4Addr)
        ensures
            r.bits == a * 0x100_0000 + b * 0x1_0000 + c * 0x100 + d,
    {
        Ipv4Addr {
            bits: a as u32 * 0x100_0000 + b as u32 * 0x1_0000 + c as u32 * 0x100 + d as u32,
        }
    }

    /// The address whose octets stand at `at`.
    pub fn read(s: &[u8], at: usize) -> (r: Ipv4Addr)
        requires
            at + 4 <= s@.len(),
        ensures
            r.bits == be_nat(s@.subrange(at as int, at + 4)),
            be_bytes(r.bits as nat, 4) == s@.subrange(at as int, at + 4),
    {
        let v = read_be(s, at, 4);
        proof {
            crate::octets::lemma_pow256_widths();
            crate::octets::lemma_be_bytes_of_be_nat(s@.subrange(at as int, at + 4));
        }
        Ipv4Addr { bits: v as u32 }
    }

    /// The four octets of the address.
    pub fn octets(self) -> (r: [u8; 4])
        ensures
            r@ == be_bytes(self.bits as nat, 4),
    {
        let v = octets_of(self.bits as u128, 4);
        proof {
            lemma_be_bytes_len(self.bits as nat, 4);
        }
        let r = [v[0], v[1], v[2], v[3]];
        assert(r@ =~= v@);
        r
    }

    /// Whether this is 255.255.255.255.
    pub fn is_broadcast(self) -> (r: bool)
        ensures
            r == (self.bits == 0xffff_ffff),
    {
        self.bits == 0xffff_ffff
    }

    /// Whether this is in 224.0.0.0/4.
    pub fn is_multicast(self) -> (r: bool)
        ensures
            r == (0xe000_0000 <= self.bits <= 0xefff_ffff),
    {
        0xe000_0000 <= self.bits && self.bits <= 0xefff_ffff
    }

    /// Whether this is 0.0.0.0.
    pub fn is_unspecified(self) -> (r: bool)
        ensures
            r == (self.bits == 0),
    {
        self.bits == 0
    }

    /// The address after this one; the last is followed by the first.
    pub open spec fn spec_next(self) -> Ipv4Addr {
        Ipv4Addr { bits: ((self.bits + 1) % 0x1_0000_0000) as u32 }
    }

    /// The address after this one; the last is followed by the first.
    pub fn next(self) -> (r: Ipv4Addr)
        ensures
            r == self.spec_next(),
    {
        if self.bits == 0xffff_ffff {
            Ipv4Addr { bits: 0 }
        } else {
            Ipv4Addr { bits: self.bits + 1 }
        }
    }

    /// The address in text.
    pub fn text(self) -> (r: String)
        ensures
            r@ == ipv4_text(self.bits),
    {
        let o = self.octets();
        let mut out: String = String::new();
        push_numeral(&mut out, o[0] as u64, 10);
        out.push('.');
        push_numeral(&mut out, o[1] as u64, 10);
        out.push('.');
        push_numeral(&mut out, o[2] as u64, 10);
        out.push('.');
        push_numeral(&mut out, o[3] as u64, 10);
        assert(out@ =~= ipv4_text(self.bits));
        out
    }

    /// Reads an address from text.
    pub fn parse(s: &str) -> (r: Option<Ipv4Addr>)
        ensures
            r is Some <==> ipv4_value(s@) is Some,
            r matches Some(a) ==> ipv4_value(s@) == Some(a.bits as nat),
    {
        let chars = chars_of(s);
        parse_ipv4(chars.as_slice())
    }
}

/// Reads one part of the text of an IPv4 address.
fn parse_octet(s: &[char]) -> (r: Option<u32>)
    ensures
        r is Some <==> octet_value(s@) is Some,
        r matches Some(v) ==> octet_value(s@) == Some(v as nat) && v <= 255,
{
    if s.len() == 0 || s.len() > 3 || (s.len() > 1 && s[0] == '0') {
        return None;
    }
    match parse_digits(s, 10, 255) {
        Some(v) => Some(v as u32),
        None => None,
    }
}

/// Reads an IPv4 address.
fn parse_ipv4(s: &[char]) -> (r: Option<Ipv4Addr>)
    ensures
        r is Some <==> ipv4_value(s@) is Some,
        r matches Some(a) ==> ipv4_value(s@) == Some(a.bits as nat),
{
    let p = split_chars(s, '.');
    let ghost parts = split(s@, '.');
    assert(parts.len() == p@.len());
    if p.len() != 4 {
        return None;
    }
    assert(parts[0] == p@[0]@ && parts[1] == p@[1]@ && parts[2] == p@[2]@ && parts[3] == p@[3]@);
    match (
        parse_octet(p[0].as_slice()),
        parse_octet(p[1].as_slice()),
        parse_octet(p[2].as_slice()),
        parse_octet(p[3].as_slice()),
    ) {
        (Some(a), Some(b), Some(c), Some(d)) => Some(
            Ipv4Addr { bits: a * 0x100_0000 + b * 0x1_0000 + c * 0x100 + d },
        ),
        _ => None,
    }
}

/// Groups held as machine integers.
pub open spec fn nats(v: Seq<u64>) -> Seq<nat> {
    v.map_values(|x: u64| x as nat)
}

/// Up to four hexadecimal digits stay within sixteen bits.
proof fn lemma_hex_bound(s: Seq<char>)
    ensures
        digits_value(s, 16) matches Some(v) ==> {
            &&& s.len() == 0 ==> v == 0
            &&& s.len() <= 1 ==> v < 0x10
            &&& s.len() <= 2 ==> v < 0x100
            &&& s.len() <= 3 ==> v < 0x1000
            &&& s.len() <= 4 ==> v < 0x1_0000
        },
    decreases s.len(),
{
    if s.len() > 0 {
        lemma_hex_bound(s.drop_last());
    }
}

/// One bad part spoils all of them.
proof fn lemma_groups_prefix(p: Seq<Seq<char>>, k: int)
    requires
        0 <= k <= p.len(),
        groups_of(p.take(k)) is None,
    ensures
        groups_of(p) is None,
    decreases p.len(),
{
    if k < p.len() {
        assert(p.drop_last().take(k) =~= p.take(k));
        lemma_groups_prefix(p.drop_last(), k);
    } else {
        assert(p.take(k) =~= p);
    }
}

/// Groups of sixteen bits make a number of sixteen bits for each of them.
proof fn lemma_groups_bound(g: Seq<nat>)
    requires
        forall|i: int| 0 <= i < g.len() ==> g[i] < 0x1_0000,
    ensures
        groups_number(g) < pow256(2 * g.len()),
    decreases g.len(),
{
    if g.len() > 0 {
        lemma_groups_bound(g.drop_last());
        let n = g.len();
        assert(pow256(2 * n) == 256 * pow256((2 * n - 1) as nat));
        assert(pow256((2 * n - 1) as nat) == 256 * pow256((2 * n - 2) as nat));
    }
}

/// Reads a group of the text of an IPv6 address.
fn parse_group(s: &[char]) -> (r: Option<u64>)
    ensures
        r is Some <==> group_value(s@) is Some,
        r matches Some(v) ==> group_value(s@) == Some(v as nat) && v < 0x1_0000,
{
    if s.len() == 0 || s.len() > 4 {
        return None;
    }
    proof {
        lemma_hex_bound(s@);
    }
    parse_digits(s, 16, 0xffff)
}

/// Reads the first `n` of several parts as groups.
fn parse_groups(parts: &Vec<Vec<char>>, n: usize) -> (r: Option<Vec<u64>>)
    requires
        n <= parts@.len(),
    ensures
        r is Some <==> groups_of(char_views(parts@).take(n as int)) is Some,
        r matches Some(v) ==> groups_of(char_views(parts@).take(n as int)) == Some(nats(v@)),
        r matches Some(v) ==> v@.len() == n && forall|i: int| 0 <= i < n ==> v@[i] < 0x1_0000,
{
    let ghost p = char_views(parts@).take(n as int);
    let mut out: Vec<u64> = Vec::new();
    let mut i: usize = 0;
    assert(nats(out@) =~= Seq::<nat>::empty());
    while i < n
        invariant
            i <= n <= parts@.len(),
            p == char_views(parts@).take(n as int),
            out@.len() == i,
            forall|k: int| 0 <= k < i ==> out@[k] < 0x1_0000,
            groups_of(p.take(i as int)) == Some(nats(out@)),
        decreases n - i,
    {
        let ghost t = p.take(i + 1);
        assert(t.drop_last() =~= p.take(i as int));
        assert(t.last() == parts@[i as int]@);
        match parse_group(parts[i].as_slice()) {
            Some(v) => {
                let ghost before = out@;
                out.push(v);
                assert(nats(out@) =~= nats(before).push(v as nat));
            },
            None => {
                proof {
                    lemma_groups_prefix(p, i + 1);
                }
                return None;
            },
        }
        i += 1;
    }
    assert(p.take(n as int) =~= p);
    Some(out)
}

/// Reads the groups before a `::`.
fn parse_head(s: &[char]) -> (r: Option<Vec<u64>>)
    ensures
        r is Some <==> head_groups(s@) is Some,
        r matches Some(v) ==> head_groups(s@) == Some(nats(v@)),
        r matches Some(v) ==> forall|i: int| 0 <= i < v@.len() ==> v@[i] < 0x1_0000,
{
    if s.len() == 0 {
        let out: Vec<u64> = Vec::new();
        assert(nats(out@) =~= Seq::<nat>::empty());
        return Some(out);
    }
    let parts = split_chars(s, ':');
    assert(char_views(parts@).take(parts@.len() as int) =~= char_views(parts@));
    parse_groups(&parts, parts.len())
}

/// Reads the groups after a `::`, or of a text without one.
fn parse_tail(s: &[char]) -> (r: Option<Vec<u64>>)
    ensures
        r is Some <==> tail_groups(s@) is Some,
        r matches Some(v) ==> tail_groups(s@) == Some(nats(v@)),
        r matches Some(v) ==> forall|i: int| 0 <= i < v@.len() ==> v@[i] < 0x1_0000,
{
    if s.len() == 0 {
        let out: Vec<u64> = Vec::new();
        assert(nats(out@) =~= Seq::<nat>::empty());
        return Some(out);
    }
    let parts = split_chars(s, ':');
    let n = parts.len();
    let ghost p = split(s@, ':');
    assert(p.len() == n);
    assert(p.take(n - 1) =~= p.drop_last());
    assert(p.last() == parts@[n - 1]@);
    let mut out = match parse_groups(&parts, n - 1) {
        Some(v) => v,
        None => {
            return None;
        },
    };
    let ghost before = out@;
    match parse_group(parts[n - 1].as_slice()) {
        Some(v) => {
            out.push(v);
            assert(nats(out@) =~= nats(before).push(v as nat));
        },
        None => match parse_ipv4(parts[n - 1].as_slice()) {
            Some(a) => {
                out.push((a.bits / 0x1_0000) as u64);
                out.push((a.bits % 0x1_0000) as u64);
                assert(nats(out@) =~= nats(before).push((a.bits / 0x1_0000) as nat).push(
                    (a.bits % 0x1_0000) as nat,
                ));
            },
            None => {
                return None;
            },
        },
    }
    Some(out)
}

/// The address made of eight groups.
fn from_groups(g: &Vec<u64>) -> (r: Ipv6Addr)
    requires
        g@.len() == 8,
        forall|i: int| 0 <= i < 8 ==> g@[i] < 0x1_0000,
    ensures
        r.bits == groups_number(nats(g@)),
{
    let mut acc: u128 = 0;
    let mut i: usize = 0;
    while i < 8
        invariant
            i <= 8,
            g@.len() == 8,
            forall|k: int| 0 <= k < 8 ==> g@[k] < 0x1_0000,
            acc == groups_number(nats(g@).take(i as int)),
        decreases 8 - i,
    {
        let ghost t = nats(g@).take(i + 1);
        proof {
            assert(t.drop_last() =~= nats(g@).take(i as int));
            lemma_groups_bound(t);
            lemma_pow256_mono(2 * (i + 1), 16);
            lemma_pow256_widths();
        }
        acc = acc * 0x1_0000 + g[i] as u128;
        i += 1;
    }
    assert(nats(g@).take(8) =~= nats(g@));
    Ipv6Addr { bits: acc }
}

/// Reads an IPv6 address.
fn parse_ipv6(s: &[char]) -> (r: Option<Ipv6Addr>)
    ensures
        r is Some <==> ipv6_value(s@) is Some,
        r matches Some(a) ==> ipv6_value(s@) == Some(a.bits as nat),
{
    let p = find_pair(s, ':');
    let len = s.len();
    if p < len {
        let left = vstd::slice::slice_subrange(s, 0, p);
        let right = vstd::slice::slice_subrange(s, p + 2, len);
        assert(left@ =~= s@.take(p as int));
        assert(right@ =~= s@.skip(p as int + 2));
        match (parse_head(left), parse_tail(right)) {
            (Some(head), Some(tail)) => {
                if head.len() > 7 || tail.len() > 7 || head.len() + tail.len() > 7 {
                    return None;
                }
                let zeros: usize = 8 - head.len() - tail.len();
                let mut g: Vec<u64> = head;
                let mut i: usize = 0;
                while i < zeros
                    invariant
                        i <= zeros,
                        g@.len() == head@.len() + i,
                        nats(g@) == nats(head@) + zero_groups(i as nat),
                        forall|k: int| 0 <= k < g@.len() ==> g@[k] < 0x1_0000,
                    decreases zeros - i,
                {
                    let ghost before = g@;
                    g.push(0);
                    i += 1;
                    assert(nats(g@) =~= nats(before).push(0));
                    assert(nats(g@) =~= nats(head@) + zero_groups(i as nat));
                }
                let mut j: usize = 0;
                while j < tail.len()
                    invariant
                        j <= tail@.len(),
                        g@.len() == head@.len() + zeros + j,
                        nats(g@) == nats(head@) + zero_groups(zeros as nat) + nats(tail@).take(
                            j as int,
                        ),
                        forall|k: int| 0 <= k < g@.len() ==> g@[k] < 0x1_0000,
                        forall|k: int| 0 <= k < tail@.len() ==> tail@[k] < 0x1_0000,
                    decreases tail@.len() - j,
                {
                    let ghost before = g@;
                    g.push(tail[j]);
                    j += 1;
                    assert(nats(g@) =~= nats(before).push(tail@[j - 1] as nat));
                    assert(nats(g@) =~= nats(head@) + zero_groups(zeros as nat) + nats(tail@).take(
                        j as int,
                    ));
                }
                assert(nats(tail@).take(tail@.len() as int) =~= nats(tail@));
                Some(from_groups(&g))
            },
            _ => None,
        }
    } else {
        match parse_tail(s) {
            Some(g) => if g.len() == 8 {
                Some(from_groups(&g))
            } else {
                None
            },
            None => None,
        }
    }
}

/// The text of an address.
pub open spec fn ip_text(ip: IpAddr) -> Seq<char> {
    match ip {
        IpAddr::V4(a) => ipv4_text(a.bits),
        IpAddr::V6(a) => ipv6_text(a.bits),
    }
}

/// The text of an address with a prefix length.
pub open spec fn prefix_text(ip: IpAddr, prefix_len: u8) -> Seq<char> {
    ip_text(ip) + seq!['/'] + decimal(prefix_len as nat)
}

impl IpAddr {
    /// The address in text.
    pub fn text(self) -> (r: String)
        ensures
            r@ == ip_text(self),
    {
        match self {
            IpAddr::V4(a) => a.text(),
            IpAddr::V6(a) => a.text(),
        }
    }

    /// The address and a prefix length in text.
    pub fn text_with_prefix(self, prefix_len: u8) -> (r: String)
        ensures
            r@ == prefix_text(self, prefix_len),
    {
        let mut out = self.text();
        out.push('/');
        push_numeral(&mut out, prefix_len as u64, 10);
        assert(out@ =~= prefix_text(self, prefix_len));
        out
    }

    /// Whether this is an IPv4 address.
    pub fn is_ipv4(self) -> (r: bool)
        ensures
            r == (self is V4),
    {
        match self {
            IpAddr::V4(_) => true,
            IpAddr::V6(_) => false,
        }
    }

    /// Whether this is an IPv6 address.
    pub fn is_ipv6(self) -> (r: bool)
        ensures
            r == (self is V6),
    {
        match self {
            IpAddr::V4(_) => false,
            IpAddr::V6(_) => true,
        }
    }

    /// Reads an address of either family from text.
    pub fn parse(s: &str) -> (r: Option<IpAddr>)
        ensures
            r == ip_value(s@),
    {
        let chars = chars_of(s);
        parse_ip(chars.as_slice())
    }
}

/// Reads an address of either family.
pub(crate) fn parse_ip(s: &[char]) -> (r: Option<IpAddr>)
    ensures
        r == ip_value(s@),
{
    match parse_ipv4(s) {
        Some(a) => Some(IpAddr::V4(a)),
        None => match parse_ipv6(s) {
            Some(a) => Some(IpAddr::V6(a)),
            None => None,
        },
    }
}

/// The eight groups of an address.
fn groups_vec(a: Ipv6Addr) -> (r: Vec<u64>)
    ensures
        nats(r@) == ipv6_groups(a.bits),
        r@.len() == 8,
{
    let o = octets_of(a.bits, 16);
    proof {
        lemma_be_bytes_len(a.bits as nat, 16);
    }
    let mut out: Vec<u64> = Vec::new();
    let mut i: usize = 0;
    while i < 8
        invariant
            i <= 8,
            o@ == be_bytes(a.bits as nat, 16),
            o@.len() == 16,
            out@.len() == i,
            forall|k: int| 0 <= k < i ==> out@[k] == #[trigger] group_at(a.bits, k),
        decreases 8 - i,
    {
        out.push(o[2 * i] as u64 * 256 + o[2 * i + 1] as u64);
        i += 1;
    }
    assert(nats(out@) =~= ipv6_groups(a.bits));
    out
}

/// How many groups from the `i`th on are zero without a break.
fn count_zeros(g: &Vec<u64>, i: usize) -> (r: usize)
    requires
        i <= g@.len(),
    ensures
        r == zero_run(nats(g@), i as int),
        i + r <= g@.len(),
    decreases g@.len() - i,
{
    if i < g.len() && g[i] == 0 {
        let r = count_zeros(g, i + 1);
        r + 1
    } else {
        0
    }
}

/// Where, from the `i`th group on, the first of the longest runs of zeros starts.
fn find_longest(g: &Vec<u64>, i: usize) -> (r: usize)
    requires
        i <= g@.len(),
    ensures
        r == longest_run(nats(g@), i as int),
        i <= r <= g@.len(),
    decreases g@.len() - i,
{
    if i < g.len() {
        let later = find_longest(g, i + 1);
        if count_zeros(g, i) >= count_zeros(g, later) {
            i
        } else {
            later
        }
    } else {
        i
    }
}

/// Appends groups `from..to` in hexadecimal with colons between them.
fn push_groups(out: &mut String, g: &Vec<u64>, from: usize, to: usize)
    requires
        from <= to <= g@.len(),
    ensures
        final(out)@ == old(out)@ + groups_text(nats(g@).subrange(from as int, to as int)),
{
    let ghost all = nats(g@);
    let mut i: usize = from;
    assert(out@ =~= old(out)@ + groups_text(all.subrange(from as int, from as int)));
    while i < to
        invariant
            from <= i <= to <= g@.len(),
            all == nats(g@),
            out@ == old(out)@ + groups_text(all.subrange(from as int, i as int)),
        decreases to - i,
    {
        let ghost t = all.subrange(from as int, i + 1);
        assert(t.drop_last() =~= all.subrange(from as int, i as int));
        if i > from {
            out.push(':');
        }
        push_numeral(out, g[i], 16);
        i += 1;
        assert(out@ =~= old(out)@ + groups_text(t));
    }
}

impl Ipv6Addr {
    /// The address whose octets stand at `at`.
    pub fn read(s: &[u8], at: usize) -> (r: Ipv6Addr)
        requires
            at + 16 <= s@.len(),
        ensures
            r.bits == be_nat(s@.subrange(at as int, at + 16)),
            be_bytes(r.bits as nat, 16) == s@.subrange(at as int, at + 16),
    {
        let v = read_be(s, at, 16);
        proof {
            crate::octets::lemma_be_bytes_of_be_nat(s@.subrange(at as int, at + 16));
        }
        Ipv6Addr { bits: v }
    }

    /// The sixteen octets of the address.
    pub fn octets(self) -> (r: [u8; 16])
        ensures
            r@ == be_bytes(self.bits as nat, 16),
    {
        let v = octets_of(self.bits, 16);
        proof {
            lemma_be_bytes_len(self.bits as nat, 16);
        }
        let mut r = [0u8; 16];
        let mut i: usize = 0;
        while i < 16
            invariant
                i <= 16,
                v@.len() == 16,
                forall|k: int| 0 <= k < i ==> r@[k] == v@[k],
            decreases 16 - i,
        {
            r[i] = v[i];
            i += 1;
        }
        assert(r@ =~= v@);
        r
    }

    /// Whether this is in ff00::/8.
    pub fn is_multicast(self) -> (r: bool)
        ensures
            r == (self.bits / 0x100_0000_0000_0000_0000_0000_0000_0000 == 0xff),
    {
        self.bits / 0x100_0000_0000_0000_0000_0000_0000_0000 == 0xff
    }

    /// Whether this is `::`.
    pub fn is_unspecified(self) -> (r: bool)
        ensures
            r == (self.bits == 0),
    {
        self.bits == 0
    }

    /// The address after this one; the last is followed by the first.
    pub open spec fn spec_next(self) -> Ipv6Addr {
        if self.bits == u128::MAX {
            Ipv6Addr { bits: 0 }
        } else {
            Ipv6Addr { bits: (self.bits + 1) as u128 }
        }
    }

    /// The address after this one; the last is followed by the first.
    pub fn next(self) -> (r: Ipv6Addr)
        ensures
            r == self.spec_next(),
    {
        if self.bits == u128::MAX {
            Ipv6Addr { bits: 0 }
        } else {
            Ipv6Addr { bits: self.bits + 1 }
        }
    }

    /// The address in text.
    pub fn text(self) -> (r: String)
        ensures
            r@ == ipv6_text(self.bits),
    {
        let mut out: String = String::new();
        if self.bits / 0x1_0000_0000 == 0xffff {
            out.push(':');
            out.push(':');
            out.push('f');
            out.push('f');
            out.push('f');
            out.push('f');
            out.push(':');
            let v4 = Ipv4Addr { bits: (self.bits % 0x1_0000_0000) as u32 };
            out.append(v4.text().as_str());
            assert(out@ =~= ipv6_text(self.bits));
            return out;
        }
        let g = groups_vec(self);
        let start = find_longest(&g, 0);
        let run = count_zeros(&g, start);
        let ghost all = nats(g@);
        if run > 1 {
            push_groups(&mut out, &g, 0, start);
            out.push(':');
            out.push(':');
            push_groups(&mut out, &g, start + run, 8);
            assert(all.subrange(0, start as int) =~= all.take(start as int));
            assert(all.subrange(start + run, 8) =~= all.skip(start + run));
        } else {
            push_groups(&mut out, &g, 0, 8);
            assert(all.subrange(0, 8) =~= all);
        }
        assert(out@ =~= ipv6_text(self.bits));
        out
    }

    /// Reads an address from text.
    pub fn parse(s: &str) -> (r: Option<Ipv6Addr>)
        ensures
            r is Some <==> ipv6_value(s@) is Some,
            r matches Some(a) ==> ipv6_value(s@) == Some(a.bits as nat),
    {
        let chars = chars_of(s);
        parse_ipv6(chars.as_slice())
    }
}

impl SocketAddr {
    /// The port.
    pub open spec fn spec_port(self) -> u16 {
        match self {
            SocketAddr::V4(a) => a.port,
            SocketAddr::V6(a) => a.port,
        }
    }

    /// An address and a port; flow information and scope are zero.
    pub open spec fn of(ip: IpAddr, port: u16) -> SocketAddr {
        match ip {
            IpAddr::V4(a) => SocketAddr::V4(SocketAddrV4 { ip: a, port }),
            IpAddr::V6(a) => SocketAddr::V6(SocketAddrV6 { ip: a, port, flowinfo: 0, scope_id: 0 }),
        }
    }

    /// An address and a port; flow information and scope are zero.
    pub fn new(ip: IpAddr, port: u16) -> (r: SocketAddr)
        ensures
            r == SocketAddr::of(ip, port),
    {
        match ip {
            IpAddr::V4(a) => SocketAddr::V4(SocketAddrV4 { ip: a, port }),
            IpAddr::V6(a) => SocketAddr::V6(SocketAddrV6 { ip: a, port, flowinfo: 0, scope_id: 0 }),
        }
    }

    /// The port.
    pub fn port(self) -> (r: u16)
        ensures
            r == self.spec_port(),
    {
        match self {
            SocketAddr::V4(a) => a.port,
            SocketAddr::V6(a) => a.port,
        }
    }
}

/// One part of the text of an IPv4 address reads back.
proof fn lemma_octet_reads_back(n: nat)
    requires
        n <= 255,
    ensures
        octet_value(decimal(n)) == Some(n),
        forall|i: int| 0 <= i < decimal(n).len() ==> #[trigger] decimal(n)[i] != '.',
{
    law_numeral_reads_back(n, 10);
    lemma_numeral_len(n);
    if n == 0 {
        assert(decimal(n).len() == 1);
    }
}

/// The text of an IPv4 address denotes the address.
pub proof fn law_ipv4_text_reads_back(bits: u32)
    ensures
        ipv4_value(ipv4_text(bits)) == Some(bits as nat),
{
    let o = be_bytes(bits as nat, 4);
    lemma_be_bytes_len(bits as nat, 4);
    reveal_with_fuel(be_bytes, 5);
    let a = decimal(o[0] as nat);
    let b = decimal(o[1] as nat);
    let c = decimal(o[2] as nat);
    let d = decimal(o[3] as nat);
    lemma_octet_reads_back(o[0] as nat);
    lemma_octet_reads_back(o[1] as nat);
    lemma_octet_reads_back(o[2] as nat);
    lemma_octet_reads_back(o[3] as nat);
    let cd = c + seq!['.'] + d;
    let bcd = b + seq!['.'] + cd;
    lemma_split_one(d, '.');
    lemma_split_first(c, '.', d);
    lemma_split_first(b, '.', cd);
    lemma_split_first(a, '.', bcd);
    assert(ipv4_text(bits) =~= a + seq!['.'] + bcd);
    let p = split(ipv4_text(bits), '.');
    assert(p =~= seq![a, b, c, d]);
    assert(bits as nat == o[0] as nat * 0x100_0000 + o[1] as nat * 0x1_0000 + o[2] as nat * 0x100
        + o[3] as nat) by {
        let v = bits as nat;
        assert(o[3] == (v % 256) as u8);
        assert(o[2] == ((v / 256) % 256) as u8);
        assert(o[1] == (((v / 256) / 256) % 256) as u8);
        assert(o[0] == ((((v / 256) / 256) / 256) % 256) as u8);
    }
}

/// The numerals of groups.
spec fn group_numerals(g: Seq<nat>) -> Seq<Seq<char>> {
    Seq::new(g.len(), |i: int| numeral(g[i], 16))
}

/// Whether all groups have sixteen bits.
spec fn sixteen_bits(g: Seq<nat>) -> bool {
    forall|i: int| 0 <= i < g.len() ==> #[trigger] g[i] < 0x1_0000
}

/// Groups read back from their numerals.
proof fn lemma_numerals_read_back(g: Seq<nat>)
    requires
        sixteen_bits(g),
    ensures
        groups_of(group_numerals(g)) == Some(g),
    decreases g.len(),
{
    let p = group_numerals(g);
    if g.len() > 0 {
        lemma_numerals_read_back(g.drop_last());
        assert(p.drop_last() =~= group_numerals(g.drop_last()));
        assert(g[g.len() - 1] < 0x1_0000);
        law_numeral_reads_back(g.last(), 16);
        lemma_numeral_len(g.last());
        assert(g.drop_last().push(g.last()) =~= g);
    } else {
        assert(g =~= Seq::<nat>::empty());
    }
}

/// Groups in text: their numerals stand between the colons, and no colon stands next to another
/// or at an end.
proof fn lemma_groups_text(g: Seq<nat>)
    requires
        g.len() > 0,
    ensures
        split(groups_text(g), ':') == group_numerals(g),
        groups_text(g).len() > 0,
        groups_text(g)[0] != ':',
        groups_text(g).last() != ':',
        forall|i: int|
            0 <= i && i + 1 < groups_text(g).len() ==> !(#[trigger] groups_text(g)[i] == ':'
                && groups_text(g)[i + 1] == ':'),
    decreases g.len(),
{
    let s = groups_text(g);
    let n = numeral(g.last(), 16);
    law_numeral_reads_back(g.last(), 16);
    assert forall|i: int| 0 <= i < n.len() implies n[i] != ':' by {
        assert(digit_value(n[i], 16) is Some);
    }
    lemma_split_one(n, ':');
    if g.len() == 1 {
        assert(group_numerals(g) =~= seq![n]);
    } else {
        let a = groups_text(g.drop_last());
        lemma_groups_text(g.drop_last());
        lemma_split_concat(a, ':', n);
        assert(s == a + seq![':'] + n);
        assert(group_numerals(g) =~= group_numerals(g.drop_last()) + seq![n]);
        assert forall|i: int| 0 <= i && i + 1 < s.len() implies !(#[trigger] s[i] == ':' && s[i + 1]
            == ':') by {
            if i + 1 < a.len() {
                assert(s[i] == a[i] && s[i + 1] == a[i + 1]);
            } else if i + 1 == a.len() {
                assert(s[i] == a.last());
            } else if i == a.len() {
                assert(s[i + 1] == n[0]);
            } else {
                assert(s[i] == n[i - a.len() - 1]);
            }
        }
    }
}

/// What comes before a `::`, or after it, reads back.
proof fn lemma_side_reads_back(g: Seq<nat>)
    requires
        sixteen_bits(g),
    ensures
        head_groups(groups_text(g)) == Some(g),
        tail_groups(groups_text(g)) == Some(g),
{
    if g.len() == 0 {
        assert(g =~= Seq::<nat>::empty());
    } else {
        lemma_groups_text(g);
        lemma_numerals_read_back(g);
        let p = group_numerals(g);
        let t = g.drop_last();
        assert(sixteen_bits(t)) by {
            assert forall|i: int| 0 <= i < t.len() implies #[trigger] t[i] < 0x1_0000 by {
                assert(t[i] == g[i]);
            }
        }
        lemma_numerals_read_back(t);
        assert(p.drop_last() =~= group_numerals(t));
        assert(g[g.len() - 1] < 0x1_0000);
        law_numeral_reads_back(g.last(), 16);
        lemma_numeral_len(g.last());
        assert(p.last() == numeral(g.last(), 16));
        assert(t.push(g.last()) =~= g);
    }
}

/// A run of zeros.
proof fn lemma_zero_run(g: Seq<nat>, i: int)
    requires
        0 <= i <= g.len(),
    ensures
        i + zero_run(g, i) <= g.len(),
        forall|j: int| i <= j < i + zero_run(g, i) ==> g[j] == 0,
    decreases g.len() - i,
{
    if i < g.len() && g[i] == 0 {
        lemma_zero_run(g, i + 1);
    }
}

/// Where the longest run of zeros starts.
proof fn lemma_longest_run(g: Seq<nat>, i: int)
    requires
        0 <= i <= g.len(),
    ensures
        i <= longest_run(g, i) <= g.len(),
    decreases g.len() - i,
{
    if i < g.len() {
        lemma_longest_run(g, i + 1);
    }
}

/// The first groups of an address are the number of its first octets.
proof fn lemma_groups_are_octets(bits: u128, k: int)
    requires
        0 <= k <= 8,
    ensures
        groups_number(ipv6_groups(bits).take(k)) == be_nat(be_bytes(bits as nat, 16).take(2 * k)),
    decreases k,
{
    let o = be_bytes(bits as nat, 16);
    let g = ipv6_groups(bits);
    lemma_be_bytes_len(bits as nat, 16);
    if k > 0 {
        lemma_groups_are_octets(bits, k - 1);
        let t = g.take(k);
        assert(t.drop_last() =~= g.take(k - 1));
        assert(t.last() == group_at(bits, k - 1));
        let s = o.take(2 * k);
        assert(s.drop_last() =~= o.take(2 * k - 1));
        assert(s.drop_last().drop_last() =~= o.take(2 * k - 2));
        assert(be_nat(s) == be_nat(s.drop_last()) * 256 + o[2 * k - 1]);
        assert(be_nat(s.drop_last()) == be_nat(o.take(2 * k - 2)) * 256 + o[2 * k - 2]);
    }
}

/// The groups of an address make up the address.
proof fn lemma_groups_make_address(bits: u128)
    ensures
        groups_number(ipv6_groups(bits)) == bits,
        sixteen_bits(ipv6_groups(bits)),
{
    lemma_groups_are_octets(bits, 8);
    lemma_be_bytes_len(bits as nat, 16);
    lemma_pow256_widths();
    crate::octets::lemma_be_nat_of_be_bytes(bits as nat, 16);
    let o = be_bytes(bits as nat, 16);
    assert(ipv6_groups(bits).take(8) =~= ipv6_groups(bits));
    assert(o.take(16) =~= o);
}

/// Groups of zero are zero.
proof fn lemma_zero_groups(n: nat)
    ensures
        groups_number(zero_groups(n)) == 0,
    decreases n,
{
    if n > 0 {
        assert(zero_groups(n).drop_last() =~= zero_groups((n - 1) as nat));
        lemma_zero_groups((n - 1) as nat);
    }
}

/// The group that tells a mapped IPv4 address.
proof fn lemma_mapped_mark()
    ensures
        groups_of(seq![seq!['f', 'f', 'f', 'f']]) == Some(seq![0xffffnat]),
{
    let f = seq!['f', 'f', 'f', 'f'];
    let p = seq![f];
    assert(digits_value(f, 16) == Some(0xffffnat)) by {
        assert(f.drop_last() =~= seq!['f', 'f', 'f']);
        assert(f.drop_last().drop_last() =~= seq!['f', 'f']);
        assert(f.drop_last().drop_last().drop_last() =~= seq!['f']);
        assert(f.drop_last().drop_last().drop_last().drop_last() =~= Seq::<char>::empty());
        reveal_with_fuel(digits_value, 5);
    }
    assert(p.drop_last() =~= Seq::<Seq<char>>::empty());
    assert(groups_of(p.drop_last()) == Some(Seq::<nat>::empty()));
    assert(Seq::<nat>::empty().push(0xffff) =~= seq![0xffffnat]);
}

/// The groups after the `::` of the text of a mapped IPv4 address.
proof fn lemma_mapped_tail(low: u32)
    ensures
        tail_groups(seq!['f', 'f', 'f', 'f'] + seq![':'] + ipv4_text(low)) == Some(
            seq![0xffffnat, low as nat / 0x1_0000, low as nat % 0x1_0000],
        ),
{
    let f = seq!['f', 'f', 'f', 'f'];
    let v = ipv4_text(low);
    let t = f + seq![':'] + v;
    let p = split(t, ':');
    lemma_ipv4_text_chars(low, ':');
    law_ipv4_text_reads_back(low);
    lemma_split_first(f, ':', v);
    lemma_split_one(v, ':');
    lemma_mapped_mark();
    assert(p =~= seq![f, v]);
    assert(p.drop_last() =~= seq![f]);
    assert(seq![0xffffnat].push(low as nat / 0x1_0000).push(low as nat % 0x1_0000) =~= seq![
        0xffffnat,
        low as nat / 0x1_0000,
        low as nat % 0x1_0000,
    ]);
}

/// The number made of the groups of a mapped IPv4 address.
proof fn lemma_mapped_number(low: u32)
    ensures
        groups_number(
            Seq::<nat>::empty() + zero_groups(5) + seq![
                0xffffnat,
                low as nat / 0x1_0000,
                low as nat % 0x1_0000,
            ],
        ) == 0xffff_0000_0000 + low,
{
    let g = Seq::<nat>::empty() + zero_groups(5) + seq![
        0xffffnat,
        low as nat / 0x1_0000,
        low as nat % 0x1_0000,
    ];
    lemma_zero_groups(5);
    assert(g.drop_last().drop_last().drop_last() =~= zero_groups(5));
    assert(groups_number(g.drop_last().drop_last()) == 0xffff);
    assert(groups_number(g.drop_last()) == 0xffff_0000 + low as nat / 0x1_0000);
}

/// The text of a mapped IPv4 address denotes the address.
proof fn lemma_mapped_reads_back(bits: u128)
    requires
        bits / 0x1_0000_0000 == 0xffff,
    ensures
        ipv6_value(ipv6_text(bits)) == Some(bits as nat),
{
    let low = (bits % 0x1_0000_0000) as u32;
    let s = ipv6_text(bits);
    let t = seq!['f', 'f', 'f', 'f'] + seq![':'] + ipv4_text(low);
    assert(s =~= seq![':', ':'] + t);
    lemma_pair_position(s, ':', 0);
    assert(s.take(0) =~= Seq::<char>::empty());
    assert(s.skip(2) =~= t);
    lemma_mapped_tail(low);
    lemma_mapped_number(low);
}

/// The text of an IPv4 address has at least seven characters, and only digits and full stops.
proof fn lemma_ipv4_text_chars(bits: u32, c: char)
    requires
        digit_value(c, 10) is None,
        c != '.',
    ensures
        ipv4_text(bits).len() >= 7,
        forall|i: int| 0 <= i < ipv4_text(bits).len() ==> #[trigger] ipv4_text(bits)[i] != c,
{
    let o = be_bytes(bits as nat, 4);
    lemma_numeral_chars(o[0] as nat, 10, c);
    lemma_numeral_chars(o[1] as nat, 10, c);
    lemma_numeral_chars(o[2] as nat, 10, c);
    lemma_numeral_chars(o[3] as nat, 10, c);
}

/// Two sides with `::` between them part at that `::`.
proof fn lemma_sides_part(h: Seq<nat>, t: Seq<nat>)
    ensures
        ({
            let a = groups_text(h);
            let s = a + seq![':', ':'] + groups_text(t);
            &&& pair_position(s, ':') == a.len()
            &&& a.len() < s.len()
            &&& s.take(a.len() as int) == a
            &&& s.skip(a.len() as int + 2) == groups_text(t)
        }),
{
    let a = groups_text(h);
    let b = groups_text(t);
    let s = a + seq![':', ':'] + b;
    if h.len() > 0 {
        lemma_groups_text(h);
    }
    assert forall|i: int| 0 <= i < a.len() && i + 1 < s.len() implies !(#[trigger] s[i] == ':'
        && s[i + 1] == ':') by {
        if i + 1 < a.len() {
            assert(s[i] == a[i] && s[i + 1] == a[i + 1]);
        } else {
            assert(s[i] == a.last());
        }
    }
    lemma_pair_position(s, ':', a.len() as int);
    assert(s.take(a.len() as int) =~= a);
    assert(s.skip(a.len() as int + 2) =~= b);
}

/// Eight groups with a run of zeros cut out read back.
proof fn lemma_cut_reads_back(g: Seq<nat>, start: int, run: int)
    requires
        g.len() == 8,
        sixteen_bits(g),
        0 <= start,
        1 < run,
        start + run <= 8,
        forall|j: int| start <= j < start + run ==> g[j] == 0,
    ensures
        ipv6_value(groups_text(g.take(start)) + seq![':', ':'] + groups_text(g.skip(start + run)))
            == Some(groups_number(g)),
{
    let h = g.take(start);
    let t = g.skip(start + run);
    assert(sixteen_bits(h)) by {
        assert forall|i: int| 0 <= i < h.len() implies #[trigger] h[i] < 0x1_0000 by {
            assert(h[i] == g[i]);
        }
    }
    assert(sixteen_bits(t)) by {
        assert forall|i: int| 0 <= i < t.len() implies #[trigger] t[i] < 0x1_0000 by {
            assert(t[i] == g[start + run + i]);
        }
    }
    lemma_side_reads_back(h);
    lemma_side_reads_back(t);
    lemma_sides_part(h, t);
    assert(h + zero_groups(run as nat) + t =~= g);
}

/// Eight groups in full read back.
proof fn lemma_full_reads_back(g: Seq<nat>)
    requires
        g.len() == 8,
        sixteen_bits(g),
    ensures
        ipv6_value(groups_text(g)) == Some(groups_number(g)),
{
    let s = groups_text(g);
    lemma_groups_text(g);
    lemma_side_reads_back(g);
    lemma_pair_position(s, ':', s.len() as int);
}

/// The text of an IPv6 address denotes the address.
pub proof fn law_ipv6_text_reads_back(bits: u128)
    ensures
        ipv6_value(ipv6_text(bits)) == Some(bits as nat),
{
    if bits / 0x1_0000_0000 == 0xffff {
        lemma_mapped_reads_back(bits);
    } else {
        let g = ipv6_groups(bits);
        let start = longest_run(g, 0);
        lemma_groups_make_address(bits);
        lemma_longest_run(g, 0);
        lemma_zero_run(g, start);
        let run = zero_run(g, start) as int;
        if run > 1 {
            lemma_cut_reads_back(g, start, run);
        } else {
            lemma_full_reads_back(g);
        }
    }
}

/// A text with a colon in front of any full stop denotes no IPv4 address.
proof fn lemma_colon_is_not_v4(s: Seq<char>, k: int)
    requires
        0 <= k < s.len(),
        s[k] == ':',
        forall|i: int| 0 <= i < k ==> s[i] != '.',
    ensures
        ipv4_value(s) is None,
{
    lemma_position(s, '.');
    let p = position(s, '.') as int;
    let first = split(s, '.')[0];
    assert(p > k) by {
        if p <= k {
            if p < k {
                assert(s[p] != '.');
            }
        }
    }
    assert(first =~= s.take(p));
    assert(first[k] == ':');
    lemma_bad_digit(first, k, 10);
}

/// A text with something else than a digit denotes no number.
proof fn lemma_bad_digit(s: Seq<char>, k: int, base: nat)
    requires
        0 <= k < s.len(),
        digit_value(s[k], base) is None,
    ensures
        digits_value(s, base) is None,
    decreases s.len(),
{
    if k < s.len() - 1 {
        assert(s.drop_last()[k] == s[k]);
        lemma_bad_digit(s.drop_last(), k, base);
    }
}

/// The text of an IPv6 address denotes no IPv4 address.
proof fn lemma_v6_text_is_not_v4(bits: u128)
    ensures
        ipv4_value(ipv6_text(bits)) is None,
{
    let s = ipv6_text(bits);
    if bits / 0x1_0000_0000 == 0xffff {
        lemma_colon_is_not_v4(s, 0);
    } else {
        let g = ipv6_groups(bits);
        let start = longest_run(g, 0);
        lemma_longest_run(g, 0);
        lemma_zero_run(g, start);
        let run = zero_run(g, start) as int;
        if run > 1 {
            let a = groups_text(g.take(start));
            lemma_groups_chars(g.take(start), '.');
            lemma_colon_is_not_v4(s, a.len() as int);
        } else {
            let n = numeral(g.last(), 16);
            let a = groups_text(g.drop_last());
            lemma_groups_chars(g.drop_last(), '.');
            assert(s == a + seq![':'] + n);
            lemma_colon_is_not_v4(s, a.len() as int);
        }
    }
}

/// Groups in text have only digits and colons.
proof fn lemma_groups_chars(g: Seq<nat>, c: char)
    requires
        digit_value(c, 16) is None,
        c != ':',
    ensures
        forall|i: int| 0 <= i < groups_text(g).len() ==> #[trigger] groups_text(g)[i] != c,
    decreases g.len(),
{
    let s = groups_text(g);
    if g.len() > 0 {
        let n = numeral(g.last(), 16);
        lemma_numeral_chars(g.last(), 16, c);
        if g.len() > 1 {
            let a = groups_text(g.drop_last());
            lemma_groups_chars(g.drop_last(), c);
            assert forall|i: int| 0 <= i < s.len() implies #[trigger] s[i] != c by {
                if i < a.len() {
                    assert(s[i] == a[i]);
                } else if i > a.len() {
                    assert(s[i] == n[i - a.len() - 1]);
                }
            }
        }
    }
}

/// The text of an address has only digits, full stops and colons.
pub proof fn lemma_ip_text_chars(ip: IpAddr, c: char)
    requires
        digit_value(c, 16) is None,
        c != '.',
        c != ':',
    ensures
        forall|i: int| 0 <= i < ip_text(ip).len() ==> #[trigger] ip_text(ip)[i] != c,
{
    match ip {
        IpAddr::V4(a) => {
            lemma_ipv4_text_chars(a.bits, c);
        },
        IpAddr::V6(a) => {
            let g = ipv6_groups(a.bits);
            let start = longest_run(g, 0);
            lemma_ipv4_text_chars((a.bits % 0x1_0000_0000) as u32, c);
            lemma_groups_chars(g, c);
            lemma_groups_chars(g.take(start), c);
            lemma_groups_chars(g.skip(start + zero_run(g, start)), c);
        },
    }
}

/// The text of an address denotes the address, of its own family.
pub proof fn law_ip_text_reads_back(ip: IpAddr)
    ensures
        ip_value(ip_text(ip)) == Some(ip),
{
    match ip {
        IpAddr::V4(a) => {
            law_ipv4_text_reads_back(a.bits);
        },
        IpAddr::V6(a) => {
            law_ipv6_text_reads_back(a.bits);
            lemma_v6_text_is_not_v4(a.bits);
        },
    }
}

} // verus!
