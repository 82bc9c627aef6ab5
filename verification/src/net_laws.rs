//! What numerals and addresses look like in text, and which texts denote them.
use vstd::prelude::*;

use crate::net::{
    group_value, groups_number, groups_of, groups_text, head_groups, ip_text, ip_value, ipv4_text,
    ipv4_value, ipv6_groups, ipv6_text, ipv6_value, law_ip_text_reads_back,
    law_ipv4_text_reads_back, longest_run, octet_value, tail_groups, zero_run, IpAddr, Ipv4Addr,
    Ipv6Addr, SocketAddr,
};
use crate::octets::{be_bytes, lemma_be_bytes_len};
use crate::text::{
    decimal, decimal_text, digit_char, digit_value, digits_value, find_char, is_white_space,
    lemma_pair_position, lemma_position, lemma_split_concat, lemma_split_one, numeral,
    parse_unsigned, position, push_signed, signed_decimal, split, str_eq, unsigned_value,
    white_space,
};

verus! {

/// What a character counts as a digit; sixteen where it is none.
pub open spec fn face(c: char) -> int {
    if '0' <= c <= '9' {
        c as int - 0x30
    } else if 'A' <= c <= 'F' {
        c as int - 0x41 + 10
    } else if 'a' <= c <= 'f' {
        c as int - 0x61 + 10
    } else {
        16
    }
}

/// Whether a text has only digits of a base.
pub open spec fn all_digits(s: Seq<char>, base: int) -> bool {
    forall|i: int| 0 <= i < s.len() ==> face(#[trigger] s[i]) < base
}

/// The number that digits make up, each worth as much as its place.
pub open spec fn worth(s: Seq<char>, base: int) -> int
    decreases s.len(),
{
    if s.len() == 0 {
        0
    } else {
        worth(s.drop_last(), base) * base + face(s.last())
    }
}

/// A text of digits denotes the number that they make up; a text with anything else denotes none.
pub proof fn law_digits_count_by_place(s: Seq<char>, base: nat)
    requires
        2 <= base <= 16,
    ensures
        all_digits(s, base as int) ==> worth(s, base as int) >= 0 && digits_value(s, base) == Some(
            worth(s, base as int) as nat,
        ),
        !all_digits(s, base as int) ==> digits_value(s, base) is None,
    decreases s.len(),
{
    if s.len() > 0 {
        let t = s.drop_last();
        law_digits_count_by_place(t, base);
        assert(digit_value(s.last(), base) is Some <==> face(s.last()) < base);
        if all_digits(s, base as int) {
            assert(all_digits(t, base as int)) by {
                assert forall|i: int| 0 <= i < t.len() implies face(#[trigger] t[i]) < base by {
                    assert(t[i] == s[i]);
                }
            }
            assert(s.last() == s[s.len() - 1]);
            let w = worth(t, base as int);
            assert(w * base >= 0) by (nonlinear_arith)
                requires
                    w >= 0,
                    base >= 2,
            ;
        } else if all_digits(t, base as int) {
            assert(face(s.last()) >= base) by {
                let i = choose|i: int| 0 <= i < s.len() && face(#[trigger] s[i]) >= base;
                if i < t.len() {
                    assert(t[i] == s[i]);
                }
            }
        }
    }
}

/// A text denotes an unsigned number exactly if, but for one plus sign before it, it has digits
/// and nothing else, and the number is no greater than it may be.
pub proof fn law_unsigned_numbers(s: Seq<char>, max: nat)
    ensures
        ({
            let body = if s.len() > 0 && s[0] == '+' {
                s.skip(1)
            } else {
                s
            };
            let good = body.len() > 0 && all_digits(body, 10) && worth(body, 10) <= max;
            &&& good ==> unsigned_value(s, max) == Some(worth(body, 10) as nat)
            &&& !good ==> unsigned_value(s, max) is None
        }),
{
    let body = if s.len() > 0 && s[0] == '+' {
        s.skip(1)
    } else {
        s
    };
    law_digits_count_by_place(body, 10);
}

/// A numeral is written digit by digit, with letters in lower case and without leading zeros.
pub proof fn law_numerals_go_by_place(n: nat, base: nat)
    requires
        2 <= base <= 16,
    ensures
        n < base ==> numeral(n, base) == seq![digit_char(n)],
        n >= base ==> numeral(n, base) == numeral(n / base, base).push(digit_char(n % base)),
        n < 10 ==> digit_char(n) as u32 == 0x30 + n,
        10 <= n < 16 ==> digit_char(n) as u32 == 0x61 + n - 10,
        decimal(n) == numeral(n, 10),
{
}

/// An integer is written with a minus sign before its numeral where it is negative.
pub proof fn law_negative_numbers_have_a_sign(n: nat)
    ensures
        signed_decimal(n as int) == decimal(n),
        n > 0 ==> signed_decimal(-n) == seq!['-'] + decimal(n),
{
}

/// The characters that count as white space.
pub proof fn law_white_space(c: char)
    ensures
        white_space(c) <==> {
            let u = c as u32;
            ||| 9 <= u <= 13
            ||| u == 32 || u == 133 || u == 160 || u == 5760
            ||| 8192 <= u <= 8202
            ||| u == 8232 || u == 8233 || u == 8239 || u == 8287 || u == 12288
        },
{
}

/// Digits without a leading zero are the numeral of what they denote.
proof fn lemma_canonical(s: Seq<char>)
    requires
        s.len() >= 1,
        digits_value(s, 10) is Some,
        s.len() == 1 || s[0] != '0',
    ensures
        s == decimal(digits_value(s, 10)->0),
        s[0] != '0' ==> digits_value(s, 10)->0 > 0,
    decreases s.len(),
{
    let t = s.drop_last();
    let d = digit_value(s.last(), 10)->0;
    let v = digits_value(s, 10)->0;
    assert(s.last() == digit_char(d));
    if s.len() == 1 {
        assert(digits_value(t, 10) == Some(0nat));
        assert(s =~= seq![digit_char(v)]);
    } else {
        let q = digits_value(t, 10)->0;
        assert(t[0] == s[0]);
        lemma_canonical(t);
        assert(v == q * 10 + d);
        assert(v / 10 == q && v % 10 == d);
        assert(s =~= t.push(s.last()));
    }
}

/// The first part of a text, and what follows the separator after it.
proof fn lemma_first_part(s: Seq<char>, c: char) -> (rest: Seq<char>)
    requires
        split(s, c).len() > 1,
    ensures
        s == split(s, c)[0] + seq![c] + rest,
        split(rest, c) == split(s, c).skip(1),
{
    lemma_position(s, c);
    let p = position(s, c) as int;
    let rest = s.skip(p + 1);
    assert(s =~= s.take(p) + seq![c] + rest);
    assert((seq![s.take(p)] + split(rest, c)).skip(1) =~= split(rest, c));
    rest
}

/// An octet in text is the numeral of what it denotes.
proof fn lemma_octet(s: Seq<char>)
    requires
        octet_value(s) is Some,
    ensures
        s == decimal(octet_value(s)->0),
        octet_value(s)->0 <= 255,
{
    lemma_canonical(s);
}

/// A text of four parts is made up of them.
proof fn lemma_four_parts(s: Seq<char>, c: char)
    requires
        split(s, c).len() == 4,
    ensures
        ({
            let p = split(s, c);
            s == p[0] + seq![c] + p[1] + seq![c] + p[2] + seq![c] + p[3]
        }),
{
    let p = split(s, c);
    let r1 = lemma_first_part(s, c);
    let r2 = lemma_first_part(r1, c);
    let r3 = lemma_first_part(r2, c);
    assert(split(r1, c)[0] == p[1]);
    assert(split(r2, c)[0] == p[2]);
    assert(split(r3, c).len() == 1);
    assert(split(r3, c)[0] == p[3]);
    lemma_position(r3, c);
    if position(r3, c) < r3.len() {
        lemma_split_nonempty(r3.skip(position(r3, c) as int + 1), c);
    }
    assert(s =~= p[0] + seq![c] + p[1] + seq![c] + p[2] + seq![c] + p[3]);
}

/// The octets of a number of four.
proof fn lemma_four_octets(a: nat, b: nat, c: nat, d: nat, v: nat)
    requires
        a <= 255 && b <= 255 && c <= 255 && d <= 255,
        v == a * 0x100_0000 + b * 0x1_0000 + c * 0x100 + d,
    ensures
        be_bytes(v, 4) == seq![a as u8, b as u8, c as u8, d as u8],
{
    reveal_with_fuel(be_bytes, 5);
    assert(v % 256 == d);
    assert(v / 256 == a * 0x1_0000 + b * 0x100 + c);
    assert((v / 256) % 256 == c);
    assert((v / 256) / 256 == a * 0x100 + b);
    assert(((v / 256) / 256) % 256 == b);
    assert(((v / 256) / 256) / 256 == a);
    assert(be_bytes(v, 4) =~= seq![a as u8, b as u8, c as u8, d as u8]);
}

/// The only text that denotes an IPv4 address is the one that it is written as.
pub proof fn law_ipv4_has_one_text(s: Seq<char>)
    requires
        ipv4_value(s) is Some,
    ensures
        ipv4_value(s)->0 <= u32::MAX,
        s == ipv4_text(ipv4_value(s)->0 as u32),
{
    let p = split(s, '.');
    let a = octet_value(p[0])->0;
    let b = octet_value(p[1])->0;
    let c = octet_value(p[2])->0;
    let d = octet_value(p[3])->0;
    lemma_four_parts(s, '.');
    lemma_octet(p[0]);
    lemma_octet(p[1]);
    lemma_octet(p[2]);
    lemma_octet(p[3]);
    lemma_four_octets(a, b, c, d, ipv4_value(s)->0);
}

/// A text has at least one part.
proof fn lemma_split_nonempty(s: Seq<char>, c: char)
    ensures
        split(s, c).len() >= 1,
{
}

/// An IPv4 address is written as its four octets in decimal with full stops between them.
pub proof fn law_ipv4_text_has_four_octets(a: u8, b: u8, c: u8, d: u8, bits: u32)
    requires
        bits == a * 0x100_0000 + b * 0x1_0000 + c * 0x100 + d,
    ensures
        ipv4_text(bits) == decimal(a as nat) + seq!['.'] + decimal(b as nat) + seq!['.'] + decimal(
            c as nat,
        ) + seq!['.'] + decimal(d as nat),
{
    lemma_four_octets(a as nat, b as nat, c as nat, d as nat, bits as nat);
}

/// Texts with colons between them.
pub open spec fn colons(p: Seq<Seq<char>>) -> Seq<char>
    decreases p.len(),
{
    if p.len() == 0 {
        Seq::empty()
    } else if p.len() == 1 {
        p[0]
    } else {
        colons(p.drop_last()) + seq![':'] + p.last()
    }
}

/// Whether texts can stand between colons: they are not empty, and have neither colons nor full
/// stops.
pub open spec fn plain_parts(p: Seq<Seq<char>>) -> bool {
    forall|k: int| 0 <= k < p.len() ==> plain_part(#[trigger] p[k])
}

/// Whether a text is not empty and has neither colons nor full stops.
pub open spec fn plain_part(s: Seq<char>) -> bool {
    s.len() > 0 && forall|i: int| 0 <= i < s.len() ==> #[trigger] s[i] != ':' && s[i] != '.'
}

/// Whether a text is a group: up to four hexadecimal digits.
pub open spec fn hex_group(s: Seq<char>) -> bool {
    1 <= s.len() <= 4 && all_digits(s, 16)
}

/// Whether all texts are groups.
pub open spec fn hex_groups(p: Seq<Seq<char>>) -> bool {
    forall|k: int| 0 <= k < p.len() ==> hex_group(#[trigger] p[k])
}

/// The numbers that groups denote.
pub open spec fn group_numbers(p: Seq<Seq<char>>) -> Seq<nat> {
    Seq::new(p.len(), |k: int| worth(p[k], 16) as nat)
}

/// What stands between colons is found again.
proof fn lemma_colons(p: Seq<Seq<char>>)
    requires
        p.len() > 0,
        plain_parts(p),
    ensures
        split(colons(p), ':') == p,
        colons(p).len() > 0,
        colons(p)[0] != ':',
        colons(p).last() != ':',
        forall|i: int|
            0 <= i && i + 1 < colons(p).len() ==> !(#[trigger] colons(p)[i] == ':' && colons(p)[i
                + 1] == ':'),
    decreases p.len(),
{
    let s = colons(p);
    let n = p.last();
    assert(plain_part(p[p.len() - 1]));
    lemma_split_one(n, ':');
    if p.len() == 1 {
        assert(p =~= seq![n]);
    } else {
        let q = p.drop_last();
        let a = colons(q);
        assert(plain_parts(q)) by {
            assert forall|k: int| 0 <= k < q.len() implies plain_part(#[trigger] q[k]) by {
                assert(q[k] == p[k]);
            }
        }
        lemma_colons(q);
        lemma_split_concat(a, ':', n);
        assert(q + seq![n] =~= p);
        assert forall|i: int| 0 <= i && i + 1 < s.len() implies !(#[trigger] s[i] == ':' && s[i + 1]
            == ':') by {
            if i + 1 < a.len() {
                assert(s[i] == a[i] && s[i + 1] == a[i + 1]);
            } else if i + 1 == a.len() {
                assert(s[i] == a.last());
            } else if i == a.len() {
                assert(s[i + 1] == n[0]);
            } else {
                assert(s[i] == n[i - a.len() - 1]);
            }
        }
    }
}

/// What one group denotes.
proof fn lemma_group(s: Seq<char>)
    requires
        plain_part(s),
    ensures
        hex_group(s) ==> worth(s, 16) >= 0 && group_value(s) == Some(worth(s, 16) as nat),
        !hex_group(s) ==> group_value(s) is None,
        ipv4_value(s) is None,
{
    law_digits_count_by_place(s, 16);
    lemma_split_one(s, '.');
}

/// What groups denote.
proof fn lemma_group_numbers(p: Seq<Seq<char>>)
    requires
        plain_parts(p),
    ensures
        hex_groups(p) ==> groups_of(p) == Some(group_numbers(p)),
        !hex_groups(p) ==> groups_of(p) is None,
    decreases p.len(),
{
    if p.len() == 0 {
        assert(group_numbers(p) =~= Seq::<nat>::empty());
    } else {
        let q = p.drop_last();
        assert(plain_part(p[p.len() - 1]));
        assert(plain_parts(q)) by {
            assert forall|k: int| 0 <= k < q.len() implies plain_part(#[trigger] q[k]) by {
                assert(q[k] == p[k]);
            }
        }
        lemma_group_numbers(q);
        lemma_group(p.last());
        assert(hex_groups(p) <==> hex_groups(q) && hex_group(p.last())) by {
            if hex_groups(p) {
                assert(hex_group(p[p.len() - 1]));
                assert forall|k: int| 0 <= k < q.len() implies hex_group(#[trigger] q[k]) by {
                    assert(q[k] == p[k]);
                }
            }
            if hex_groups(q) && hex_group(p.last()) {
                assert forall|k: int| 0 <= k < p.len() implies hex_group(#[trigger] p[k]) by {
                    if k < q.len() {
                        assert(q[k] == p[k]);
                    }
                }
            }
        }
        if hex_groups(p) {
            assert(group_numbers(q).push(worth(p.last(), 16) as nat) =~= group_numbers(p));
        }
    }
}

/// What the sides of a `::` denote.
proof fn lemma_sides(p: Seq<Seq<char>>)
    requires
        plain_parts(p),
    ensures
        hex_groups(p) ==> head_groups(colons(p)) == Some(group_numbers(p)) && tail_groups(colons(p))
            == Some(group_numbers(p)),
        !hex_groups(p) ==> head_groups(colons(p)) is None && tail_groups(colons(p)) is None,
{
    if p.len() == 0 {
        assert(group_numbers(p) =~= Seq::<nat>::empty());
    } else {
        let q = p.drop_last();
        lemma_colons(p);
        lemma_group_numbers(p);
        assert(plain_part(p[p.len() - 1]));
        assert(plain_parts(q)) by {
            assert forall|k: int| 0 <= k < q.len() implies plain_part(#[trigger] q[k]) by {
                assert(q[k] == p[k]);
            }
        }
        lemma_group_numbers(q);
        lemma_group(p.last());
        if hex_groups(p) {
            assert(hex_group(p[p.len() - 1]));
            assert(hex_groups(q)) by {
                assert forall|k: int| 0 <= k < q.len() implies hex_group(#[trigger] q[k]) by {
                    assert(q[k] == p[k]);
                }
            }
            assert(group_numbers(q).push(worth(p.last(), 16) as nat) =~= group_numbers(p));
        } else if hex_groups(q) {
            assert(!hex_group(p.last())) by {
                if hex_group(p.last()) {
                    assert forall|k: int| 0 <= k < p.len() implies hex_group(#[trigger] p[k]) by {
                        if k < q.len() {
                            assert(q[k] == p[k]);
                        }
                    }
                }
            }
        }
    }
}

/// Texts with colons between them, none of them empty, denote an IPv6 address exactly if they are
/// eight groups, and that address is made up of them.
pub proof fn law_eight_groups_make_an_address(p: Seq<Seq<char>>)
    requires
        p.len() > 0,
        plain_parts(p),
    ensures
        p.len() == 8 && hex_groups(p) ==> ipv6_value(colons(p)) == Some(
            groups_number(group_numbers(p)),
        ),
        !(p.len() == 8 && hex_groups(p)) ==> ipv6_value(colons(p)) is None,
{
    let s = colons(p);
    lemma_colons(p);
    lemma_sides(p);
    lemma_pair_position(s, ':', s.len() as int);
}

/// Texts with a `::` between two of them, or before or after all, denote an IPv6 address exactly
/// if they are groups and fewer than eight; the groups that are missing are zero.
pub proof fn law_missing_groups_are_zero(h: Seq<Seq<char>>, t: Seq<Seq<char>>)
    requires
        plain_parts(h),
        plain_parts(t),
    ensures
        ({
            let s = colons(h) + seq![':', ':'] + colons(t);
            let good = h.len() + t.len() < 8 && hex_groups(h) && hex_groups(t);
            &&& good ==> ipv6_value(s) == Some(
                groups_number(
                    group_numbers(h) + Seq::new((8 - h.len() - t.len()) as nat, |i: int| 0nat)
                        + group_numbers(t),
                ),
            )
            &&& !good ==> ipv6_value(s) is None
        }),
{
    let a = colons(h);
    let b = colons(t);
    let s = a + seq![':', ':'] + b;
    if h.len() > 0 {
        lemma_colons(h);
    }
    assert forall|i: int| 0 <= i < a.len() && i + 1 < s.len() implies !(#[trigger] s[i] == ':'
        && s[i + 1] == ':') by {
        if i + 1 < a.len() {
            assert(s[i] == a[i] && s[i + 1] == a[i + 1]);
        } else {
            assert(s[i] == a.last());
        }
    }
    lemma_pair_position(s, ':', a.len() as int);
    assert(s.take(a.len() as int) =~= a);
    assert(s.skip(a.len() as int + 2) =~= b);
    lemma_sides(h);
    lemma_sides(t);
}

/// Groups make up a number, each sixteen bits more significant than the next.
pub proof fn law_groups_count_by_place(g: Seq<nat>, v: nat)
    ensures
        groups_number(Seq::<nat>::empty()) == 0,
        groups_number(g.push(v)) == groups_number(g) * 0x1_0000 + v,
{
    assert(g.push(v).drop_last() =~= g);
}

/// Whether the groups from `i` on are zero, as many as `n`.
pub open spec fn zeros_at(g: Seq<nat>, i: int, n: int) -> bool {
    0 <= i && i + n <= g.len() && forall|j: int| i <= j < i + n ==> g[j] == 0
}

/// How far a run of zeros goes.
proof fn lemma_run(g: Seq<nat>, i: int, n: int)
    requires
        0 <= i <= g.len(),
    ensures
        zeros_at(g, i, zero_run(g, i) as int),
        0 <= n && zeros_at(g, i, n) ==> n <= zero_run(g, i),
    decreases g.len() - i,
{
    if i < g.len() && g[i] == 0 {
        lemma_run(g, i + 1, n - 1);
        if 0 < n && zeros_at(g, i, n) {
            assert(zeros_at(g, i + 1, n - 1));
        }
    } else if 0 < n && zeros_at(g, i, n) {
        assert(g[i] == 0);
    }
}

/// The run that is written `::` is the first of the longest.
proof fn lemma_longest(g: Seq<nat>, i: int, j: int)
    requires
        0 <= i <= g.len(),
        i <= j <= g.len(),
    ensures
        i <= longest_run(g, i) <= g.len(),
        zero_run(g, j) <= zero_run(g, longest_run(g, i)),
        j < longest_run(g, i) ==> zero_run(g, j) < zero_run(g, longest_run(g, i)),
    decreases g.len() - i,
{
    if i < g.len() {
        if j > i {
            lemma_longest(g, i + 1, j);
        } else {
            lemma_longest(g, i + 1, i + 1);
        }
    }
}

/// An IPv6 address in which two adjacent groups are zero, and which is no IPv4 address that is
/// mapped, is written with `::` in place of the first of the longest runs of such groups.
pub proof fn law_ipv6_text_leaves_zeros_out(bits: u128, i: int, n: int) -> (r: (int, int))
    requires
        bits / 0x1_0000_0000 != 0xffff,
        2 <= n,
        zeros_at(ipv6_groups(bits), i, n),
    ensures
        ({
            let g = ipv6_groups(bits);
            let (start, run) = r;
            &&& n <= run
            &&& n == run ==> start <= i
            &&& zeros_at(g, start, run)
            &&& ipv6_text(bits) == groups_text(g.take(start)) + seq![':', ':'] + groups_text(
                g.skip(start + run),
            )
        }),
{
    let g = ipv6_groups(bits);
    let start = longest_run(g, 0);
    lemma_longest(g, 0, i);
    lemma_run(g, i, n);
    lemma_run(g, start, 0);
    (start, zero_run(g, start) as int)
}

/// An IPv6 address without two adjacent groups of zero is written in full.
pub proof fn law_ipv6_text_in_full(bits: u128)
    requires
        bits / 0x1_0000_0000 != 0xffff,
        forall|i: int| 0 <= i < 7 ==> !#[trigger] zeros_at(ipv6_groups(bits), i, 2),
    ensures
        ipv6_text(bits) == groups_text(ipv6_groups(bits)),
{
    let g = ipv6_groups(bits);
    let start = longest_run(g, 0);
    lemma_longest(g, 0, 0);
    lemma_run(g, start, 0);
    if zero_run(g, start) > 1 {
        assert(zeros_at(g, start, 2));
    }
}

/// An IPv4 address that is mapped into IPv6 is written as itself behind `::ffff:`.
pub proof fn law_mapped_addresses_keep_their_text(low: u32, bits: u128)
    requires
        bits == 0xffff_0000_0000 + low,
    ensures
        ipv6_text(bits) == seq![':', ':', 'f', 'f', 'f', 'f', ':'] + ipv4_text(low),
{
}

/// Groups are written in hexadecimal with colons between them.
pub proof fn law_groups_are_written_in_hexadecimal(g: Seq<nat>, v: nat)
    ensures
        groups_text(Seq::<nat>::empty()) == Seq::<char>::empty(),
        groups_text(seq![v]) == numeral(v, 16),
        g.len() > 0 ==> groups_text(g.push(v)) == groups_text(g) + seq![':'] + numeral(v, 16),
{
    assert(g.push(v).drop_last() =~= g);
}

/// The groups of an IPv6 address are pairs of its octets.
pub proof fn law_groups_are_pairs_of_octets(bits: u128, i: int)
    requires
        0 <= i < 8,
    ensures
        ipv6_groups(bits).len() == 8,
        ipv6_groups(bits)[i] == be_bytes(bits as nat, 16)[2 * i] * 256 + be_bytes(
            bits as nat,
            16,
        )[2 * i + 1],
{
}

/// A text denotes an address if it denotes one of either family, and an address is written as its
/// family is.
pub proof fn law_addresses_are_of_either_family(s: Seq<char>, ip: IpAddr)
    ensures
        ipv4_value(s) matches Some(v) ==> ip_value(s) == Some(
            IpAddr::V4(Ipv4Addr { bits: v as u32 }),
        ),
        ipv4_value(s) is None ==> (ipv6_value(s) matches Some(v) ==> ip_value(s) == Some(
            IpAddr::V6(Ipv6Addr { bits: v as u128 }),
        )),
        ipv4_value(s) is None && ipv6_value(s) is None ==> ip_value(s) is None,
        ip matches IpAddr::V4(a) ==> ip_text(ip) == ipv4_text(a.bits),
        ip matches IpAddr::V6(a) ==> ip_text(ip) == ipv6_text(a.bits),
{
}

/// The address after an address is one higher, and the last is followed by the first.
pub proof fn law_next_addresses(a: Ipv4Addr, b: Ipv6Addr)
    ensures
        a.bits < u32::MAX ==> a.spec_next().bits == a.bits + 1,
        a.bits == u32::MAX ==> a.spec_next().bits == 0,
        b.bits < u128::MAX ==> b.spec_next().bits == b.bits + 1,
        b.bits == u128::MAX ==> b.spec_next().bits == 0,
{
}

/// An address and a port make an address of the same family with that port.
pub proof fn law_sockets_keep_address_and_port(ip: IpAddr, port: u16)
    ensures
        SocketAddr::of(ip, port).spec_port() == port,
        ip matches IpAddr::V4(a) ==> (SocketAddr::of(ip, port) matches SocketAddr::V4(s) && s.ip
            == a && s.port == port),
        ip matches IpAddr::V6(a) ==> (SocketAddr::of(ip, port) matches SocketAddr::V6(s) && s.ip
            == a && s.port == port && s.flowinfo == 0 && s.scope_id == 0),
{
}

/// Octets stand in the order of their places, the most significant first.
pub proof fn law_octets_go_by_place(v: nat, n: nat)
    ensures
        be_bytes(v, 0).len() == 0,
        be_bytes(v, n + 1) == be_bytes(v / 256, n).push((v % 256) as u8),
        be_bytes(v, n).len() == n,
{
    lemma_be_bytes_len(v, n);
}

/// The four octets of an IPv4 address.
pub proof fn law_ipv4_has_four_octets(ip: Ipv4Addr, r: [u8; 4])
    requires
        call_ensures(Ipv4Addr::octets, (ip,), r),
    ensures
        ip.bits == r@[0] * 0x100_0000 + r@[1] * 0x1_0000 + r@[2] * 0x100 + r@[3],
{
    let v = ip.bits as nat;
    let a = v / 0x100_0000;
    let b = (v / 0x1_0000) % 256;
    let c = (v / 0x100) % 256;
    let d = v % 256;
    lemma_four_octets(a, b, c, d, v);
}

/// An IPv4 address is read from the only text that it has.
pub proof fn law_ipv4_is_read(s: &str, r: Option<Ipv4Addr>)
    requires
        call_ensures(Ipv4Addr::parse, (s,), r),
    ensures
        r matches Some(a) ==> s@ == ipv4_text(a.bits),
        r is None ==> forall|bits: u32| s@ != #[trigger] ipv4_text(bits),
{
    if r is Some {
        law_ipv4_has_one_text(s@);
    } else {
        assert forall|bits: u32| s@ != #[trigger] ipv4_text(bits) by {
            law_ipv4_text_reads_back(bits);
        }
    }
}

/// The addresses that no connection goes to.
pub proof fn law_special_addresses(
    a: Ipv4Addr,
    b: Ipv6Addr,
    broadcast: bool,
    multicast: bool,
    unspecified: bool,
    multicast6: bool,
    unspecified6: bool,
)
    requires
        call_ensures(Ipv4Addr::is_broadcast, (a,), broadcast),
        call_ensures(Ipv4Addr::is_multicast, (a,), multicast),
        call_ensures(Ipv4Addr::is_unspecified, (a,), unspecified),
        call_ensures(Ipv6Addr::is_multicast, (b,), multicast6),
        call_ensures(Ipv6Addr::is_unspecified, (b,), unspecified6),
    ensures
        broadcast <==> a.bits == u32::MAX,
        multicast <==> a.bits / 0x1000_0000 == 0xe,
        unspecified <==> a.bits == 0,
        multicast6 <==> b.bits >= 0xff00_0000_0000_0000_0000_0000_0000_0000,
        unspecified6 <==> b.bits == 0,
{
}

/// An address is read from what it is written as, and with a prefix length likewise.
pub proof fn law_written_addresses_are_read(
    ip: IpAddr,
    text: String,
    s: &str,
    r: Option<IpAddr>,
)
    requires
        call_ensures(IpAddr::text, (ip,), text),
        s@ == text@,
        call_ensures(IpAddr::parse, (s,), r),
    ensures
        r == Some(ip),
{
    law_ip_text_reads_back(ip);
}

/// An address is of one family.
pub proof fn law_addresses_are_of_one_family(ip: IpAddr, v4: bool, v6: bool)
    requires
        call_ensures(IpAddr::is_ipv4, (ip,), v4),
        call_ensures(IpAddr::is_ipv6, (ip,), v6),
    ensures
        v4 <==> ip is V4,
        v6 <==> !v4,
{
}

/// An address is made of its four octets.
pub proof fn law_addresses_are_made_of_octets(a: u8, b: u8, c: u8, d: u8, ip: Ipv4Addr, r: [u8; 4])
    requires
        call_ensures(Ipv4Addr::new, (a, b, c, d), ip),
        call_ensures(Ipv4Addr::octets, (ip,), r),
    ensures
        r@ == seq![a, b, c, d],
{
    lemma_four_octets(a as nat, b as nat, c as nat, d as nat, ip.bits as nat);
    assert(r@ =~= seq![a, b, c, d]);
}

/// Numbers are read and written as texts denote them.
pub proof fn law_numbers_are_read_and_written(
    s: &[char],
    max: u64,
    read: Option<u64>,
    n: u64,
    written: String,
    out: &mut String,
    m: i64,
    r: (),
)
    requires
        call_ensures(parse_unsigned, (s, max), read),
        call_ensures(decimal_text, (n,), written),
        call_ensures(push_signed, (out, m), r),
    ensures
        read matches Some(v) ==> unsigned_value(s@, max as nat) == Some(v as nat),
        read is None ==> unsigned_value(s@, max as nat) is None,
        written@ == numeral(n as nat, 10),
        m >= 0 ==> final(out)@ == old(out)@ + numeral(m as nat, 10),
        m < 0 ==> final(out)@ == old(out)@ + (seq!['-'] + numeral((-m) as nat, 10)),
{
}

/// What separates and what matches in texts.
pub proof fn law_texts_are_searched(
    s: &[char],
    c: char,
    at: usize,
    w: char,
    white: bool,
    a: &str,
    b: &str,
    same: bool,
)
    requires
        call_ensures(find_char, (s, c), at),
        call_ensures(is_white_space, (w,), white),
        call_ensures(str_eq, (a, b), same),
    ensures
        at <= s@.len(),
        at < s@.len() ==> s@[at as int] == c,
        forall|i: int| 0 <= i < at ==> s@[i] != c,
        white <==> white_space(w),
        same <==> a@ == b@,
{
    lemma_position(s@, c);
}

} // verus!
