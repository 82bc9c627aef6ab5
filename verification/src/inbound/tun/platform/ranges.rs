//! Ranges of user ids.
use vstd::prelude::*;
use vstd::relations::{sorted_by, total_ordering};

verus! {

/// The largest user id.
pub const UID_MAX: u32 = 0xffff_fffe;

/// Whether `x` lies in one of several ranges, each given by its first and its last member.
pub open spec fn in_ranges(s: Seq<(u32, u32)>, x: u32) -> bool {
    exists|i: int| 0 <= i < s.len() && (#[trigger] s[i]).0 <= x <= s[i].1
}

/// Ranges that are not empty and stand in ascending order without overlap.
pub open spec fn ascending(s: Seq<(u32, u32)>) -> bool {
    &&& forall|i: int| 0 <= i < s.len() ==> (#[trigger] s[i]).0 <= s[i].1
    &&& forall|i: int, j: int| 0 <= i < j < s.len() ==> (#[trigger] s[i]).1 < (#[trigger] s[j]).0
}

/// Ascending ranges between which there are gaps: no two could be written as one.
pub open spec fn canonical(s: Seq<(u32, u32)>) -> bool {
    &&& ascending(s)
    &&& forall|i: int, j: int|
        0 <= i < j < s.len() ==> (#[trigger] s[i]).1 + 1 < (#[trigger] s[j]).0
}

/// The number after `x`; the last number is its own successor.
pub open spec fn successor(x: u32) -> u32 {
    if x == u32::MAX {
        x
    } else {
        (x + 1) as u32
    }
}

/// What is left of one range when another is taken out of it.
pub open spec fn cut(r: (u32, u32), lo: u32, hi: u32) -> Seq<(u32, u32)> {
    if hi < r.0 || lo > r.1 {
        seq![r]
    } else {
        let left = if r.0 < lo {
            seq![(r.0, (lo - 1) as u32)]
        } else {
            Seq::empty()
        };
        let right = if r.1 > hi {
            seq![((hi + 1) as u32, r.1)]
        } else {
            Seq::empty()
        };
        left + right
    }
}

/// What is left of several ranges when another is taken out of each.
pub open spec fn cut_each(s: Seq<(u32, u32)>, lo: u32, hi: u32) -> Seq<(u32, u32)>
    decreases s.len(),
{
    if s.len() == 0 {
        Seq::empty()
    } else {
        cut_each(s.drop_last(), lo, hi) + cut(s.last(), lo, hi)
    }
}

/// What is left of several ranges when others are taken out of each, one after the other.
pub open spec fn subtracted(base: Seq<(u32, u32)>, sub: Seq<(u32, u32)>) -> Seq<(u32, u32)>
    decreases sub.len(),
{
    if sub.len() == 0 {
        base
    } else {
        cut_each(subtracted(base, sub.drop_last()), sub.last().0, sub.last().1)
    }
}

/// The gaps that several ranges leave from `cur` up to `hi`.
pub open spec fn gaps(s: Seq<(u32, u32)>, cur: u32, hi: u32) -> Seq<(u32, u32)>
    decreases s.len(),
{
    if s.len() == 0 {
        if cur <= hi {
            seq![(cur, hi)]
        } else {
            Seq::empty()
        }
    } else {
        let before = if cur < s[0].0 {
            seq![(cur, (s[0].0 - 1) as u32)]
        } else {
            Seq::empty()
        };
        before + gaps(s.skip(1), successor(s[0].1), hi)
    }
}

/// Whether one range comes no later than another: by first member, then by last.
pub open spec fn range_le(a: (u32, u32), b: (u32, u32)) -> bool {
    a.0 < b.0 || (a.0 == b.0 && a.1 <= b.1)
}

/// Ranges in order.
pub open spec fn sorted_ranges(s: Seq<(u32, u32)>) -> Seq<(u32, u32)> {
    s.sort_by(|a: (u32, u32), b: (u32, u32)| range_le(a, b))
}

/// Ranges in order, with those that overlap or touch the one before joined to it.
pub open spec fn joined(s: Seq<(u32, u32)>) -> Seq<(u32, u32)>
    decreases s.len(),
{
    if s.len() <= 1 {
        s
    } else {
        let m = joined(s.drop_last());
        let (a, b) = s.last();
        let last = m.last();
        if a <= successor(last.1) {
            m.drop_last().push(
                (
                    last.0,
                    if last.1 < b {
                        b
                    } else {
                        last.1
                    },
                ),
            )
        } else {
            m.push((a, b))
        }
    }
}

/// Whether the traffic of a user is kept from the interface: where some users are included, that
/// of all others and of those that are excluded too; else that of those that are excluded.
pub open spec fn excluded_uid(included: Seq<u32>, excluded: Seq<u32>, x: u32) -> bool {
    if included.len() > 0 {
        x <= UID_MAX && !(included.contains(x) && !excluded.contains(x))
    } else {
        excluded.contains(x)
    }
}

/// Takes `(lo, hi)` out of each of several ranges.
fn cut_ranges(base: &Vec<(u32, u32)>, lo: u32, hi: u32) -> (r: Vec<(u32, u32)>)
    ensures
        r@ == cut_each(base@, lo, hi),
{
    let mut out: Vec<(u32, u32)> = Vec::new();
    let mut i: usize = 0;
    while i < base.len()
        invariant
            i <= base@.len(),
            out@ == cut_each(base@.take(i as int), lo, hi),
        decreases base@.len() - i,
    {
        let (a, b) = base[i];
        let ghost t = base@.take(i + 1);
        assert(t.drop_last() =~= base@.take(i as int));
        let ghost before = out@;
        if hi < a || lo > b {
            out.push((a, b));
        } else {
            if a < lo {
                out.push((a, lo - 1));
            }
            if b > hi {
                out.push((hi + 1, b));
            }
        }
        assert(out@ =~= before + cut((a, b), lo, hi));
        i += 1;
    }
    assert(base@.take(i as int) =~= base@);
    out
}

/// Takes ranges out of other ranges.
pub fn subtract_ranges(base: Vec<(u32, u32)>, sub: &[(u32, u32)]) -> (r: Vec<(u32, u32)>)
    ensures
        r@ == subtracted(base@, sub@),
{
    let mut out: Vec<(u32, u32)> = base;
    let mut i: usize = 0;
    while i < sub.len()
        invariant
            i <= sub@.len(),
            out@ == subtracted(base@, sub@.take(i as int)),
        decreases sub@.len() - i,
    {
        let (lo, hi) = sub[i];
        let ghost t = sub@.take(i + 1);
        assert(t.drop_last() =~= sub@.take(i as int));
        out = cut_ranges(&out, lo, hi);
        i += 1;
    }
    assert(sub@.take(i as int) =~= sub@);
    out
}

/// The gaps that ranges leave between `lo` and `hi`.
pub fn complement_ranges(ranges: &[(u32, u32)], lo: u32, hi: u32) -> (r: Vec<(u32, u32)>)
    ensures
        r@ == gaps(ranges@, lo, hi),
{
    let mut result: Vec<(u32, u32)> = Vec::new();
    let mut cur: u32 = lo;
    let mut i: usize = 0;
    assert(ranges@.skip(0) =~= ranges@);
    assert(result@ + gaps(ranges@, lo, hi) =~= gaps(ranges@, lo, hi));
    while i < ranges.len()
        invariant
            i <= ranges@.len(),
            result@ + gaps(ranges@.skip(i as int), cur, hi) == gaps(ranges@, lo, hi),
        decreases ranges@.len() - i,
    {
        let (a, b) = ranges[i];
        let ghost rest = ranges@.skip(i as int);
        let ghost before = result@;
        if cur < a {
            result.push((cur, a - 1));
        }
        assert(rest.skip(1) =~= ranges@.skip(i + 1));
        assert(result@ + gaps(rest.skip(1), successor(b), hi) =~= before + gaps(rest, cur, hi));
        cur = if b == u32::MAX {
            b
        } else {
            b + 1
        };
        i += 1;
    }
    let ghost before = result@;
    assert(ranges@.skip(i as int) =~= Seq::<(u32, u32)>::empty());
    if cur <= hi {
        result.push((cur, hi));
    }
    assert(result@ =~= before + gaps(Seq::empty(), cur, hi));
    result
}

/// The order of ranges is total.
proof fn lemma_range_order()
    ensures
        total_ordering(|a: (u32, u32), b: (u32, u32)| range_le(a, b)),
{
}

/// Puts ranges in order.
fn sort_ranges(ranges: &Vec<(u32, u32)>) -> (r: Vec<(u32, u32)>)
    ensures
        r@ == sorted_ranges(ranges@),
{
    let ghost order = |a: (u32, u32), b: (u32, u32)| range_le(a, b);
    let mut out: Vec<(u32, u32)> = Vec::new();
    let mut i: usize = 0;
    assert(ranges@.take(0) =~= out@);
    while i < ranges.len()
        invariant
            i <= ranges@.len(),
            out@.len() == i,
            order == (|a: (u32, u32), b: (u32, u32)| range_le(a, b)),
            sorted_by(out@, order),
            out@.to_multiset() == ranges@.take(i as int).to_multiset(),
        decreases ranges@.len() - i,
    {
        let x = ranges[i];
        let mut j: usize = out.len();
        while j > 0 && (x.0 < out[j - 1].0 || (x.0 == out[j - 1].0 && x.1 < out[j - 1].1))
            invariant
                j <= out@.len(),
                forall|k: int| j <= k < out@.len() ==> range_le(x, #[trigger] out@[k]),
            decreases j,
        {
            j -= 1;
        }
        let ghost before = out@;
        proof {
            assert forall|k: int| 0 <= k < j implies range_le(#[trigger] before[k], x) by {
                if k < j - 1 {
                    assert(order(before[k], before[j - 1]));
                }
            }
        }
        out.insert(j, x);
        proof {
            vstd::seq_lib::to_multiset_insert(before, j as int, x);
            vstd::seq_lib::to_multiset_build(ranges@.take(i as int), x);
            assert(out@ =~= before.insert(j as int, x));
            assert(ranges@.take(i + 1) =~= ranges@.take(i as int).push(x));
            assert forall|a: int, b: int| 0 <= a < b < out@.len() implies #[trigger] order(
                out@[a],
                out@[b],
            ) by {
                let a0 = if a < j {
                    a
                } else {
                    a - 1
                };
                let b0 = if b < j {
                    b
                } else {
                    b - 1
                };
                if a != j && b != j {
                    assert(order(before[a0], before[b0]));
                }
            }
        }
        i += 1;
    }
    proof {
        lemma_range_order();
        ranges@.lemma_sort_by_ensures(order);
        assert(ranges@.take(i as int) =~= ranges@);
        vstd::seq_lib::lemma_sorted_unique(out@, ranges@.sort_by(order), order);
    }
    out
}

/// Puts ranges in order and joins those that overlap or touch.
pub fn merge_ranges(ranges: Vec<(u32, u32)>) -> (r: Vec<(u32, u32)>)
    ensures
        r@ == joined(sorted_ranges(ranges@)),
{
    let sorted = sort_ranges(&ranges);
    let ghost s = sorted@;
    if sorted.len() == 0 {
        return sorted;
    }
    let mut merged: Vec<(u32, u32)> = Vec::new();
    merged.push(sorted[0]);
    assert(merged@ =~= s.take(1));
    let mut i: usize = 1;
    while i < sorted.len()
        invariant
            1 <= i <= sorted@.len(),
            s == sorted@,
            merged@.len() >= 1,
            merged@ == joined(s.take(i as int)),
        decreases sorted@.len() - i,
    {
        let (a, b) = sorted[i];
        let ghost t = s.take(i + 1);
        assert(t.drop_last() =~= s.take(i as int));
        let n = merged.len();
        let last = merged[n - 1];
        let next: u32 = if last.1 == u32::MAX {
            last.1
        } else {
            last.1 + 1
        };
        let ghost before = merged@;
        if a <= next {
            let end: u32 = if last.1 < b {
                b
            } else {
                last.1
            };
            merged.set(n - 1, (last.0, end));
            assert(merged@ =~= before.drop_last().push((last.0, end)));
        } else {
            merged.push((a, b));
        }
        i += 1;
    }
    assert(s.take(i as int) =~= s);
    merged
}

/// Membership in two runs of ranges.
proof fn lemma_in_concat(a: Seq<(u32, u32)>, b: Seq<(u32, u32)>, x: u32)
    ensures
        in_ranges(a + b, x) == (in_ranges(a, x) || in_ranges(b, x)),
{
    let c = a + b;
    if in_ranges(a, x) {
        let i = choose|i: int| 0 <= i < a.len() && (#[trigger] a[i]).0 <= x <= a[i].1;
        assert(c[i] == a[i]);
    }
    if in_ranges(b, x) {
        let i = choose|i: int| 0 <= i < b.len() && (#[trigger] b[i]).0 <= x <= b[i].1;
        assert(c[a.len() + i] == b[i]);
    }
    if in_ranges(c, x) {
        let i = choose|i: int| 0 <= i < c.len() && (#[trigger] c[i]).0 <= x <= c[i].1;
        if i < a.len() {
            assert(a[i] == c[i]);
        } else {
            assert(b[i - a.len()] == c[i]);
        }
    }
}

/// Membership in up to two ranges.
proof fn lemma_in_few(s: Seq<(u32, u32)>, x: u32)
    requires
        s.len() <= 2,
    ensures
        in_ranges(s, x) == ((s.len() > 0 && s[0].0 <= x <= s[0].1) || (s.len() > 1 && s[1].0 <= x
            <= s[1].1)),
{
}

/// Whether no range is empty.
pub open spec fn nonempty(s: Seq<(u32, u32)>) -> bool {
    forall|i: int| 0 <= i < s.len() ==> (#[trigger] s[i]).0 <= s[i].1
}

/// Taking a range out of ranges.
proof fn lemma_cut_each(s: Seq<(u32, u32)>, lo: u32, hi: u32)
    requires
        nonempty(s),
        lo <= hi,
    ensures
        nonempty(cut_each(s, lo, hi)),
        forall|x: u32| #[trigger]
            in_ranges(cut_each(s, lo, hi), x) <==> in_ranges(s, x) && !(lo <= x <= hi),
    decreases s.len(),
{
    let c = cut_each(s, lo, hi);
    if s.len() > 0 {
        let t = s.drop_last();
        assert(nonempty(t)) by {
            assert forall|i: int| 0 <= i < t.len() implies (#[trigger] t[i]).0 <= t[i].1 by {
                assert(t[i] == s[i]);
            }
        }
        lemma_cut_each(t, lo, hi);
        let front = cut_each(t, lo, hi);
        let last = cut(s.last(), lo, hi);
        assert(c == front + last);
        assert(s.last() == s[s.len() - 1]);
        assert forall|i: int| 0 <= i < c.len() implies (#[trigger] c[i]).0 <= c[i].1 by {
            if i < front.len() {
                assert(c[i] == front[i]);
            } else {
                assert(c[i] == last[i - front.len()]);
            }
        }
        assert forall|x: u32| #[trigger] in_ranges(c, x) <==> in_ranges(s, x) && !(lo <= x
            <= hi) by {
            lemma_in_concat(front, last, x);
            lemma_in_few(last, x);
            assert(s =~= t + seq![s.last()]);
            lemma_in_concat(t, seq![s.last()], x);
            lemma_in_few(seq![s.last()], x);
        }
    } else {
        assert forall|x: u32| #[trigger] in_ranges(c, x) <==> in_ranges(s, x) && !(lo <= x
            <= hi) by {
            lemma_in_few(c, x);
            lemma_in_few(s, x);
        }
    }
}

/// Taking a range out of ascending ranges leaves them ascending.
proof fn lemma_cut_ascends(s: Seq<(u32, u32)>, lo: u32, hi: u32)
    requires
        ascending(s),
        lo <= hi,
    ensures
        ascending(cut_each(s, lo, hi)),
        forall|j: int|
            0 <= j < cut_each(s, lo, hi).len() ==> s.len() > 0 && (#[trigger] cut_each(
                s,
                lo,
                hi,
            )[j]).1 <= s.last().1,
    decreases s.len(),
{
    let c = cut_each(s, lo, hi);
    if s.len() > 0 {
        let t = s.drop_last();
        lemma_cut_ascends(t, lo, hi);
        let front = cut_each(t, lo, hi);
        let last = cut(s.last(), lo, hi);
        assert(c == front + last);
        assert forall|j: int| 0 <= j < front.len() implies (#[trigger] front[j]).1 < s.last().0 by {
            assert(t.last() == s[s.len() - 2]);
        }
        assert forall|i: int| 0 <= i < c.len() implies (#[trigger] c[i]).0 <= c[i].1 && c[i].1
            <= s.last().1 by {
            if i < front.len() {
                assert(c[i] == front[i]);
            } else {
                assert(c[i] == last[i - front.len()]);
            }
        }
        assert forall|i: int, j: int| 0 <= i < j < c.len() implies (#[trigger] c[i]).1 < (
        #[trigger] c[j]).0 by {
            if j < front.len() {
                assert(c[i] == front[i] && c[j] == front[j]);
            } else if i < front.len() {
                assert(c[i] == front[i] && c[j] == last[j - front.len()]);
            } else {
                assert(c[i] == last[i - front.len()] && c[j] == last[j - front.len()]);
            }
        }
    }
}

/// What is left of ranges holds exactly what was in them and in none of those taken out, and no
/// range that is left is empty. What is left of ascending ranges is ascending.
pub proof fn law_subtract_is_difference(base: Seq<(u32, u32)>, sub: Seq<(u32, u32)>)
    requires
        nonempty(base),
        nonempty(sub),
    ensures
        nonempty(subtracted(base, sub)),
        forall|x: u32| #[trigger]
            in_ranges(subtracted(base, sub), x) <==> in_ranges(base, x) && !in_ranges(sub, x),
        ascending(base) ==> ascending(subtracted(base, sub)),
    decreases sub.len(),
{
    if sub.len() > 0 {
        let t = sub.drop_last();
        assert(nonempty(t)) by {
            assert forall|i: int| 0 <= i < t.len() implies (#[trigger] t[i]).0 <= t[i].1 by {
                assert(t[i] == sub[i]);
            }
        }
        law_subtract_is_difference(base, t);
        assert(sub.last() == sub[sub.len() - 1]);
        lemma_cut_each(subtracted(base, t), sub.last().0, sub.last().1);
        if ascending(base) {
            lemma_cut_ascends(subtracted(base, t), sub.last().0, sub.last().1);
        }
        assert forall|x: u32| #[trigger] in_ranges(subtracted(base, sub), x) <==> in_ranges(base, x)
            && !in_ranges(sub, x) by {
            assert(in_ranges(subtracted(base, t), x) <==> in_ranges(base, x) && !in_ranges(t, x));
            assert(sub =~= t + seq![sub.last()]);
            lemma_in_concat(t, seq![sub.last()], x);
            lemma_in_few(seq![sub.last()], x);
        }
    }
}

/// The gaps that ascending ranges leave between `cur` and `hi` hold exactly what lies there and in
/// none of the ranges, and no two of them could be written as one.
pub proof fn law_gaps_are_complement(s: Seq<(u32, u32)>, cur: u32, hi: u32)
    requires
        ascending(s),
        hi < u32::MAX,
        forall|i: int| 0 <= i < s.len() ==> cur <= (#[trigger] s[i]).0 <= hi + 1,
    ensures
        canonical(gaps(s, cur, hi)),
        forall|j: int| 0 <= j < gaps(s, cur, hi).len() ==> cur <= (#[trigger] gaps(s, cur, hi)[j]).0,
        forall|x: u32| #[trigger]
            in_ranges(gaps(s, cur, hi), x) <==> cur <= x <= hi && !in_ranges(s, x),
    decreases s.len(),
{
    let g = gaps(s, cur, hi);
    if s.len() == 0 {
        assert forall|x: u32| #[trigger] in_ranges(g, x) <==> cur <= x <= hi && !in_ranges(s, x) by {
            lemma_in_few(g, x);
            lemma_in_few(s, x);
        }
    } else {
        let rest = s.skip(1);
        let next = successor(s[0].1);
        let first = s[0];
        assert forall|i: int| 0 <= i < rest.len() implies next <= (#[trigger] rest[i]).0 <= hi
            + 1 by {
            assert(rest[i] == s[i + 1]);
        }
        assert forall|i: int| 0 <= i < rest.len() implies (#[trigger] rest[i]).0 <= rest[i].1 by {
            assert(rest[i] == s[i + 1]);
        }
        assert forall|i: int, j: int| 0 <= i < j < rest.len() implies (#[trigger] rest[i]).1 < (
        #[trigger] rest[j]).0 by {
            assert(rest[i] == s[i + 1] && rest[j] == s[j + 1]);
        }
        law_gaps_are_complement(rest, next, hi);
        let tail = gaps(rest, next, hi);
        let before = if cur < s[0].0 {
            seq![(cur, (s[0].0 - 1) as u32)]
        } else {
            Seq::empty()
        };
        assert(g == before + tail);
        assert forall|j: int| 0 <= j < g.len() implies cur <= (#[trigger] g[j]).0 <= g[j].1 by {
            if j >= before.len() {
                assert(g[j] == tail[j - before.len()]);
            }
        }
        assert forall|i: int, j: int| 0 <= i < j < g.len() implies (#[trigger] g[i]).1 + 1 < (
        #[trigger] g[j]).0 by {
            assert(g[j] == tail[j - before.len()]);
            if i >= before.len() {
                assert(g[i] == tail[i - before.len()]);
            } else {
                assert(tail[j - before.len()].0 >= next);
                assert(tail[j - before.len()].0 <= tail[j - before.len()].1);
                if s[0].1 == u32::MAX {
                    assert(rest.len() == 0) by {
                        if rest.len() > 0 {
                            assert(s[0].1 < s[1].0);
                        }
                    }
                }
            }
        }
        assert forall|x: u32| #[trigger] in_ranges(g, x) <==> cur <= x <= hi && !in_ranges(s, x) by {
            lemma_in_concat(before, tail, x);
            lemma_in_few(before, x);
            assert(s =~= seq![first] + rest);
            lemma_in_concat(seq![first], rest, x);
            lemma_in_few(seq![first], x);
            assert(in_ranges(tail, x) <==> next <= x <= hi && !in_ranges(rest, x));
            if in_ranges(rest, x) {
                let i = choose|i: int|
                    0 <= i < rest.len() && (#[trigger] rest[i]).0 <= x <= rest[i].1;
                assert(next <= rest[i].0);
                assert(first.1 < s[i + 1].0);
            }
        }
    }
}

/// Joining ranges that are in order.
proof fn lemma_joined(s: Seq<(u32, u32)>)
    requires
        forall|i: int| 0 <= i < s.len() ==> (#[trigger] s[i]).0 <= s[i].1,
        forall|i: int, j: int|
            0 <= i < j < s.len() ==> range_le(#[trigger] s[i], #[trigger] s[j]),
    ensures
        canonical(joined(s)),
        s.len() > 0 ==> joined(s).len() > 0 && joined(s).last().0 <= s.last().0,
        forall|x: u32| #[trigger] in_ranges(joined(s), x) <==> in_ranges(s, x),
    decreases s.len(),
{
    if s.len() > 1 {
        let t = s.drop_last();
        lemma_joined(t);
        let m = joined(t);
        let g = joined(s);
        let (a, b) = s.last();
        let last = m.last();
        assert(range_le(s[s.len() - 2], s[s.len() - 1]));
        assert(s[s.len() - 1].0 <= s[s.len() - 1].1);
        assert(m[m.len() - 1] == last);
        assert forall|x: u32| #[trigger] in_ranges(g, x) <==> in_ranges(s, x) by {
            assert(s =~= t + seq![(a, b)]);
            lemma_in_concat(t, seq![(a, b)], x);
            lemma_in_few(seq![(a, b)], x);
            assert(in_ranges(m, x) <==> in_ranges(t, x));
            if a <= successor(last.1) {
                let end = if last.1 < b {
                    b
                } else {
                    last.1
                };
                assert(g =~= m.drop_last() + seq![(last.0, end)]);
                assert(m =~= m.drop_last() + seq![last]);
                lemma_in_concat(m.drop_last(), seq![(last.0, end)], x);
                lemma_in_concat(m.drop_last(), seq![last], x);
                lemma_in_few(seq![(last.0, end)], x);
                lemma_in_few(seq![last], x);
            } else {
                assert(g =~= m + seq![(a, b)]);
                lemma_in_concat(m, seq![(a, b)], x);
            }
        }
        assert forall|i: int, j: int| 0 <= i < j < g.len() implies (#[trigger] g[i]).1 + 1 < (
        #[trigger] g[j]).0 by {
            if j < m.len() {
                assert(m[i].1 + 1 < m[j].0);
            } else if i < m.len() - 1 {
                assert(m[i].1 + 1 < m[m.len() - 1].0);
            }
        }
        assert forall|i: int| 0 <= i < g.len() implies (#[trigger] g[i]).0 <= g[i].1 by {
            if i < m.len() {
                assert(m[i].0 <= m[i].1);
            }
        }
    }
}

/// Merging leaves what was in the ranges in place, and no two of the ranges that come out could be
/// written as one.
pub proof fn law_merge_is_canonical(s: Seq<(u32, u32)>)
    requires
        forall|i: int| 0 <= i < s.len() ==> (#[trigger] s[i]).0 <= s[i].1,
    ensures
        canonical(joined(sorted_ranges(s))),
        forall|x: u32| #[trigger] in_ranges(joined(sorted_ranges(s)), x) <==> in_ranges(s, x),
{
    let order = |a: (u32, u32), b: (u32, u32)| range_le(a, b);
    lemma_range_order();
    s.lemma_sort_by_ensures(order);
    let t = sorted_ranges(s);
    assert forall|r: (u32, u32)| #[trigger] t.contains(r) <==> s.contains(r) by {
        vstd::seq_lib::to_multiset_contains(s, r);
        vstd::seq_lib::to_multiset_contains(t, r);
    }
    assert forall|i: int| 0 <= i < t.len() implies (#[trigger] t[i]).0 <= t[i].1 by {
        assert(t.contains(t[i]));
        let k = choose|k: int| 0 <= k < s.len() && s[k] == t[i];
        assert(s[k].0 <= s[k].1);
    }
    assert forall|i: int, j: int| 0 <= i < j < t.len() implies range_le(
        #[trigger] t[i],
        #[trigger] t[j],
    ) by {
        assert(order(t[i], t[j]));
    }
    lemma_joined(t);
    assert forall|x: u32| #[trigger] in_ranges(joined(t), x) <==> in_ranges(s, x) by {
        assert(in_ranges(joined(t), x) <==> in_ranges(t, x));
        if in_ranges(t, x) {
            let i = choose|i: int| 0 <= i < t.len() && (#[trigger] t[i]).0 <= x <= t[i].1;
            assert(t.contains(t[i]));
            let k = choose|k: int| 0 <= k < s.len() && s[k] == t[i];
            assert(s[k].0 <= x <= s[k].1);
        }
        if in_ranges(s, x) {
            let i = choose|i: int| 0 <= i < s.len() && (#[trigger] s[i]).0 <= x <= s[i].1;
            assert(t.contains(s[i]));
            let k = choose|k: int| 0 <= k < t.len() && t[k] == s[i];
            assert(t[k].0 <= x <= t[k].1);
        }
    }
}

/// Canonical ranges are determined by what lies in them.
pub proof fn law_canonical_is_unique(a: Seq<(u32, u32)>, b: Seq<(u32, u32)>)
    requires
        canonical(a),
        canonical(b),
        forall|x: u32| #[trigger] in_ranges(a, x) <==> in_ranges(b, x),
    ensures
        a == b,
    decreases a.len(),
{
    if a.len() == 0 {
        if b.len() > 0 {
            assert(b[0].0 <= b[0].0 <= b[0].1);
            assert(in_ranges(b, b[0].0));
            assert(in_ranges(a, b[0].0));
        }
        assert(a =~= b);
    } else if b.len() == 0 {
        assert(a[0].0 <= a[0].1);
        assert(in_ranges(a, a[0].0));
    } else {
        let la = a.last();
        let lb = b.last();
        assert(a[a.len() - 1] == la && b[b.len() - 1] == lb);
        assert(la.0 <= la.1 && lb.0 <= lb.1);
        lemma_in_last(a, la.1);
        lemma_in_last(b, lb.1);
        lemma_in_last(b, la.1);
        lemma_in_last(a, lb.1);
        assert(in_ranges(a, la.1) && in_ranges(b, lb.1));
        assert(in_ranges(b, la.1) && in_ranges(a, lb.1));
        assert(la.1 == lb.1);
        if la.0 < lb.0 {
            let x = (lb.0 - 1) as u32;
            assert(in_ranges(a, x)) by {
                assert(a[a.len() - 1].0 <= x <= a[a.len() - 1].1);
            }
            lemma_not_before_last(b);
            assert(!in_ranges(b, x));
        } else if lb.0 < la.0 {
            let x = (la.0 - 1) as u32;
            assert(in_ranges(b, x)) by {
                assert(b[b.len() - 1].0 <= x <= b[b.len() - 1].1);
            }
            lemma_not_before_last(a);
            assert(!in_ranges(a, x));
        }
        let a1 = a.drop_last();
        let b1 = b.drop_last();
        assert forall|x: u32| #[trigger] in_ranges(a1, x) <==> in_ranges(b1, x) by {
            assert(in_ranges(a, x) <==> in_ranges(b, x));
            lemma_drop_last(a, x);
            lemma_drop_last(b, x);
        }
        law_canonical_is_unique(a1, b1);
        assert(a =~= a1.push(la));
        assert(b =~= b1.push(lb));
    }
}

/// Nothing lies beyond the last of ascending ranges, and the end of the last lies in it.
proof fn lemma_in_last(s: Seq<(u32, u32)>, x: u32)
    requires
        ascending(s),
        s.len() > 0,
    ensures
        in_ranges(s, x) ==> x <= s.last().1,
        in_ranges(s, s.last().1),
{
    let n = s.len() - 1;
    assert(s[n].0 <= s[n].1);
    if in_ranges(s, x) {
        let i = choose|i: int| 0 <= i < s.len() && (#[trigger] s[i]).0 <= x <= s[i].1;
        if i < n {
            assert(s[i].1 < s[n].0);
        }
    }
}

/// The number before the last of canonical ranges lies in none of them.
proof fn lemma_not_before_last(s: Seq<(u32, u32)>)
    requires
        canonical(s),
        s.len() > 0,
        s.last().0 > 0,
    ensures
        !in_ranges(s, (s.last().0 - 1) as u32),
{
    let n = s.len() - 1;
    let x = (s.last().0 - 1) as u32;
    if in_ranges(s, x) {
        let i = choose|i: int| 0 <= i < s.len() && (#[trigger] s[i]).0 <= x <= s[i].1;
        if i < n {
            assert(s[i].1 + 1 < s[n].0);
        }
    }
}

/// What lies in all ascending ranges but the last.
proof fn lemma_drop_last(s: Seq<(u32, u32)>, x: u32)
    requires
        ascending(s),
        s.len() > 0,
    ensures
        in_ranges(s.drop_last(), x) <==> in_ranges(s, x) && x < s.last().0,
{
    let t = s.drop_last();
    let n = s.len() - 1;
    assert(s =~= t + seq![s.last()]);
    lemma_in_concat(t, seq![s.last()], x);
    lemma_in_few(seq![s.last()], x);
    if in_ranges(t, x) {
        let i = choose|i: int| 0 <= i < t.len() && (#[trigger] t[i]).0 <= x <= t[i].1;
        assert(s[i].1 < s[n].0);
    }
}

/// The given numbers as ranges of one, in ascending order, each once.
fn single_ranges(uids: &[u32]) -> (r: Vec<(u32, u32)>)
    ensures
        ascending(r@),
        forall|x: u32| #[trigger] in_ranges(r@, x) <==> uids@.contains(x),
{
    let mut out: Vec<(u32, u32)> = Vec::new();
    let mut i: usize = 0;
    while i < uids.len()
        invariant
            i <= uids@.len(),
            ascending(out@),
            forall|k: int| 0 <= k < out@.len() ==> (#[trigger] out@[k]).0 == out@[k].1,
            forall|x: u32| #[trigger]
                in_ranges(out@, x) <==> uids@.take(i as int).contains(x),
        decreases uids@.len() - i,
    {
        let u = uids[i];
        let mut j: usize = out.len();
        while j > 0 && u < out[j - 1].0
            invariant
                j <= out@.len(),
                ascending(out@),
                forall|k: int| j <= k < out@.len() ==> u < (#[trigger] out@[k]).0,
            decreases j,
        {
            j -= 1;
        }
        let ghost before = out@;
        if j == 0 || out[j - 1].0 < u {
            out.insert(j, (u, u));
            proof {
                let left = before.take(j as int);
                let right = before.skip(j as int);
                assert(before =~= left + right);
                assert(out@ =~= left + (seq![(u, u)] + right));
                assert forall|x: u32| #[trigger] in_ranges(out@, x) <==> in_ranges(before, x) || x
                    == u by {
                    lemma_in_concat(left, right, x);
                    lemma_in_concat(left, seq![(u, u)] + right, x);
                    lemma_in_concat(seq![(u, u)], right, x);
                    lemma_in_few(seq![(u, u)], x);
                }
                assert forall|k: int| 0 <= k < j implies (#[trigger] before[k]).1 < u by {
                    if k < j - 1 {
                        assert(before[k].1 < before[j - 1].0);
                    }
                }
                assert forall|a: int, b: int| 0 <= a < b < out@.len() implies (#[trigger] out@[a]).1
                    < (#[trigger] out@[b]).0 by {
                    let a0 = if a < j {
                        a
                    } else {
                        a - 1
                    };
                    let b0 = if b < j {
                        b
                    } else {
                        b - 1
                    };
                    if a != j && b != j {
                        assert(before[a0].1 < before[b0].0);
                    }
                }
            }
        } else {
            assert(before[j - 1].0 <= u <= before[j - 1].1);
            assert(in_ranges(before, u));
        }
        proof {
            let t = uids@.take(i as int);
            assert(uids@.take(i + 1) =~= t.push(u));
            assert forall|x: u32| #[trigger] in_ranges(out@, x) <==> uids@.take(i + 1).contains(
                x,
            ) by {
                crate::assoc::lemma_push_contains(t, u, x);
                assert(in_ranges(before, x) <==> t.contains(x));
            }
        }
        i += 1;
    }
    assert(uids@.take(i as int) =~= uids@);
    out
}

/// The users whose traffic is kept from the interface, as ranges that are as few as can be.
pub fn build_excluded_uid_ranges(included: &[u32], excluded: &[u32]) -> (r: Vec<(u32, u32)>)
    ensures
        canonical(r@),
        forall|x: u32| #[trigger] in_ranges(r@, x) <==> excluded_uid(included@, excluded@, x),
{
    let include_ranges = single_ranges(included);
    let exclude_ranges = single_ranges(excluded);
    let ghost inc = include_ranges@;
    let ghost exc = exclude_ranges@;
    if include_ranges.len() > 0 {
        let effective = subtract_ranges(include_ranges, exclude_ranges.as_slice());
        let outside = complement_ranges(effective.as_slice(), 0, UID_MAX);
        proof {
            law_subtract_is_difference(inc, exc);
            law_gaps_are_complement(effective@, 0, UID_MAX);
            law_merge_is_canonical(outside@);
            assert(inc[0].0 <= inc[0].0 <= inc[0].1);
            assert(in_ranges(inc, inc[0].0));
            assert(included@.contains(inc[0].0));
        }
        let r = merge_ranges(outside);
        proof {
            assert forall|x: u32| #[trigger] in_ranges(r@, x) <==> excluded_uid(
                included@,
                excluded@,
                x,
            ) by {
                assert(in_ranges(r@, x) <==> in_ranges(outside@, x));
                assert(in_ranges(outside@, x) <==> x <= UID_MAX && !in_ranges(effective@, x));
                assert(in_ranges(effective@, x) <==> in_ranges(inc, x) && !in_ranges(exc, x));
            }
        }
        r
    } else {
        proof {
            law_merge_is_canonical(exc);
            if included@.len() > 0 {
                assert(included@.contains(included@[0]));
                assert(in_ranges(inc, included@[0]));
            }
        }
        let r = merge_ranges(exclude_ranges);
        proof {
            assert forall|x: u32| #[trigger] in_ranges(r@, x) <==> excluded_uid(
                included@,
                excluded@,
                x,
            ) by {
                assert(in_ranges(r@, x) <==> in_ranges(exc, x));
            }
        }
        r
    }
}

/// The ranges of users whose traffic is kept out hold every user who is excluded, and, where users
/// are listed, everyone who is not; they are in order, with gaps between them.
pub proof fn law_excluded_users_are_ranged(
    included: &[u32],
    excluded: &[u32],
    r: Vec<(u32, u32)>,
    uid: u32,
)
    requires
        call_ensures(build_excluded_uid_ranges, (included, excluded), r),
    ensures
        (exists|i: int| 0 <= i < r@.len() && (#[trigger] r@[i]).0 <= uid <= r@[i].1) <==> {
            if included@.len() == 0 {
                excluded@.contains(uid)
            } else {
                uid != 0xffff_ffff && (!included@.contains(uid) || excluded@.contains(uid))
            }
        },
        forall|i: int, j: int|
            0 <= i < j < r@.len() ==> (#[trigger] r@[i]).1 + 1 < (#[trigger] r@[j]).0,
        forall|i: int| 0 <= i < r@.len() ==> (#[trigger] r@[i]).0 <= r@[i].1,
{
    assert(in_ranges(r@, uid) <==> excluded_uid(included@, excluded@, uid));
}

/// Taking ranges out of ranges leaves what is in the first and not in the second.
pub proof fn law_ranges_are_subtracted(
    base: Vec<(u32, u32)>,
    sub: &[(u32, u32)],
    r: Vec<(u32, u32)>,
    x: u32,
)
    requires
        call_ensures(subtract_ranges, (base, sub), r),
        nonempty(base@),
        nonempty(sub@),
    ensures
        in_ranges(r@, x) <==> in_ranges(base@, x) && !in_ranges(sub@, x),
{
    law_subtract_is_difference(base@, sub@);
}

/// Merging ranges keeps what is in them, in order and with gaps between them.
pub proof fn law_ranges_are_merged(ranges: Vec<(u32, u32)>, r: Vec<(u32, u32)>, x: u32)
    requires
        call_ensures(merge_ranges, (ranges,), r),
        nonempty(ranges@),
    ensures
        in_ranges(r@, x) <==> in_ranges(ranges@, x),
        forall|i: int, j: int|
            0 <= i < j < r@.len() ==> (#[trigger] r@[i]).1 + 1 < (#[trigger] r@[j]).0,
        forall|i: int| 0 <= i < r@.len() ==> (#[trigger] r@[i]).0 <= r@[i].1,
{
    law_merge_is_canonical(ranges@);
}

/// The complement of ranges in order holds what lies between the bounds and in none of them.
pub proof fn law_ranges_are_complemented(
    ranges: &[(u32, u32)],
    lo: u32,
    hi: u32,
    r: Vec<(u32, u32)>,
    x: u32,
)
    requires
        call_ensures(complement_ranges, (ranges, lo, hi), r),
        ascending(ranges@),
        hi < u32::MAX,
        forall|i: int| 0 <= i < ranges@.len() ==> lo <= (#[trigger] ranges@[i]).0 <= hi + 1,
    ensures
        in_ranges(r@, x) <==> lo <= x <= hi && !in_ranges(ranges@, x),
{
    law_gaps_are_complement(ranges@, lo, hi);
}

} // verus!
