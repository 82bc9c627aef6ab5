//! Text at the level of characters: numerals, comparison, searching.
use vstd::prelude::*;

verus! {

/// `String::push` appends one character to the end of the string.
pub assume_specification[ String::push ](s: &mut String, c: char)
    ensures
        final(s)@ == old(s)@.push(c),
;

/// The character that stands for the digit `d` in bases up to sixteen, letters in lower case.
pub open spec fn digit_char(d: nat) -> char {
    if d < 10 {
        (48 + d) as char
    } else {
        (87 + d) as char
    }
}

/// The numeral of `n` in the given base, most significant digit first, without leading zeros.
pub open spec fn numeral(n: nat, base: nat) -> Seq<char>
    decreases n,
{
    if base < 2 || n < base {
        seq![digit_char(n)]
    } else {
        proof {
            vstd::arithmetic::div_mod::lemma_div_decreases(n as int, base as int);
        }
        numeral(n / base, base).push(digit_char(n % base))
    }
}

/// The decimal numeral of `n`.
pub open spec fn decimal(n: nat) -> Seq<char> {
    numeral(n, 10)
}

/// The decimal numeral of an integer, with a minus sign where it is negative.
pub open spec fn signed_decimal(n: int) -> Seq<char> {
    if n < 0 {
        seq!['-'] + decimal((-n) as nat)
    } else {
        decimal(n as nat)
    }
}

/// The value of a character as a digit of the given base, letters in either case.
pub open spec fn digit_value(c: char, base: nat) -> Option<nat> {
    let v: int = if '0' <= c <= '9' {
        c as int - 48
    } else if 'a' <= c <= 'f' {
        c as int - 87
    } else if 'A' <= c <= 'F' {
        c as int - 55
    } else {
        16
    };
    if v < base && v < 16 {
        Some(v as nat)
    } else {
        None
    }
}

/// The number that a sequence of digits denotes; the empty sequence denotes zero.
pub open spec fn digits_value(s: Seq<char>, base: nat) -> Option<nat>
    decreases s.len(),
{
    if s.len() == 0 {
        Some(0)
    } else {
        match (digits_value(s.drop_last(), base), digit_value(s.last(), base)) {
            (Some(v), Some(d)) => Some(v * base + d),
            _ => None,
        }
    }
}

/// An unsigned decimal integer: an optional plus sign, at least one digit, and a value that is
/// no greater than `max`.
pub open spec fn unsigned_value(s: Seq<char>, max: nat) -> Option<nat> {
    let body = if s.len() > 0 && s[0] == '+' {
        s.skip(1)
    } else {
        s
    };
    if body.len() == 0 {
        None
    } else {
        match digits_value(body, 10) {
            Some(v) => if v <= max {
                Some(v)
            } else {
                None
            },
            None => None,
        }
    }
}

/// The position of the first `c` in `s`, or the length of `s` where there is none.
pub open spec fn position(s: Seq<char>, c: char) -> nat
    decreases s.len(),
{
    if s.len() == 0 || s[0] == c {
        0
    } else {
        1 + position(s.skip(1), c)
    }
}

/// The position of the first two adjacent `c` in `s`, or the length of `s` where there are none.
pub open spec fn pair_position(s: Seq<char>, c: char) -> nat
    decreases s.len(),
{
    if s.len() < 2 {
        s.len()
    } else if s[0] == c && s[1] == c {
        0
    } else {
        1 + pair_position(s.skip(1), c)
    }
}

/// The parts of `s` between the occurrences of `c`; there is always at least one.
pub open spec fn split(s: Seq<char>, c: char) -> Seq<Seq<char>>
    decreases s.len(),
{
    let p = position(s, c);
    if p < s.len() {
        seq![s.take(p as int)] + split(s.skip(p as int + 1), c)
    } else {
        seq![s]
    }
}

/// The contents of each of several character vectors.
pub open spec fn char_views(v: Seq<Vec<char>>) -> Seq<Seq<char>> {
    v.map_values(|x: Vec<char>| x@)
}

/// Whether a character has the Unicode property White_Space.
pub open spec fn white_space(c: char) -> bool {
    ||| 0x09 <= c as u32 <= 0x0d
    ||| c as u32 == 0x20
    ||| c as u32 == 0x85
    ||| c as u32 == 0xa0
    ||| c as u32 == 0x1680
    ||| 0x2000 <= c as u32 <= 0x200a
    ||| c as u32 == 0x2028
    ||| c as u32 == 0x2029
    ||| c as u32 == 0x202f
    ||| c as u32 == 0x205f
    ||| c as u32 == 0x3000
}

/// A prefix that already exceeds `max` cannot be brought back by more digits.
proof fn lemma_digits_grow(s: Seq<char>, k: int, base: nat, max: nat)
    requires
        0 <= k <= s.len(),
        base >= 1,
        match digits_value(s.take(k), base) {
            Some(v) => v > max,
            None => true,
        },
    ensures
        match digits_value(s, base) {
            Some(v) => v > max,
            None => true,
        },
    decreases s.len() - k,
{
    if k == s.len() {
        assert(s.take(k) =~= s);
    } else {
        let t = s.take(k + 1);
        assert(t.drop_last() =~= s.take(k));
        if let Some(v) = digits_value(s.take(k), base) {
            assert(v * base >= v) by (nonlinear_arith)
                requires
                    base >= 1,
            ;
        }
        lemma_digits_grow(s, k + 1, base, max);
    }
}

/// What `position` finds.
pub proof fn lemma_position(s: Seq<char>, c: char)
    ensures
        position(s, c) <= s.len(),
        position(s, c) < s.len() ==> s[position(s, c) as int] == c,
        forall|i: int| 0 <= i < position(s, c) ==> s[i] != c,
    decreases s.len(),
{
    if s.len() > 0 && s[0] != c {
        lemma_position(s.skip(1), c);
        assert forall|i: int| 0 <= i < position(s, c) implies s[i] != c by {
            if i > 0 {
                assert(s[i] == s.skip(1)[i - 1]);
            }
        }
    }
}

/// `position` is pinned down by what it finds.
pub proof fn lemma_position_unique(s: Seq<char>, c: char, k: int)
    requires
        0 <= k <= s.len(),
        k < s.len() ==> s[k] == c,
        forall|i: int| 0 <= i < k ==> s[i] != c,
    ensures
        position(s, c) == k,
{
    lemma_position(s, c);
    if position(s, c) < k {
        assert(s[position(s, c) as int] != c);
    }
}

/// A numeral has digits only, does not start with zero unless it is zero, and denotes the number
/// that it was made from.
pub proof fn law_numeral_reads_back(n: nat, base: nat)
    requires
        2 <= base <= 16,
    ensures
        numeral(n, base).len() >= 1,
        forall|i: int|
            0 <= i < numeral(n, base).len() ==> digit_value(#[trigger] numeral(n, base)[i], base)
                is Some,
        n > 0 ==> numeral(n, base)[0] != '0',
        digits_value(numeral(n, base), base) == Some(n),
    decreases n,
{
    let s = numeral(n, base);
    if n < base {
        assert(s.drop_last() =~= Seq::<char>::empty());
        assert(digits_value(s.drop_last(), base) == Some(0nat));
        assert(0nat * base == 0) by (nonlinear_arith);
        assert(digit_value(s.last(), base) == Some(n));
    } else {
        vstd::arithmetic::div_mod::lemma_div_decreases(n as int, base as int);
        vstd::arithmetic::div_mod::lemma_mod_bound(n as int, base as int);
        vstd::arithmetic::div_mod::lemma_fundamental_div_mod(n as int, base as int);
        vstd::arithmetic::div_mod::lemma_div_non_zero(n as int, base as int);
        let q = n / base;
        law_numeral_reads_back(q, base);
        let t = numeral(q, base);
        assert(s.drop_last() =~= t);
        assert forall|i: int| 0 <= i < s.len() implies digit_value(#[trigger] s[i], base) is Some by {
            if i < t.len() {
                assert(s[i] == t[i]);
            }
        }
        assert(s[0] == t[0]);
        assert(q * base == base * q) by (nonlinear_arith);
        assert(digit_value(s.last(), base) == Some(n % base));
    }
}

/// How long a numeral is.
pub proof fn lemma_numeral_len(n: nat)
    ensures
        n < 1000 ==> numeral(n, 10).len() <= 3,
        n < 0x1_0000 ==> numeral(n, 16).len() <= 4,
{
    reveal_with_fuel(numeral, 4);
}

/// A part without the separator stands alone.
pub proof fn lemma_split_one(a: Seq<char>, c: char)
    requires
        forall|i: int| 0 <= i < a.len() ==> a[i] != c,
    ensures
        split(a, c) == seq![a],
{
    lemma_position_unique(a, c, a.len() as int);
}

/// A part without the separator comes before the rest.
pub proof fn lemma_split_first(a: Seq<char>, c: char, rest: Seq<char>)
    requires
        forall|i: int| 0 <= i < a.len() ==> a[i] != c,
    ensures
        split(a + seq![c] + rest, c) == seq![a] + split(rest, c),
{
    let s = a + seq![c] + rest;
    lemma_position_unique(s, c, a.len() as int);
    assert(s.take(a.len() as int) =~= a);
    assert(s.skip(a.len() as int + 1) =~= rest);
}

/// A numeral is not empty and has only digits.
pub proof fn lemma_numeral_chars(n: nat, base: nat, c: char)
    requires
        2 <= base <= 16,
        digit_value(c, base) is None,
    ensures
        numeral(n, base).len() > 0,
        forall|i: int| 0 <= i < numeral(n, base).len() ==> #[trigger] numeral(n, base)[i] != c,
{
    law_numeral_reads_back(n, base);
    assert forall|i: int| 0 <= i < numeral(n, base).len() implies #[trigger] numeral(n, base)[i]
        != c by {
        assert(digit_value(numeral(n, base)[i], base) is Some);
    }
}

/// The numeral of an integer holds digits and a minus sign only.
pub proof fn lemma_signed_chars(n: int, c: char)
    requires
        digit_value(c, 10) is None,
        c != '-',
    ensures
        forall|i: int| 0 <= i < signed_decimal(n).len() ==> signed_decimal(n)[i] != c,
{
    lemma_numeral_chars(
        if n < 0 {
            (-n) as nat
        } else {
            n as nat
        },
        10,
        c,
    );
}

/// No two integers have the same numeral.
pub proof fn law_signed_numerals_differ(a: int, b: int)
    requires
        signed_decimal(a) == signed_decimal(b),
    ensures
        a == b,
{
    let m = if a < 0 {
        (-a) as nat
    } else {
        a as nat
    };
    let n = if b < 0 {
        (-b) as nat
    } else {
        b as nat
    };
    law_numeral_reads_back(m, 10);
    law_numeral_reads_back(n, 10);
    assert(digit_value(decimal(m)[0], 10) is Some);
    assert(digit_value(decimal(n)[0], 10) is Some);
    if a < 0 {
        assert(signed_decimal(a)[0] == '-');
        assert(b < 0);
        assert(signed_decimal(a).skip(1) =~= decimal(m));
        assert(signed_decimal(b).skip(1) =~= decimal(n));
    } else {
        if b < 0 {
            assert(signed_decimal(b)[0] == '-');
        }
    }
}

/// The parts of two texts with a separator between them.
pub proof fn lemma_split_concat(a: Seq<char>, c: char, b: Seq<char>)
    ensures
        split(a + seq![c] + b, c) == split(a, c) + split(b, c),
    decreases a.len(),
{
    lemma_position(a, c);
    let p = position(a, c) as int;
    if p < a.len() {
        let head = a.take(p);
        let rest = a.skip(p + 1);
        lemma_split_concat(rest, c, b);
        assert(a + seq![c] + b =~= head + seq![c] + (rest + seq![c] + b));
        lemma_split_first(head, c, rest + seq![c] + b);
        assert(split(a, c) == seq![head] + split(rest, c));
        assert(seq![head] + (split(rest, c) + split(b, c)) =~= (seq![head] + split(rest, c)) + split(
            b,
            c,
        ));
    } else {
        lemma_split_first(a, c, b);
        assert(split(a, c) == seq![a]);
    }
}

/// Where the first two adjacent `c` stand.
pub proof fn lemma_pair_position(s: Seq<char>, c: char, k: int)
    requires
        0 <= k <= s.len(),
        k < s.len() ==> k + 1 < s.len() && s[k] == c && s[k + 1] == c,
        forall|i: int| 0 <= i < k && i + 1 < s.len() ==> !(#[trigger] s[i] == c && s[i + 1] == c),
    ensures
        pair_position(s, c) == k,
    decreases s.len(),
{
    if s.len() >= 2 && k > 0 {
        let t = s.skip(1);
        assert(!(s[0] == c && s[1] == c));
        assert forall|i: int| 0 <= i < k - 1 && i + 1 < t.len() implies !(#[trigger] t[i] == c && t[i
            + 1] == c) by {
            assert(t[i] == s[i + 1] && t[i + 1] == s[i + 2]);
        }
        if k < s.len() {
            assert(t[k - 1] == s[k] && t[k] == s[k + 1]);
        }
        lemma_pair_position(t, c, k - 1);
    }
}

/// The characters of a string.
pub fn chars_of(s: &str) -> (r: Vec<char>)
    ensures
        r@ == s@,
{
    let mut out: Vec<char> = Vec::new();
    for c in it: s.chars()
        invariant
            out@ == it.seq().take(it.index()),
            it.seq() == s@,
    {
        out.push(c);
        assert(it.seq().take(it.index() + 1) =~= it.seq().take(it.index()).push(c));
    }
    assert(s@.take(s@.len() as int) =~= s@);
    out
}

/// Whether two strings hold the same characters.
pub fn str_eq(a: &str, b: &str) -> (r: bool)
    ensures
        r == (a@ == b@),
{
    let x = chars_of(a);
    let y = chars_of(b);
    if x.len() != y.len() {
        return false;
    }
    let mut i: usize = 0;
    while i < x.len()
        invariant
            x@ == a@,
            y@ == b@,
            x@.len() == y@.len(),
            i <= x@.len(),
            forall|k: int| 0 <= k < i ==> x@[k] == y@[k],
        decreases x@.len() - i,
    {
        if x[i] != y[i] {
            assert(a@[i as int] != b@[i as int]);
            return false;
        }
        i += 1;
    }
    assert(a@ =~= b@);
    true
}

/// The first position of `c`, or the length where there is none.
pub fn find_char(s: &[char], c: char) -> (r: usize)
    ensures
        r == position(s@, c),
{
    let mut i: usize = 0;
    while i < s.len()
        invariant
            i <= s@.len(),
            forall|k: int| 0 <= k < i ==> s@[k] != c,
        decreases s@.len() - i,
    {
        if s[i] == c {
            proof {
                lemma_position_unique(s@, c, i as int);
            }
            return i;
        }
        i += 1;
    }
    proof {
        lemma_position_unique(s@, c, i as int);
    }
    i
}

/// The first position of two adjacent `c`, or the length where there are none.
pub fn find_pair(s: &[char], c: char) -> (r: usize)
    ensures
        r == pair_position(s@, c),
        r <= s@.len(),
        r < s@.len() ==> r + 1 < s@.len(),
{
    let mut i: usize = 0;
    let len = s.len();
    assert(s@.skip(0) =~= s@);
    while i < len && len - i >= 2
        invariant
            i <= len,
            len == s@.len(),
            pair_position(s@, c) == i + pair_position(s@.skip(i as int), c),
        decreases len - i,
    {
        if s[i] == c && s[i + 1] == c {
            return i;
        }
        assert(s@.skip(i as int).skip(1) =~= s@.skip(i + 1));
        i += 1;
    }
    len
}

/// Splits at each `c`.
pub fn split_chars(s: &[char], c: char) -> (r: Vec<Vec<char>>)
    ensures
        char_views(r@) == split(s@, c),
        r@.len() >= 1,
{
    let len = s.len();
    let mut out: Vec<Vec<char>> = Vec::new();
    let mut from: usize = 0;
    assert(s@.skip(0) =~= s@);
    assert(char_views(out@) + split(s@, c) =~= split(s@, c));
    loop
        invariant
            from <= len,
            len == s@.len(),
            char_views(out@) + split(s@.skip(from as int), c) == split(s@, c),
        decreases len - from,
    {
        let rest = vstd::slice::slice_subrange(s, from, len);
        assert(rest@ =~= s@.skip(from as int));
        let p = find_char(rest, c);
        proof {
            lemma_position(rest@, c);
        }
        let ghost before = out@;
        let part = vstd::slice::slice_to_vec(vstd::slice::slice_subrange(rest, 0, p));
        assert(part@ =~= rest@.take(p as int));
        out.push(part);
        assert(char_views(out@) =~= char_views(before).push(rest@.take(p as int)));
        if p == rest.len() {
            assert(rest@.take(p as int) =~= rest@);
            assert(char_views(out@) =~= char_views(before) + split(rest@, c));
            return out;
        }
        proof {
            let tail = split(rest@.skip(p + 1), c);
            assert(rest@.skip(p + 1) =~= s@.skip(from + p + 1));
            assert(split(rest@, c) =~= seq![rest@.take(p as int)] + tail);
            assert(char_views(before) + split(rest@, c) =~= char_views(out@) + tail);
        }
        from = from + p + 1;
    }
}

/// The value of a digit in a base of at most sixteen.
pub fn digit_of(c: char, base: u64) -> (r: Option<u64>)
    ensures
        r is Some <==> digit_value(c, base as nat) is Some,
        r matches Some(d) ==> d == digit_value(c, base as nat)->0 && d < base && d < 16,
{
    let v: u64 = if '0' <= c && c <= '9' {
        c as u64 - 48
    } else if 'a' <= c && c <= 'f' {
        c as u64 - 87
    } else if 'A' <= c && c <= 'F' {
        c as u64 - 55
    } else {
        16
    };
    if v < base && v < 16 {
        Some(v)
    } else {
        None
    }
}

/// The value of a run of digits, if all of them are digits of the base and the value is no
/// greater than `max`.
pub fn parse_digits(s: &[char], base: u64, max: u64) -> (r: Option<u64>)
    requires
        1 <= base <= 16,
    ensures
        match r {
            Some(v) => digits_value(s@, base as nat) == Some(v as nat) && v <= max,
            None => match digits_value(s@, base as nat) {
                Some(v) => v > max,
                None => true,
            },
        },
{
    let mut acc: u64 = 0;
    let mut i: usize = 0;
    while i < s.len()
        invariant
            1 <= base <= 16,
            i <= s@.len(),
            acc <= max,
            digits_value(s@.take(i as int), base as nat) == Some(acc as nat),
        decreases s@.len() - i,
    {
        let ghost t = s@.take(i + 1);
        assert(t.drop_last() =~= s@.take(i as int));
        assert(t.last() == s@[i as int]);
        match digit_of(s[i], base) {
            Some(d) => {
                assert(0 <= acc * base <= 0x10_0000_0000_0000_0000) by (nonlinear_arith)
                    requires
                        0 <= acc <= u64::MAX,
                        1 <= base <= 16,
                ;
                let wide: u128 = (acc as u128) * (base as u128) + (d as u128);
                if wide > max as u128 {
                    proof {
                        lemma_digits_grow(s@, i + 1, base as nat, max as nat);
                    }
                    return None;
                }
                acc = wide as u64;
            },
            None => {
                proof {
                    lemma_digits_grow(s@, i + 1, base as nat, max as nat);
                }
                return None;
            },
        }
        i += 1;
    }
    assert(s@.take(s@.len() as int) =~= s@);
    Some(acc)
}

/// Parses an unsigned decimal integer that is no greater than `max`.
pub fn parse_unsigned(s: &[char], max: u64) -> (r: Option<u64>)
    ensures
        match r {
            Some(v) => unsigned_value(s@, max as nat) == Some(v as nat),
            None => unsigned_value(s@, max as nat) is None,
        },
{
    let from: usize = if s.len() > 0 && s[0] == '+' {
        1
    } else {
        0
    };
    let body = vstd::slice::slice_subrange(s, from, s.len());
    assert(from == 0 ==> body@ =~= s@);
    assert(from == 1 ==> body@ =~= s@.skip(1));
    if body.len() == 0 {
        return None;
    }
    parse_digits(body, 10, max)
}

/// Whether a character is white space.
pub fn is_white_space(c: char) -> (r: bool)
    ensures
        r == white_space(c),
{
    let u = c as u32;
    (0x09 <= u && u <= 0x0d) || u == 0x20 || u == 0x85 || u == 0xa0 || u == 0x1680 || (0x2000 <= u
        && u <= 0x200a) || u == 0x2028 || u == 0x2029 || u == 0x202f || u == 0x205f || u == 0x3000
}

/// Appends the numeral of `n` in the given base.
pub fn push_numeral(out: &mut String, n: u64, base: u64)
    requires
        2 <= base <= 16,
    ensures
        final(out)@ == old(out)@ + numeral(n as nat, base as nat),
    decreases n,
{
    proof {
        vstd::arithmetic::div_mod::lemma_mod_bound(n as int, base as int);
    }
    if n >= base {
        proof {
            vstd::arithmetic::div_mod::lemma_div_decreases(n as int, base as int);
        }
        push_numeral(out, n / base, base);
    } else {
        proof {
            vstd::arithmetic::div_mod::lemma_small_mod(n as nat, base as nat);
        }
    }
    let d: u8 = (n % base) as u8;
    let c: char = if d < 10 {
        (48 + d) as char
    } else {
        (87 + d) as char
    };
    out.push(c);
    assert(out@ =~= old(out)@ + numeral(n as nat, base as nat));
}

/// The decimal numeral of `n`.
pub fn decimal_text(n: u64) -> (r: String)
    ensures
        r@ == decimal(n as nat),
{
    let mut out: String = String::new();
    push_numeral(&mut out, n, 10);
    assert(out@ =~= decimal(n as nat));
    out
}

/// Appends the decimal numeral of an integer.
pub fn push_signed(out: &mut String, n: i64)
    ensures
        final(out)@ == old(out)@ + signed_decimal(n as int),
{
    if n < 0 {
        out.push('-');
        let m: u64 = if n == i64::MIN {
            0x8000_0000_0000_0000
        } else {
            (-n) as u64
        };
        push_numeral(out, m, 10);
    } else {
        push_numeral(out, n as u64, 10);
    }
    assert(out@ =~= old(out)@ + signed_decimal(n as int));
}

} // verus!
