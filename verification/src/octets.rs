//! Big-endian octets of natural numbers.
use vstd::prelude::*;

verus! {

/// Two hundred and fifty-six to the power of `n`.
pub open spec fn pow256(n: nat) -> nat
    decreases n,
{
    if n == 0 {
        1
    } else {
        256 * pow256((n - 1) as nat)
    }
}

/// The `n` low octets of `v`, most significant first.
pub open spec fn be_bytes(v: nat, n: nat) -> Seq<u8>
    decreases n,
{
    if n == 0 {
        Seq::empty()
    } else {
        be_bytes(v / 256, (n - 1) as nat).push((v % 256) as u8)
    }
}

/// The number whose octets are `s`, most significant first.
pub open spec fn be_nat(s: Seq<u8>) -> nat
    decreases s.len(),
{
    if s.len() == 0 {
        0
    } else {
        be_nat(s.drop_last()) * 256 + s.last() as nat
    }
}

/// `s` with the octets from `at` on overwritten by `bytes`.
pub open spec fn overwrite(s: Seq<u8>, at: int, bytes: Seq<u8>) -> Seq<u8> {
    Seq::new(
        s.len(),
        |i: int|
            if at <= i < at + bytes.len() {
                bytes[i - at]
            } else {
                s[i]
            },
    )
}

pub proof fn lemma_be_bytes_len(v: nat, n: nat)
    ensures
        be_bytes(v, n).len() == n,
    decreases n,
{
    if n > 0 {
        lemma_be_bytes_len(v / 256, (n - 1) as nat);
    }
}

/// A number is the value of its own octets.
pub proof fn lemma_be_nat_of_be_bytes(v: nat, n: nat)
    requires
        v < pow256(n),
    ensures
        be_nat(be_bytes(v, n)) == v,
    decreases n,
{
    lemma_be_bytes_len(v, n);
    if n > 0 {
        lemma_be_nat_of_be_bytes(v / 256, (n - 1) as nat);
        assert(be_bytes(v, n).drop_last() =~= be_bytes(v / 256, (n - 1) as nat));
    }
}

/// Octets are the octets of their own value.
pub proof fn lemma_be_bytes_of_be_nat(s: Seq<u8>)
    ensures
        be_bytes(be_nat(s), s.len()) == s,
        be_nat(s) < pow256(s.len()),
    decreases s.len(),
{
    if s.len() > 0 {
        lemma_be_bytes_of_be_nat(s.drop_last());
        assert((be_nat(s.drop_last()) * 256 + s.last() as nat) / 256 == be_nat(s.drop_last()));
        assert(s.drop_last().push(s.last()) =~= s);
    } else {
        assert(be_bytes(0, 0) =~= s);
    }
}

/// The powers that bound the integer widths in use.
pub proof fn lemma_pow256_widths()
    ensures
        pow256(1) == 0x100,
        pow256(2) == 0x1_0000,
        pow256(4) == 0x1_0000_0000,
        pow256(16) == 0x1_0000_0000_0000_0000_0000_0000_0000_0000,
{
    reveal_with_fuel(pow256, 17);
}

/// The two octets of a sixteen-bit number.
pub proof fn lemma_be_bytes_2(v: nat)
    ensures
        be_bytes(v, 2) =~= seq![((v / 256) % 256) as u8, (v % 256) as u8],
{
    reveal_with_fuel(be_bytes, 3);
}

/// Appending octets shifts the value of those before them.
pub proof fn lemma_be_nat_push(s: Seq<u8>, b: u8)
    ensures
        be_nat(s.push(b)) == be_nat(s) * 256 + b,
{
    assert(s.push(b).drop_last() =~= s);
}

/// Reads the number whose octets are at `from..from + n`.
pub fn read_be(s: &[u8], from: usize, n: usize) -> (r: u128)
    requires
        n <= 16,
        from + n <= s@.len(),
    ensures
        r == be_nat(s@.subrange(from as int, from + n)),
        r < pow256(n as nat),
{
    let len = s.len();
    let mut acc: u128 = 0;
    let mut i: usize = 0;
    while i < n
        invariant
            n <= 16,
            i <= n,
            from + n <= s@.len(),
            len == s@.len(),
            acc == be_nat(s@.subrange(from as int, from + i)),
        decreases n - i,
    {
        let ghost head = s@.subrange(from as int, from + i);
        proof {
            lemma_be_bytes_of_be_nat(head);
            lemma_be_bytes_of_be_nat(head.push(s@[from + i]));
            lemma_be_nat_push(head, s@[from + i]);
            lemma_pow256_mono(i + 1, 16);
            lemma_pow256_widths();
            assert(head.push(s@[from + i]) =~= s@.subrange(from as int, from + i + 1));
        }
        acc = acc * 256 + s[from + i] as u128;
        i += 1;
    }
    proof {
        lemma_be_bytes_of_be_nat(s@.subrange(from as int, from + n));
    }
    acc
}

pub proof fn lemma_pow256_mono(a: int, b: int)
    requires
        0 <= a <= b,
    ensures
        1 <= pow256(a as nat) <= pow256(b as nat),
    decreases b,
{
    if a < b {
        lemma_pow256_mono(a, b - 1);
    } else if a > 0 {
        lemma_pow256_mono(a - 1, b - 1);
    }
}

/// The `n` low octets of a number.
pub fn octets_of(v: u128, n: usize) -> (r: Vec<u8>)
    ensures
        r@ == be_bytes(v as nat, n as nat),
    decreases n,
{
    if n == 0 {
        Vec::new()
    } else {
        let mut out = octets_of(v / 256, n - 1);
        out.push((v % 256) as u8);
        out
    }
}

/// Overwrites the octets of `out` from `at` on.
pub fn write_at(out: &mut Vec<u8>, at: usize, bytes: &[u8])
    requires
        at + bytes@.len() <= old(out)@.len(),
    ensures
        final(out)@ == overwrite(old(out)@, at as int, bytes@),
{
    let len = out.len();
    let mut i: usize = 0;
    while i < bytes.len()
        invariant
            i <= bytes@.len(),
            at + bytes@.len() <= out@.len(),
            len == out@.len(),
            out@ == overwrite(old(out)@, at as int, bytes@.take(i as int)),
        decreases bytes@.len() - i,
    {
        out.set(at + i, bytes[i]);
        i += 1;
        assert(out@ =~= overwrite(old(out)@, at as int, bytes@.take(i as int)));
    }
    assert(bytes@.take(bytes@.len() as int) =~= bytes@);
}

} // verus!
