//! Big-endian integers, and copies between slices, vectors and arrays.

use vstd::prelude::*;

verus! {

use vstd::arithmetic::div_mod::lemma_div_denominator;
use vstd::arithmetic::power::{lemma_pow0, lemma_pow_positive, lemma_pow_adds, lemma_pow1, pow};

/// 256 to the power `n`.
pub open spec fn pow256(n: nat) -> nat
    decreases n,
{
    if n == 0 {
        1
    } else {
        256 * pow256((n - 1) as nat)
    }
}

/// The `n` low-order bytes of `v`, most significant byte first.
pub open spec fn be(v: nat, n: nat) -> Seq<u8>
    decreases n,
{
    if n == 0 {
        Seq::empty()
    } else {
        be(v / 256, (n - 1) as nat).push((v % 256) as u8)
    }
}

/// The number whose bytes, most significant first, are `s`.
pub open spec fn be_value(s: Seq<u8>) -> nat
    decreases s.len(),
{
    if s.len() == 0 {
        0
    } else {
        be_value(s.drop_last()) * 256 + s.last() as nat
    }
}

pub broadcast proof fn lemma_be_len(v: nat, n: nat)
    ensures
        #[trigger] be(v, n).len() == n,
    decreases n,
{
    if n > 0 {
        lemma_be_len(v / 256, (n - 1) as nat);
    }
}

pub proof fn lemma_be_value_bound(s: Seq<u8>)
    ensures
        be_value(s) < pow256(s.len()),
    decreases s.len(),
{
    if s.len() > 0 {
        lemma_be_value_bound(s.drop_last());
    }
}

/// Reading back the `n` bytes of a number that fits in them gives the number.
pub proof fn lemma_be_value_of_be(v: nat, n: nat)
    requires
        v < pow256(n),
    ensures
        be_value(be(v, n)) == v,
    decreases n,
{
    if n > 0 {
        let rest = be(v / 256, (n - 1) as nat);
        lemma_be_value_of_be(v / 256, (n - 1) as nat);
        assert(be(v, n).drop_last() =~= rest);
    }
}

/// Writing the value of a byte string in as many bytes gives the string.
pub proof fn lemma_be_of_be_value(s: Seq<u8>)
    ensures
        be(be_value(s), s.len()) == s,
    decreases s.len(),
{
    if s.len() > 0 {
        lemma_be_of_be_value(s.drop_last());
        let head = be_value(s.drop_last());
        assert((head * 256 + s.last() as nat) / 256 == head);
        assert((head * 256 + s.last() as nat) % 256 == s.last() as nat);
        assert(be(be_value(s), s.len()) =~= s);
    } else {
        assert(be(be_value(s), s.len()) =~= s);
    }
}

/// How many values fit in 2, 4, 8 and 16 bytes.
pub proof fn lemma_pow256_widths()
    ensures
        pow256(2) == 0x1_0000,
        pow256(4) == 0x1_0000_0000,
        pow256(8) == 0x1_0000_0000_0000_0000,
        pow256(16) == 0x1_0000_0000_0000_0000_0000_0000_0000_0000,
{
    reveal_with_fuel(pow256, 17);
}

proof fn lemma_pow256_monotone(m: nat, n: nat)
    requires
        m <= n,
    ensures
        pow256(m) <= pow256(n),
    decreases n,
{
    if m < n {
        lemma_pow256_monotone(m, (n - 1) as nat);
    }
}

/// Appends the `n` low-order bytes of `v`, most significant byte first.
pub fn push_be(out: &mut Vec<u8>, v: u128, n: usize)
    requires
        n <= 16,
    ensures
        final(out)@ == old(out)@ + be(v as nat, n as nat),
    decreases n,
{
    if n > 0 {
        push_be(out, v / 256, n - 1);
        out.push((v % 256) as u8);
    }
}

/// Writes the `n` low-order bytes of `v`, most significant byte first, at
/// offset `at`.
pub fn store_be(out: &mut [u8], at: usize, v: u128, n: usize)
    requires
        n <= 16,
        at + n <= old(out)@.len(),
    ensures
        final(out)@ == old(out)@.take(at as int) + be(v as nat, n as nat) + old(out)@.skip(
            at + n,
        ),
    decreases n,
{
    broadcast use lemma_be_len;
    if n > 0 {
        store_be(out, at, v / 256, n - 1);
        assert(out@.len() == out.len());
        out[at + n - 1] = (v % 256) as u8;
    }
    assert(out@ =~= old(out)@.take(at as int) + be(v as nat, n as nat) + old(out)@.skip(at + n));
}

/// Reads a slice of at most 16 bytes as a number, most significant byte first.
pub fn read_be(buf: &[u8]) -> (v: u128)
    requires
        buf@.len() <= 16,
    ensures
        v == be_value(buf@),
{
    let mut v: u128 = 0;
    let mut i: usize = 0;
    while i < buf.len()
        invariant
            i <= buf@.len() <= 16,
            v == be_value(buf@.take(i as int)),
        decreases buf@.len() - i,
    {
        proof {
            let next = buf@.take(i + 1);
            assert(next.drop_last() =~= buf@.take(i as int));
            lemma_be_value_bound(next);
            lemma_pow256_monotone((i + 1) as nat, 16);
            lemma_pow256_widths();
        }
        v = v * 256 + buf[i] as u128;
        i += 1;
    }
    assert(buf@.take(i as int) =~= buf@);
    v
}

/// Copies a slice of `N` bytes into an array.
pub fn array_of<const N: usize>(s: &[u8]) -> (r: [u8; N])
    requires
        s@.len() == N,
    ensures
        r@ == s@,
{
    let mut r = [0u8; N];
    let mut i: usize = 0;
    while i < N
        invariant
            i <= N,
            s@.len() == N,
            forall|j: int| 0 <= j < i ==> r@[j] == s@[j],
        decreases N - i,
    {
        r[i] = s[i];
        i += 1;
    }
    assert(r@ =~= s@);
    r
}

/// The two's complement of a signed 64-bit number: its residue modulo 2^64.
pub open spec fn twos_complement(x: int) -> nat {
    (x % 0x1_0000_0000_0000_0000) as nat
}

/// The signed 64-bit number that has a given bit pattern.
pub open spec fn signed_value(u: nat) -> int {
    if u < 0x8000_0000_0000_0000 {
        u as int
    } else {
        u - 0x1_0000_0000_0000_0000
    }
}

/// A signed number is determined by its bit pattern.
pub proof fn lemma_signed_value_of_twos_complement(x: i64)
    ensures
        signed_value(twos_complement(x as int)) == x,
{
}

/// A bit pattern is that of the signed number it stands for.
pub proof fn lemma_twos_complement_of_signed_value(u: u64)
    ensures
        twos_complement(signed_value(u as nat)) == u,
{
}

/// The bit pattern of a signed number, read as an unsigned one.
pub fn to_unsigned(x: i64) -> (u: u64)
    ensures
        u == twos_complement(x as int),
{
    if x >= 0 {
        x as u64
    } else {
        u64::MAX - (-(x + 1)) as u64
    }
}

/// The signed number that has a given bit pattern.
pub fn to_signed(u: u64) -> (x: i64)
    ensures
        x == signed_value(u as nat),
{
    if u <= 0x7fff_ffff_ffff_ffff {
        u as i64
    } else {
        -((u64::MAX - u) as i64) - 1
    }
}

/// Whether two byte strings are equal.
pub fn same_bytes(a: &[u8], b: &[u8]) -> (same: bool)
    ensures
        same == (a@ == b@),
{
    if a.len() != b.len() {
        return false;
    }
    let mut i: usize = 0;
    while i < a.len()
        invariant
            i <= a@.len() == b@.len(),
            forall|j: int| 0 <= j < i ==> a@[j] == b@[j],
        decreases a@.len() - i,
    {
        if a[i] != b[i] {
            return false;
        }
        i += 1;
    }
    assert(a@ =~= b@);
    true
}

/// How many values fit in `n` bytes is a power of 256.
pub proof fn bytes_count_by_powers(n: nat)
    ensures
        pow256(n) == pow(256, n),
        pow(256, n) >= 1,
    decreases n,
{
    lemma_pow_positive(256, n);
    if n == 0 {
        lemma_pow0(256);
    } else {
        bytes_count_by_powers((n - 1) as nat);
        lemma_pow1(256);
        lemma_pow_adds(256, 1, (n - 1) as nat);
    }
}

/// Bytes are written most significant first: the byte at `i` of `n` is the
/// quotient by the power of 256 that its place stands for.
pub proof fn bytes_are_big_endian(v: nat, n: nat, i: int)
    requires
        0 <= i < n,
    ensures
        be(v, n).len() == n,
        be(v, n)[i] as int == v as int / pow(256, (n - 1 - i) as nat) % 256,
    decreases n,
{
    broadcast use lemma_be_len;

    if i == n - 1 {
        lemma_pow0(256);
        assert(v as int / 1 == v);
        assert(pow(256, (n - 1 - i) as nat) == 1);
    } else {
        let m = (n - 2 - i) as nat;
        bytes_are_big_endian(v / 256, (n - 1) as nat, i);
        lemma_pow1(256);
        lemma_pow_adds(256, 1, m);
        lemma_pow_positive(256, m);
        lemma_div_denominator(v as int, 256, pow(256, m));
        assert(1 + m == (n - 1 - i) as nat);
        assert(m == ((n - 1) as nat - 1 - i) as nat);
        assert(be(v, n)[i] == be(v / 256, (n - 1) as nat)[i]);
    }
}

/// Bytes are read most significant first: what stands in front counts for as
/// many powers of 256 as bytes follow it, and a single byte for itself.
pub proof fn bytes_add_up(a: Seq<u8>, b: Seq<u8>, x: u8)
    ensures
        be_value(a + b) == be_value(a) * pow(256, b.len()) + be_value(b),
        be_value(seq![x]) == x,
    decreases b.len(),
{
    assert(seq![x].drop_last() =~= Seq::<u8>::empty());
    reveal_with_fuel(be_value, 2);
    if b.len() == 0 {
        lemma_pow0(256);
        assert(a + b =~= a);
    } else {
        let front = b.drop_last();
        let n = front.len();
        bytes_add_up(a, front, x);
        assert((a + b).drop_last() =~= a + front);
        lemma_pow1(256);
        lemma_pow_adds(256, n, 1);
        let (u, p) = (be_value(a) as int, pow(256, n));
        assert((u * p) * 256 == u * (p * 256)) by (nonlinear_arith);
    }
}

/// A bit pattern and the signed number that has it agree modulo 2^64, and the
/// signed number lies within 64 bits.
pub proof fn bit_patterns_agree(u: u64, x: i64)
    ensures
        -0x8000_0000_0000_0000 <= signed_value(u as nat) < 0x8000_0000_0000_0000,
        (u - signed_value(u as nat)) % 0x1_0000_0000_0000_0000 == 0,
        u <= i64::MAX ==> signed_value(u as nat) == u,
        0 <= twos_complement(x as int) < 0x1_0000_0000_0000_0000,
        (twos_complement(x as int) - x) % 0x1_0000_0000_0000_0000 == 0,
{
}

/// The number that two bytes stand for.
pub proof fn two_bytes(s: Seq<u8>)
    requires
        s.len() == 2,
    ensures
        be_value(s) == s[0] * 0x100 + s[1],
{
    reveal_with_fuel(be_value, 3);
}

/// The number that four bytes stand for.
pub proof fn four_bytes(s: Seq<u8>)
    requires
        s.len() == 4,
    ensures
        be_value(s) == s[0] * 0x100_0000 + s[1] * 0x1_0000 + s[2] * 0x100 + s[3],
{
    reveal_with_fuel(be_value, 5);
}

/// The number that eight bytes stand for.
pub proof fn eight_bytes(s: Seq<u8>)
    requires
        s.len() == 8,
    ensures
        be_value(s) == (s[0] * 0x100_0000 + s[1] * 0x1_0000 + s[2] * 0x100 + s[3]) * 0x1_0000_0000
            + s[4] * 0x100_0000 + s[5] * 0x1_0000 + s[6] * 0x100 + s[7],
{
    reveal_with_fuel(be_value, 9);
}

} // verus!
