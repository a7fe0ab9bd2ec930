//! Big-endian representation of integers of a fixed number of bytes.
use vstd::prelude::*;
use crate::input::ByteIter;
use vstd::arithmetic::div_mod::{lemma_div_denominator, lemma_mod_breakdown, lemma_fundamental_div_mod, lemma_small_mod};
use vstd::arithmetic::power::pow;

verus! {

/// `256` raised to the power `n`: the number of distinct `n`-byte values.
pub open spec fn pow256(n: nat) -> nat
    decreases n,
{
    if n == 0 {
        1
    } else {
        256 * pow256((n - 1) as nat)
    }
}

/// The `n` bytes that represent `v` modulo `256^n`, most significant first.
pub open spec fn be_bytes(v: nat, n: nat) -> Seq<u8>
    decreases n,
{
    if n == 0 {
        Seq::empty()
    } else {
        be_bytes(v / 256, (n - 1) as nat).push((v % 256) as u8)
    }
}

/// The number that the bytes `s` represent, most significant first.
pub open spec fn be_value(s: Seq<u8>) -> nat
    decreases s.len(),
{
    if s.len() == 0 {
        0
    } else {
        be_value(s.drop_last()) * 256 + s.last() as nat
    }
}

/// The two's complement of `v` in `n` bytes, as an unsigned number.
pub open spec fn to_unsigned(v: int, n: nat) -> nat {
    if v >= 0 {
        v as nat
    } else {
        (v + pow256(n)) as nat
    }
}

/// The signed number whose two's complement in `n` bytes is `u`.
pub open spec fn to_signed(u: nat, n: nat) -> int {
    if u < pow256(n) / 2 {
        u as int
    } else {
        u - pow256(n)
    }
}

pub proof fn lemma_pow256_positive(n: nat)
    ensures
        pow256(n) > 0,
    decreases n,
{
    if n > 0 {
        lemma_pow256_positive((n - 1) as nat);
    }
}

pub proof fn lemma_pow256_monotonic(a: nat, b: nat)
    requires
        a <= b,
    ensures
        pow256(a) <= pow256(b),
    decreases b,
{
    lemma_pow256_positive(b);
    if a < b {
        lemma_pow256_monotonic(a, (b - 1) as nat);
    }
}

/// The powers of 256 for the widths of Rust's integer types.
pub proof fn lemma_pow256_values()
    ensures
        pow256(1) == 0x100,
        pow256(2) == 0x1_0000,
        pow256(4) == 0x1_0000_0000,
        pow256(8) == 0x1_0000_0000_0000_0000,
        pow256(16) == 0x1_0000_0000_0000_0000_0000_0000_0000_0000,
{
    reveal_with_fuel(pow256, 17);
}

pub proof fn lemma_be_bytes_len(v: nat, n: nat)
    ensures
        be_bytes(v, n).len() == n,
    decreases n,
{
    if n > 0 {
        lemma_be_bytes_len(v / 256, (n - 1) as nat);
    }
}

pub proof fn lemma_be_value_bound(s: Seq<u8>)
    ensures
        be_value(s) < pow256(s.len()),
    decreases s.len(),
{
    if s.len() > 0 {
        lemma_be_value_bound(s.drop_last());
    }
}

/// Reading back the bytes of `v` gives `v` modulo `256^n`.
pub proof fn lemma_be_value_of_bytes(v: nat, n: nat)
    ensures
        be_value(be_bytes(v, n)) == v % pow256(n),
    decreases n,
{
    if n == 0 {
    } else {
        let s = be_bytes(v, n);
        lemma_be_value_of_bytes(v / 256, (n - 1) as nat);
        assert(s.drop_last() =~= be_bytes(v / 256, (n - 1) as nat));
        lemma_pow256_positive((n - 1) as nat);
        lemma_mod_breakdown(v as int, 256, pow256((n - 1) as nat) as int);
        assert(v % pow256(n) == 256 * ((v / 256) % pow256((n - 1) as nat)) + v % 256);
    }
}

/// A value below `256^n` survives the trip through its `n` bytes.
pub proof fn lemma_be_roundtrip(v: nat, n: nat)
    requires
        v < pow256(n),
    ensures
        be_value(be_bytes(v, n)) == v,
        be_bytes(v, n).len() == n,
{
    lemma_be_value_of_bytes(v, n);
    lemma_be_bytes_len(v, n);
    lemma_small_mod(v, pow256(n));
}

/// A signed value of `n` bytes survives its two's complement.
pub proof fn lemma_signed_roundtrip(v: int, n: nat)
    requires
        n > 0,
        -(pow256(n) / 2) <= v < pow256(n) / 2,
    ensures
        to_unsigned(v, n) < pow256(n),
        to_signed(to_unsigned(v, n), n) == v,
{
    lemma_pow256_positive(n);
}

} // verus!

verus! {

/// Appends the `n` low bytes of `v` to `vec`, most significant first.
pub(crate) fn push_be(vec: &mut Vec<u8>, v: u128, n: usize)
    requires
        n <= 16,
    ensures
        final(vec)@ == old(vec)@ + be_bytes(v as nat, n as nat),
    decreases n,
{
    if n > 0 {
        push_be(vec, v / 256, n - 1);
        vec.push((v % 256) as u8);
        assert(vec@ =~= old(vec)@ + be_bytes(v as nat, n as nat));
    } else {
        assert(vec@ =~= old(vec)@ + be_bytes(v as nat, n as nat));
    }
}

/// Reads `n` bytes and returns the number they represent, most significant first.
pub(crate) fn read_be(iter: &mut ByteIter, n: usize) -> (res: u128)
    requires
        n <= 16,
        old(iter)@.len() >= n,
    ensures
        res == be_value(old(iter)@.take(n as int)),
        final(iter)@ == old(iter)@.skip(n as int),
{
    let ghost start = iter@;
    let mut acc: u128 = 0;
    let mut i: usize = 0;
    assert(start.take(0) =~= Seq::<u8>::empty());
    assert(start.skip(0) =~= start);
    while i < n
        invariant
            i <= n <= 16,
            start.len() >= n,
            acc == be_value(start.take(i as int)),
            iter@ == start.skip(i as int),
        decreases n - i,
    {
        proof {
            lemma_be_value_bound(start.take(i as int));
            lemma_pow256_monotonic(i as nat, 15);
            lemma_pow256_values();
            reveal_with_fuel(pow256, 16);
        }
        let b = iter.next().unwrap();
        assert(start.take(i + 1).drop_last() =~= start.take(i as int));
        assert(iter@ =~= start.skip(i + 1));
        acc = acc * 256 + b as u128;
        i = i + 1;
    }
    acc
}

} // verus!

verus! {

/// The number of bytes in a `usize`.
pub open spec fn usize_width() -> nat {
    (usize::BITS / 8) as nat
}

pub proof fn lemma_usize_width()
    ensures
        usize_width() == 4 || usize_width() == 8,
        pow256(usize_width()) == usize::MAX + 1,
        pow256(usize_width()) / 2 == isize::MAX + 1,
        -(pow256(usize_width()) / 2) == isize::MIN,
        usize_width() <= 16,
{
    lemma_pow256_values();
}

/// The number of bytes in a `usize`.
pub(crate) fn usize_width_exec() -> (res: usize)
    ensures
        res == usize_width(),
{
    (usize::BITS / 8) as usize
}

} // verus!

verus! {

/// vstd's `pow(256, n)` is `pow256(n)`.
pub proof fn lemma_pow_is_pow256(n: nat)
    ensures
        pow(256, n) == pow256(n),
    decreases n,
{
    reveal(pow);
    if n > 0 {
        lemma_pow_is_pow256((n - 1) as nat);
    }
}

pub proof fn lemma_pow_is_pow256_everywhere()
    ensures
        forall|n: nat| #[trigger] pow(256, n) == pow256(n),
{
    assert forall|n: nat| #[trigger] pow(256, n) == pow256(n) by {
        lemma_pow_is_pow256(n);
    }
}

/// Byte `i` of the `n`-byte representation of `v` is digit `n - 1 - i` of `v` in base 256.
pub proof fn lemma_be_bytes_digits(v: nat, n: nat)
    ensures
        be_bytes(v, n).len() == n,
        forall|i: int|
            0 <= i < n ==> #[trigger] be_bytes(v, n)[i] as int == (v / pow256((n - 1 - i) as nat)) % 256,
    decreases n,
{
    lemma_be_bytes_len(v, n);
    if n > 0 {
        lemma_be_bytes_digits(v / 256, (n - 1) as nat);
        assert forall|i: int| 0 <= i < n implies #[trigger] be_bytes(v, n)[i] as int == (v / pow256(
            (n - 1 - i) as nat,
        )) % 256 by {
            if i < n - 1 {
                let p = pow256((n - 2 - i) as nat);
                lemma_pow256_positive((n - 2 - i) as nat);
                assert(be_bytes(v, n)[i] == be_bytes(v / 256, (n - 1) as nat)[i]);
                assert(be_bytes(v / 256, (n - 1) as nat)[i] as int == ((v / 256) / p) % 256);
                lemma_div_denominator(v as int, 256, p as int);
                assert(((n - 1 - i) as nat) == ((n - 2 - i) as nat) + 1);
                assert(pow256((n - 1 - i) as nat) == 256 * p);
                assert((v / 256) / p == v / pow256((n - 1 - i) as nat));
            } else {
                assert(i == n - 1);
                assert(pow256(0) == 1);
                assert(v / 1 == v);
                assert(be_bytes(v, n)[i] == (v % 256) as u8);
            }
        }
    }
}

/// Writing back the number that `n` bytes represent gives the same bytes.
pub proof fn lemma_be_bytes_of_value(s: Seq<u8>)
    ensures
        be_bytes(be_value(s), s.len()) == s,
    decreases s.len(),
{
    if s.len() > 0 {
        let v = be_value(s);
        lemma_be_bytes_of_value(s.drop_last());
        assert(v / 256 == be_value(s.drop_last()));
        assert(v % 256 == s.last());
        assert(be_bytes(v, s.len()) =~= s);
    }
}

/// The bytes that write `v` in `w` bytes, two's complement where it is
/// negative, are exactly the `w` bytes whose byte `i` is digit `w - 1 - i`
/// of `v`'s two's complement in base 256.
pub proof fn lemma_encoding_digits(v: int, w: nat, bytes: Seq<u8>)
    requires
        -pow256(w) <= v < pow256(w),
    ensures
        bytes == be_bytes(to_unsigned(v, w), w) <==> {
            &&& bytes.len() == w
            &&& forall|i: int|
                0 <= i < bytes.len() ==> #[trigger] bytes[i] as int == ((v + if v < 0 {
                    pow(256, w)
                } else {
                    0
                }) / pow(256, (w - 1 - i) as nat)) % 256
        },
{
    lemma_pow_is_pow256_everywhere();
    let u = to_unsigned(v, w);
    lemma_be_bytes_digits(u, w);
    let good = be_bytes(u, w);
    if bytes.len() == w && forall|i: int|
        0 <= i < bytes.len() ==> #[trigger] bytes[i] as int == ((v + if v < 0 {
            pow(256, w)
        } else {
            0
        }) / pow(256, (w - 1 - i) as nat)) % 256 {
        assert forall|i: int| 0 <= i < w implies bytes[i] == good[i] by {
            assert(good[i] as int == (u / pow256((w - 1 - i) as nat)) % 256);
        }
        assert(bytes =~= good);
    }
}

/// Two's complement undoes reading a signed number back.
pub proof fn lemma_unsigned_of_signed(u: nat, w: nat)
    requires
        u < pow256(w),
    ensures
        to_unsigned(to_signed(u, w), w) == u,
        -(pow256(w) / 2) - 1 <= to_signed(u, w) < pow256(w) / 2 + 1,
{
}

} // verus!
