//! Big-endian byte representation of unsigned integer values.
//!
//! The codec writes every fixed-width integer as exactly `w` bytes, most
//! significant first.  `be_bytes` and `be_value` are the mathematical
//! statement of that representation; `be_encode` and `be_decode` are the
//! executable conversions, proved against them.

use vstd::prelude::*;

verus! {

/// The number of distinct values that `w` bytes can hold: 256 to the `w`.
pub open spec fn pow256(w: nat) -> nat
    decreases w,
{
    if w == 0 {
        1
    } else {
        256 * pow256((w - 1) as nat)
    }
}

/// The `w`-byte big-endian encoding of `v`: the low `w` base-256 digits of
/// `v`, most significant first.
pub open spec fn be_bytes(v: nat, w: nat) -> Seq<u8>
    decreases w,
{
    if w == 0 {
        seq![]
    } else {
        be_bytes(v / 256, (w - 1) as nat).push((v % 256) as u8)
    }
}

/// The value that a big-endian byte sequence denotes.
pub open spec fn be_value(s: Seq<u8>) -> nat
    decreases s.len(),
{
    if s.len() == 0 {
        0
    } else {
        be_value(s.drop_last()) * 256 + s.last() as nat
    }
}

pub proof fn lemma_be_bytes_len(v: nat, w: nat)
    ensures
        be_bytes(v, w).len() == w,
    decreases w,
{
    if w > 0 {
        lemma_be_bytes_len(v / 256, (w - 1) as nat);
    }
}

pub proof fn lemma_be_value_bound(s: Seq<u8>)
    ensures
        be_value(s) < pow256(s.len()),
    decreases s.len(),
{
    if s.len() > 0 {
        lemma_be_value_bound(s.drop_last());
    }
}

pub proof fn lemma_pow256_mono(a: nat, b: nat)
    requires
        a <= b,
    ensures
        pow256(a) <= pow256(b),
    decreases b,
{
    if a < b && b > 0 {
        lemma_pow256_mono(a, (b - 1) as nat);
    }
}

/// The byte counts the codec uses, as concrete powers.
pub proof fn lemma_pow256_values()
    ensures
        pow256(1) == 0x100,
        pow256(2) == 0x1_0000,
        pow256(4) == 0x1_0000_0000,
        pow256(8) == 0x1_0000_0000_0000_0000,
        pow256(15) == 0x1_0000_0000_0000_0000_0000_0000_0000_00,
        pow256(16) == 0x1_0000_0000_0000_0000_0000_0000_0000_0000,
{
    assert(pow256(0) == 1);
    assert(pow256(1) == 0x100);
    assert(pow256(2) == 0x1_0000);
    assert(pow256(3) == 0x1_0000_00);
    assert(pow256(4) == 0x1_0000_0000);
    assert(pow256(5) == 0x1_0000_0000_00);
    assert(pow256(6) == 0x1_0000_0000_0000);
    assert(pow256(7) == 0x1_0000_0000_0000_00);
    assert(pow256(8) == 0x1_0000_0000_0000_0000);
    assert(pow256(9) == 0x1_0000_0000_0000_0000_00);
    assert(pow256(10) == 0x1_0000_0000_0000_0000_0000);
    assert(pow256(11) == 0x1_0000_0000_0000_0000_0000_00);
    assert(pow256(12) == 0x1_0000_0000_0000_0000_0000_0000);
    assert(pow256(13) == 0x1_0000_0000_0000_0000_0000_0000_00);
    assert(pow256(14) == 0x1_0000_0000_0000_0000_0000_0000_0000);
    assert(pow256(15) == 0x1_0000_0000_0000_0000_0000_0000_0000_00);
    assert(pow256(16) == 0x1_0000_0000_0000_0000_0000_0000_0000_0000);
}

/// Decoding the encoding of any value that fits in `w` bytes returns the
/// value itself.
pub proof fn lemma_be_round_trip(v: nat, w: nat)
    requires
        v < pow256(w),
    ensures
        be_value(be_bytes(v, w)) == v,
    decreases w,
{
    if w > 0 {
        let rest = (w - 1) as nat;
        lemma_be_bytes_len(v / 256, rest);
        assert(v / 256 < pow256(rest)) by {
            assert(v < 256 * pow256(rest));
        };
        lemma_be_round_trip(v / 256, rest);
        assert(be_bytes(v, w).drop_last() =~= be_bytes(v / 256, rest));
    }
}

/// Encodes `v` as exactly `w` big-endian bytes.
pub fn be_encode(v: u128, w: usize) -> (r: Vec<u8>)
    ensures
        r@ == be_bytes(v as nat, w as nat),
    decreases w,
{
    if w == 0 {
        let r: Vec<u8> = Vec::new();
        assert(r@ =~= be_bytes(v as nat, 0));
        r
    } else {
        let mut r = be_encode(v / 256, w - 1);
        r.push((v % 256) as u8);
        assert(r@ =~= be_bytes(v as nat, w as nat));
        r
    }
}

/// Decodes up to 16 big-endian bytes into the value they denote.
pub fn be_decode(b: &[u8]) -> (r: u128)
    requires
        b@.len() <= 16,
    ensures
        r as nat == be_value(b@),
{
    let n = b.len();
    let mut acc: u128 = 0;
    for i in 0..n
        invariant
            n == b@.len() <= 16,
            acc as nat == be_value(b@.subrange(0, i as int)),
    {
        proof {
            lemma_be_value_bound(b@.subrange(0, i as int));
            lemma_pow256_mono(i as nat, 15);
            lemma_pow256_values();
            assert(b@.subrange(0, i + 1).drop_last() =~= b@.subrange(0, i as int));
        }
        acc = acc * 256 + (b[i] as u128);
    }
    proof {
        assert(b@.subrange(0, n as int) =~= b@);
    }
    acc
}

} // verus!
