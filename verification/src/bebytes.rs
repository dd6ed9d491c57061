//! Big-endian encodings of unsigned integers.
use crate::byteorder::{be_value, field, le_value, pow256, spec_read_u16, spec_read_u32, spec_read_u64, Endian};
use vstd::prelude::*;

verus! {

/// The `n` bytes that encode `v` (modulo 256^n), most significant first.
pub open spec fn be_bytes(v: nat, n: nat) -> Seq<u8>
    decreases n,
{
    if n == 0 {
        seq![]
    } else {
        be_bytes(v / 256, (n - 1) as nat).push((v % 256) as u8)
    }
}

/// `d` with the `n` bytes at `o` replaced by the big-endian encoding of `v`.
pub open spec fn put_be(d: Seq<u8>, o: int, v: nat, n: nat) -> Seq<u8> {
    d.subrange(0, o) + be_bytes(v, n) + d.subrange(o + n, d.len() as int)
}

pub proof fn lemma_be_bytes_len(v: nat, n: nat)
    ensures
        be_bytes(v, n).len() == n,
    decreases n,
{
    if n > 0 {
        lemma_be_bytes_len(v / 256, (n - 1) as nat);
    }
}

/// Appends the four big-endian bytes of `v`.
pub fn push_be32(out: &mut Vec<u8>, v: u32)
    ensures
        final(out)@ == old(out)@ + be_bytes(v as nat, 4),
{
    let b3 = (v % 256) as u8;
    let v1 = v / 256;
    let b2 = (v1 % 256) as u8;
    let v2 = v1 / 256;
    let b1 = (v2 % 256) as u8;
    let v3 = v2 / 256;
    let b0 = (v3 % 256) as u8;
    out.push(b0);
    out.push(b1);
    out.push(b2);
    out.push(b3);
    proof {
        reveal_with_fuel(be_bytes, 5);
        assert(be_bytes(v as nat, 4) =~= seq![b0, b1, b2, b3]);
        assert(final(out)@ =~= old(out)@ + be_bytes(v as nat, 4));
    }
}

/// Writes the four big-endian bytes of `v` at `o`.
pub fn set_be32(d: &mut Vec<u8>, o: usize, v: u32)
    requires
        o + 4 <= old(d).len(),
    ensures
        final(d)@ == put_be(old(d)@, o as int, v as nat, 4),
        final(d)@.len() == old(d)@.len(),
{
    let b3 = (v % 256) as u8;
    let v1 = v / 256;
    let b2 = (v1 % 256) as u8;
    let v2 = v1 / 256;
    let b1 = (v2 % 256) as u8;
    let v3 = v2 / 256;
    let b0 = (v3 % 256) as u8;
    d.set(o, b0);
    d.set(o + 1, b1);
    d.set(o + 2, b2);
    d.set(o + 3, b3);
    proof {
        reveal_with_fuel(be_bytes, 5);
        assert(be_bytes(v as nat, 4) =~= seq![b0, b1, b2, b3]);
        assert(final(d)@ =~= put_be(old(d)@, o as int, v as nat, 4));
    }
}

/// Writes the eight big-endian bytes of `v` at `o`.
pub fn set_be64(d: &mut Vec<u8>, o: usize, v: u64)
    requires
        o + 8 <= old(d).len(),
    ensures
        final(d)@ == put_be(old(d)@, o as int, v as nat, 8),
        final(d)@.len() == old(d)@.len(),
{
    let b7 = (v % 256) as u8;
    let v1 = v / 256;
    let b6 = (v1 % 256) as u8;
    let v2 = v1 / 256;
    let b5 = (v2 % 256) as u8;
    let v3 = v2 / 256;
    let b4 = (v3 % 256) as u8;
    let v4 = v3 / 256;
    let b3 = (v4 % 256) as u8;
    let v5 = v4 / 256;
    let b2 = (v5 % 256) as u8;
    let v6 = v5 / 256;
    let b1 = (v6 % 256) as u8;
    let v7 = v6 / 256;
    let b0 = (v7 % 256) as u8;
    d.set(o, b0);
    d.set(o + 1, b1);
    d.set(o + 2, b2);
    d.set(o + 3, b3);
    d.set(o + 4, b4);
    d.set(o + 5, b5);
    d.set(o + 6, b6);
    d.set(o + 7, b7);
    proof {
        reveal_with_fuel(be_bytes, 9);
        assert(be_bytes(v as nat, 8) =~= seq![b0, b1, b2, b3, b4, b5, b6, b7]);
        assert(final(d)@ =~= put_be(old(d)@, o as int, v as nat, 8));
    }
}

} // verus!

verus! {

/// What `be_bytes` writes reads back: the big-endian value of the `n`-byte encoding of `v`
/// is `v`, for `v < 256^n`.
pub proof fn lemma_be_value_of_bytes(v: nat, n: nat)
    requires
        v < pow256(n),
    ensures
        be_value(be_bytes(v, n)) == v,
    decreases n,
{
    if n > 0 {
        let p = pow256((n - 1) as nat);
        assert(pow256(n) == 256 * p);
        assert(v / 256 < p) by (nonlinear_arith)
            requires
                v < 256 * p,
        ;
        lemma_be_value_of_bytes(v / 256, (n - 1) as nat);
        let s = be_bytes(v, n);
        assert(s.drop_last() =~= be_bytes(v / 256, (n - 1) as nat));
        assert(s.last() == (v % 256) as u8);
    }
}

/// A 32-bit big-endian field written by `set_be32` (`put_be`) reads back as the value
/// written, and the bytes around it are left as they were.
pub proof fn lemma_read_after_put32(d: Seq<u8>, o: int, v: u32)
    requires
        0 <= o,
        o + 4 <= d.len(),
    ensures
        field(put_be(d, o, v as nat, 4), o, 4, Endian::Big) == v,
        put_be(d, o, v as nat, 4).len() == d.len(),
        forall|i: int|
            0 <= i < d.len() && !(o <= i < o + 4) ==> #[trigger] put_be(d, o, v as nat, 4)[i] == d[i],
{
    lemma_be_bytes_len(v as nat, 4);
    reveal_with_fuel(pow256, 5);
    lemma_be_value_of_bytes(v as nat, 4);
    let e = put_be(d, o, v as nat, 4);
    assert(e.subrange(o, o + 4) =~= be_bytes(v as nat, 4));
}

/// A 64-bit big-endian field written by `set_be64` (`put_be`) reads back as the value
/// written, and the bytes around it are left as they were.
pub proof fn lemma_read_after_put64(d: Seq<u8>, o: int, v: u64)
    requires
        0 <= o,
        o + 8 <= d.len(),
    ensures
        field(put_be(d, o, v as nat, 8), o, 8, Endian::Big) == v,
        put_be(d, o, v as nat, 8).len() == d.len(),
        forall|i: int|
            0 <= i < d.len() && !(o <= i < o + 8) ==> #[trigger] put_be(d, o, v as nat, 8)[i] == d[i],
{
    lemma_be_bytes_len(v as nat, 8);
    reveal_with_fuel(pow256, 9);
    lemma_be_value_of_bytes(v as nat, 8);
    let e = put_be(d, o, v as nat, 8);
    assert(e.subrange(o, o + 8) =~= be_bytes(v as nat, 8));
}

} // verus!

verus! {

/// The `n` bytes that encode `v` (modulo 256^n), least significant first.
pub open spec fn le_bytes(v: nat, n: nat) -> Seq<u8>
    decreases n,
{
    if n == 0 {
        seq![]
    } else {
        seq![(v % 256) as u8] + le_bytes(v / 256, (n - 1) as nat)
    }
}

/// The little-endian value of the `n`-byte encoding of `v` is `v`, for `v < 256^n`.
pub proof fn lemma_le_value_of_bytes(v: nat, n: nat)
    requires
        v < pow256(n),
    ensures
        le_bytes(v, n).len() == n,
        le_value(le_bytes(v, n)) == v,
    decreases n,
{
    if n > 0 {
        let p = pow256((n - 1) as nat);
        assert(pow256(n) == 256 * p);
        assert(v / 256 < p) by (nonlinear_arith)
            requires
                v < 256 * p,
        ;
        lemma_le_value_of_bytes(v / 256, (n - 1) as nat);
        let s = le_bytes(v, n);
        assert(s.drop_first() =~= le_bytes(v / 256, (n - 1) as nat));
        assert(s[0] == (v % 256) as u8);
        assert(v % 256 + 256 * (v / 256) == v) by (nonlinear_arith);
    }
}

/// The field of `n` bytes at `a.len()` in `a + bytes + z`, where `bytes` encodes `x` in byte
/// order `e`, is `x`.
pub proof fn lemma_field_of_encoding(a: Seq<u8>, x: nat, n: nat, z: Seq<u8>)
    requires
        x < pow256(n),
    ensures
        field(a + be_bytes(x, n) + z, a.len() as int, n as int, Endian::Big) == x,
        field(a + le_bytes(x, n) + z, a.len() as int, n as int, Endian::Little) == x,
{
    lemma_be_bytes_len(x, n);
    lemma_be_value_of_bytes(x, n);
    lemma_le_value_of_bytes(x, n);
    assert((a + be_bytes(x, n) + z).subrange(a.len() as int, (a.len() + n) as int) =~= be_bytes(x, n));
    assert((a + le_bytes(x, n) + z).subrange(a.len() as int, (a.len() + n) as int) =~= le_bytes(x, n));
}

/// Reading back an encoded integer: `read_u16`, `read_u32` and `read_u64` at `a.len()` in
/// `a + bytes + z` give `x` when `bytes` is `x` in the order read (`to_be_bytes` for `Big`,
/// `to_le_bytes` for `Little`).
pub proof fn lemma_read_encoded(a: Seq<u8>, x16: u16, x32: u32, x64: u64, z: Seq<u8>)
    ensures
        spec_read_u16(a + be_bytes(x16 as nat, 2) + z, a.len() as int, Endian::Big) == Ok::<u16, crate::error::Error>(x16),
        spec_read_u16(a + le_bytes(x16 as nat, 2) + z, a.len() as int, Endian::Little) == Ok::<u16, crate::error::Error>(x16),
        spec_read_u32(a + be_bytes(x32 as nat, 4) + z, a.len() as int, Endian::Big) == Ok::<u32, crate::error::Error>(x32),
        spec_read_u32(a + le_bytes(x32 as nat, 4) + z, a.len() as int, Endian::Little) == Ok::<u32, crate::error::Error>(x32),
        spec_read_u64(a + be_bytes(x64 as nat, 8) + z, a.len() as int, Endian::Big) == Ok::<u64, crate::error::Error>(x64),
        spec_read_u64(a + le_bytes(x64 as nat, 8) + z, a.len() as int, Endian::Little) == Ok::<u64, crate::error::Error>(x64),
{
    reveal_with_fuel(pow256, 9);
    lemma_field_of_encoding(a, x16 as nat, 2, z);
    lemma_field_of_encoding(a, x32 as nat, 4, z);
    lemma_field_of_encoding(a, x64 as nat, 8, z);
    lemma_be_bytes_len(x16 as nat, 2);
    lemma_be_bytes_len(x32 as nat, 4);
    lemma_be_bytes_len(x64 as nat, 8);
    lemma_le_value_of_bytes(x16 as nat, 2);
    lemma_le_value_of_bytes(x32 as nat, 4);
    lemma_le_value_of_bytes(x64 as nat, 8);
}

} // verus!
