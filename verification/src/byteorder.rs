use crate::error::{Error, Result};
use vstd::prelude::*;

verus! {

/// Byte order of a multi-byte integer field.
#[derive(Clone, Copy, Debug, PartialEq, Eq, Structural)]
pub enum Endian {
    Little,
    Big,
}

/// The unsigned integer that the bytes `s` encode, most significant byte first.
pub open spec fn be_value(s: Seq<u8>) -> nat
    decreases s.len(),
{
    if s.len() == 0 {
        0
    } else {
        (be_value(s.drop_last()) * 256 + s.last()) as nat
    }
}

/// The unsigned integer that the bytes `s` encode, least significant byte first.
pub open spec fn le_value(s: Seq<u8>) -> nat
    decreases s.len(),
{
    if s.len() == 0 {
        0
    } else {
        (s[0] + 256 * le_value(s.drop_first())) as nat
    }
}

/// The unsigned integer that `s` encodes in byte order `e`.
pub open spec fn uint_value(s: Seq<u8>, e: Endian) -> nat {
    match e {
        Endian::Little => le_value(s),
        Endian::Big => be_value(s),
    }
}

/// The unsigned integer stored in the `n` bytes of `data` at `off`.
pub open spec fn field(data: Seq<u8>, off: int, n: int, e: Endian) -> nat {
    uint_value(data.subrange(off, off + n), e)
}

pub proof fn lemma_be_value_bound(s: Seq<u8>)
    ensures
        be_value(s) < pow256(s.len()),
    decreases s.len(),
{
    if s.len() > 0 {
        lemma_be_value_bound(s.drop_last());
    }
}

pub proof fn lemma_le_value_bound(s: Seq<u8>)
    ensures
        le_value(s) < pow256(s.len()),
    decreases s.len(),
{
    if s.len() > 0 {
        lemma_le_value_bound(s.drop_first());
    }
}

/// A field of `n` bytes is below 256^n.
pub proof fn lemma_field_bound(data: Seq<u8>, off: int, n: int, e: Endian)
    requires
        0 <= n <= 8,
    ensures
        0 <= off && off + n <= data.len() ==> {
            &&& n == 2 ==> field(data, off, n, e) < 0x1_0000
            &&& n == 4 ==> field(data, off, n, e) < 0x1_0000_0000
            &&& n == 8 ==> field(data, off, n, e) < 0x1_0000_0000_0000_0000
        },
{
    if 0 <= off && off + n <= data.len() {
        let s = data.subrange(off, off + n);
        assert(s.len() == n);
        lemma_be_value_bound(s);
        lemma_le_value_bound(s);
        reveal_with_fuel(pow256, 9);
    }
}

pub open spec fn pow256(n: nat) -> nat
    decreases n,
{
    if n == 0 {
        1
    } else {
        256 * pow256((n - 1) as nat)
    }
}

/// Two bytes at `off`, most significant first.
pub fn be_u16_at(data: &[u8], off: usize) -> (r: u16)
    requires
        off + 2 <= data@.len(),
    ensures
        r == be_value(data@.subrange(off as int, off + 2)),
{
    let s = Ghost(data@.subrange(off as int, off + 2));
    proof {
        reveal_with_fuel(be_value, 3);
        assert(s@.drop_last().drop_last() =~= Seq::<u8>::empty());
    }
    (data[off] as u16) * 256 + (data[off + 1] as u16)
}

/// Four bytes at `off`, most significant first.
pub fn be_u32_at(data: &[u8], off: usize) -> (r: u32)
    requires
        off + 4 <= data@.len(),
    ensures
        r == be_value(data@.subrange(off as int, off + 4)),
{
    let s = Ghost(data@.subrange(off as int, off + 4));
    proof {
        reveal_with_fuel(be_value, 5);
        assert(s@.drop_last().drop_last().drop_last().drop_last() =~= Seq::<u8>::empty());
    }
    let b0 = data[off] as u32;
    let b1 = data[off + 1] as u32;
    let b2 = data[off + 2] as u32;
    let b3 = data[off + 3] as u32;
    ((b0 * 256 + b1) * 256 + b2) * 256 + b3
}

/// Eight bytes at `off`, most significant first.
pub fn be_u64_at(data: &[u8], off: usize) -> (r: u64)
    requires
        off + 8 <= data@.len(),
    ensures
        r == be_value(data@.subrange(off as int, off + 8)),
{
    let s = Ghost(data@.subrange(off as int, off + 8));
    proof {
        reveal_with_fuel(be_value, 9);
        assert(s@.drop_last().drop_last().drop_last().drop_last().drop_last().drop_last().drop_last().drop_last()
            =~= Seq::<u8>::empty());
    }
    let mut r: u64 = 0;
    let mut i: usize = 0;
    while i < 8
        invariant
            i <= 8,
            off + 8 <= data.len(),
            r == be_value(data@.subrange(off as int, off + i)),
        decreases 8 - i,
    {
        proof {
            let t = data@.subrange(off as int, off + i + 1);
            assert(t.drop_last() =~= data@.subrange(off as int, off + i));
            lemma_be_value_bound(data@.subrange(off as int, off + i));
            lemma_pow256_small(i as nat);
        }
        r = r * 256 + data[off + i] as u64;
        i += 1;
    }
    r
}

proof fn lemma_pow256_small(i: nat)
    requires
        i < 8,
    ensures
        pow256(i) * 256 <= 0x1_0000_0000_0000_0000,
{
    reveal_with_fuel(pow256, 9);
}

/// Two bytes at `off`, least significant first.
pub fn le_u16_at(data: &[u8], off: usize) -> (r: u16)
    requires
        off + 2 <= data@.len(),
    ensures
        r == le_value(data@.subrange(off as int, off + 2)),
{
    let s = Ghost(data@.subrange(off as int, off + 2));
    proof {
        reveal_with_fuel(le_value, 3);
        assert(s@.drop_first().drop_first() =~= Seq::<u8>::empty());
    }
    (data[off] as u16) + 256 * (data[off + 1] as u16)
}

/// Four bytes at `off`, least significant first.
pub fn le_u32_at(data: &[u8], off: usize) -> (r: u32)
    requires
        off + 4 <= data@.len(),
    ensures
        r == le_value(data@.subrange(off as int, off + 4)),
{
    let s = Ghost(data@.subrange(off as int, off + 4));
    proof {
        reveal_with_fuel(le_value, 5);
        assert(s@.drop_first().drop_first().drop_first().drop_first() =~= Seq::<u8>::empty());
    }
    let b0 = data[off] as u32;
    let b1 = data[off + 1] as u32;
    let b2 = data[off + 2] as u32;
    let b3 = data[off + 3] as u32;
    b0 + 256 * (b1 + 256 * (b2 + 256 * b3))
}

/// Eight bytes at `off`, least significant first.
pub fn le_u64_at(data: &[u8], off: usize) -> (r: u64)
    requires
        off + 8 <= data@.len(),
    ensures
        r == le_value(data@.subrange(off as int, off + 8)),
{
    let mut r: u64 = 0;
    let mut i: usize = 8;
    while i > 0
        invariant
            i <= 8,
            off + 8 <= data.len(),
            r == le_value(data@.subrange(off + i, off + 8)),
        decreases i,
    {
        proof {
            let t = data@.subrange(off + i - 1, off + 8);
            assert(t.drop_first() =~= data@.subrange(off + i, off + 8));
            lemma_le_value_bound(data@.subrange(off + i, off + 8));
            lemma_pow256_small((8 - i) as nat);
        }
        r = data[off + i - 1] as u64 + 256 * r;
        i -= 1;
    }
    r
}

/// What `read_u16`, `read_u32` and `read_u64` give: the field of `n` bytes at `off` in byte
/// order `e`, or `Truncated` when it runs past the end.
pub open spec fn spec_read_uint(data: Seq<u8>, off: int, n: int, e: Endian) -> Result<nat> {
    if off + n <= data.len() {
        Ok(field(data, off, n, e))
    } else {
        Err(Error::Truncated)
    }
}

/// `read_u16` as a function of its arguments.
pub open spec fn spec_read_u16(data: Seq<u8>, off: int, e: Endian) -> Result<u16> {
    match spec_read_uint(data, off, 2, e) {
        Ok(v) => Ok(v as u16),
        Err(x) => Err(x),
    }
}

/// `read_u32` as a function of its arguments.
pub open spec fn spec_read_u32(data: Seq<u8>, off: int, e: Endian) -> Result<u32> {
    match spec_read_uint(data, off, 4, e) {
        Ok(v) => Ok(v as u32),
        Err(x) => Err(x),
    }
}

/// `read_u64` as a function of its arguments.
pub open spec fn spec_read_u64(data: Seq<u8>, off: int, e: Endian) -> Result<u64> {
    match spec_read_uint(data, off, 8, e) {
        Ok(v) => Ok(v as u64),
        Err(x) => Err(x),
    }
}

/// `read_i16` as a function of its arguments.
pub open spec fn spec_read_i16(data: Seq<u8>, off: int, e: Endian) -> Result<i16> {
    match spec_read_uint(data, off, 2, e) {
        Ok(v) => Ok((v as u16) as i16),
        Err(x) => Err(x),
    }
}

/// `read_i32` as a function of its arguments.
pub open spec fn spec_read_i32(data: Seq<u8>, off: int, e: Endian) -> Result<i32> {
    match spec_read_uint(data, off, 4, e) {
        Ok(v) => Ok((v as u32) as i32),
        Err(x) => Err(x),
    }
}

/// `read_i64` as a function of its arguments.
pub open spec fn spec_read_i64(data: Seq<u8>, off: int, e: Endian) -> Result<i64> {
    match spec_read_uint(data, off, 8, e) {
        Ok(v) => Ok((v as u64) as i64),
        Err(x) => Err(x),
    }
}

/// Each signed read is the unsigned read of the same field reinterpreted in two's
/// complement: the same `Truncated` cases, and `v as iN` otherwise.
pub proof fn lemma_signed_reads_are_casts(data: Seq<u8>, off: int, e: Endian)
    ensures
        spec_read_i16(data, off, e) == match spec_read_u16(data, off, e) {
            Ok(v) => Ok::<i16, Error>(v as i16),
            Err(x) => Err(x),
        },
        spec_read_i32(data, off, e) == match spec_read_u32(data, off, e) {
            Ok(v) => Ok::<i32, Error>(v as i32),
            Err(x) => Err(x),
        },
        spec_read_i64(data, off, e) == match spec_read_u64(data, off, e) {
            Ok(v) => Ok::<i64, Error>(v as i64),
            Err(x) => Err(x),
        },
{
}

/// Reads an unsigned 16-bit integer at `off`; `Truncated` when the field runs past the end.
pub fn read_u16(data: &[u8], off: usize, e: Endian) -> (r: Result<u16>)
    requires
        off + 2 <= usize::MAX,
    ensures
        r == spec_read_u16(data@, off as int, e),
        off + 2 <= data@.len() ==> r == Ok::<u16, Error>(field(data@, off as int, 2, e) as u16),
        off + 2 > data@.len() ==> r matches Err(Error::Truncated),
        off + 2 <= data@.len() ==> field(data@, off as int, 2, e) < 0x1_0000,
{
    proof {
        lemma_field_bound(data@, off as int, 2, e);
    }
    if off + 2 > data.len() {
        return Err(Error::Truncated);
    }
    match e {
        Endian::Little => Ok(le_u16_at(data, off)),
        Endian::Big => Ok(be_u16_at(data, off)),
    }
}

/// Reads a signed 16-bit integer at `off` (two's complement of the unsigned field).
pub fn read_i16(data: &[u8], off: usize, e: Endian) -> (r: Result<i16>)
    requires
        off + 2 <= usize::MAX,
    ensures
        r == spec_read_i16(data@, off as int, e),
        off + 2 <= data@.len() ==> r == Ok::<i16, Error>((field(data@, off as int, 2, e) as u16) as i16),
        off + 2 > data@.len() ==> r matches Err(Error::Truncated),
{
    match read_u16(data, off, e) {
        Ok(v) => Ok(v as i16),
        Err(x) => Err(x),
    }
}

/// Reads an unsigned 32-bit integer at `off`; `Truncated` when the field runs past the end.
pub fn read_u32(data: &[u8], off: usize, e: Endian) -> (r: Result<u32>)
    requires
        off + 4 <= usize::MAX,
    ensures
        r == spec_read_u32(data@, off as int, e),
        off + 4 <= data@.len() ==> r == Ok::<u32, Error>(field(data@, off as int, 4, e) as u32),
        off + 4 > data@.len() ==> r matches Err(Error::Truncated),
        off + 4 <= data@.len() ==> field(data@, off as int, 4, e) < 0x1_0000_0000,
{
    proof {
        lemma_field_bound(data@, off as int, 4, e);
    }
    if off + 4 > data.len() {
        return Err(Error::Truncated);
    }
    match e {
        Endian::Little => Ok(le_u32_at(data, off)),
        Endian::Big => Ok(be_u32_at(data, off)),
    }
}

/// Reads a signed 32-bit integer at `off` (two's complement of the unsigned field).
pub fn read_i32(data: &[u8], off: usize, e: Endian) -> (r: Result<i32>)
    requires
        off + 4 <= usize::MAX,
    ensures
        r == spec_read_i32(data@, off as int, e),
        off + 4 <= data@.len() ==> r == Ok::<i32, Error>((field(data@, off as int, 4, e) as u32) as i32),
        off + 4 > data@.len() ==> r matches Err(Error::Truncated),
{
    match read_u32(data, off, e) {
        Ok(v) => Ok(v as i32),
        Err(x) => Err(x),
    }
}

/// Reads an unsigned 64-bit integer at `off`; `Truncated` when the field runs past the end.
pub fn read_u64(data: &[u8], off: usize, e: Endian) -> (r: Result<u64>)
    requires
        off + 8 <= usize::MAX,
    ensures
        r == spec_read_u64(data@, off as int, e),
        off + 8 <= data@.len() ==> r == Ok::<u64, Error>(field(data@, off as int, 8, e) as u64),
        off + 8 > data@.len() ==> r matches Err(Error::Truncated),
        off + 8 <= data@.len() ==> field(data@, off as int, 8, e) < 0x1_0000_0000_0000_0000,
{
    proof {
        lemma_field_bound(data@, off as int, 8, e);
    }
    if off + 8 > data.len() {
        return Err(Error::Truncated);
    }
    match e {
        Endian::Little => Ok(le_u64_at(data, off)),
        Endian::Big => Ok(be_u64_at(data, off)),
    }
}

/// Reads a signed 64-bit integer at `off` (two's complement of the unsigned field).
pub fn read_i64(data: &[u8], off: usize, e: Endian) -> (r: Result<i64>)
    requires
        off + 8 <= usize::MAX,
    ensures
        r == spec_read_i64(data@, off as int, e),
        off + 8 <= data@.len() ==> r == Ok::<i64, Error>((field(data@, off as int, 8, e) as u64) as i64),
        off + 8 > data@.len() ==> r matches Err(Error::Truncated),
{
    match read_u64(data, off, e) {
        Ok(v) => Ok(v as i64),
        Err(x) => Err(x),
    }
}

} // verus!
