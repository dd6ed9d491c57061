//! Byte-buffer helpers shared by the parsers and the strippers.
use crate::error::Result;
use vstd::prelude::*;

verus! {

/// `r` with `pre` put in front of its bytes.
pub open spec fn then_append(pre: Seq<u8>, r: Result<Seq<u8>>) -> Result<Seq<u8>> {
    match r {
        Ok(s) => Ok(pre + s),
        Err(x) => Err(x),
    }
}

/// The bytes of `a` followed by those of `b`; the first error wins.
pub open spec fn seq_then(a: Result<Seq<u8>>, b: Result<Seq<u8>>) -> Result<Seq<u8>> {
    match a {
        Ok(s) => then_append(s, b),
        Err(x) => Err(x),
    }
}

/// The bytes that a `Result<Vec<u8>>` holds.
pub open spec fn res_bytes(r: Result<Vec<u8>>) -> Result<Seq<u8>> {
    match r {
        Ok(v) => Ok(v@),
        Err(x) => Err(x),
    }
}

/// Appends `data[s..e]` to `out`.
pub fn push_range(out: &mut Vec<u8>, data: &[u8], s: usize, e: usize)
    requires
        s <= e <= data@.len(),
    ensures
        final(out)@ == old(out)@ + data@.subrange(s as int, e as int),
{
    let mut i = s;
    while i < e
        invariant
            s <= i <= e <= data@.len(),
            out@ == old(out)@ + data@.subrange(s as int, i as int),
        decreases e - i,
    {
        out.push(data[i]);
        i += 1;
        assert(out@ =~= old(out)@ + data@.subrange(s as int, i as int));
    }
}

/// Appends all of `src` to `out`.
pub fn push_all(out: &mut Vec<u8>, src: &[u8])
    ensures
        final(out)@ == old(out)@ + src@,
{
    push_range(out, src, 0, src.len());
    assert(src@.subrange(0, src@.len() as int) =~= src@);
}

/// A copy of `data[s..e]`.
pub fn copy_range(data: &[u8], s: usize, e: usize) -> (r: Vec<u8>)
    requires
        s <= e <= data@.len(),
    ensures
        r@ == data@.subrange(s as int, e as int),
{
    let mut out: Vec<u8> = Vec::new();
    push_range(&mut out, data, s, e);
    assert(out@ =~= data@.subrange(s as int, e as int));
    out
}

} // verus!

verus! {

pub proof fn lemma_then_append_assoc(a: Seq<u8>, b: Seq<u8>, r: Result<Seq<u8>>)
    ensures
        then_append(a, then_append(b, r)) == then_append(a + b, r),
{
    if let Ok(s) = r {
        assert(a + (b + s) =~= (a + b) + s);
    }
}

pub proof fn lemma_then_append_empty(r: Result<Seq<u8>>)
    ensures
        then_append(Seq::empty(), r) == r,
{
    if let Ok(s) = r {
        assert(Seq::<u8>::empty() + s =~= s);
    }
}

} // verus!

verus! {

/// `<[u8]>::len`. Std documents that no slice spans more than `isize::MAX` bytes, which the
/// contract states alongside the length.
#[verifier::external_body]
pub fn slice_len(s: &[u8]) -> (r: usize)
    ensures
        r == s@.len(),
        r <= isize::MAX,
{
    s.len()
}

/// `Vec::<u8>::len`. Std documents that a `Vec` never holds more than `isize::MAX` bytes
/// (growing past that panics), which the contract states alongside the length.
#[verifier::external_body]
pub fn vec_len(v: &Vec<u8>) -> (r: usize)
    ensures
        r == v@.len(),
        r <= isize::MAX,
{
    v.len()
}

} // verus!

verus! {

/// `a` is a subsequence of `b`: `b` with some of its bytes taken out (matched greedily from
/// the front).
pub open spec fn is_subseq(a: Seq<u8>, b: Seq<u8>) -> bool
    decreases b.len(),
{
    if a.len() == 0 {
        true
    } else if b.len() == 0 {
        false
    } else if a[0] == b[0] {
        is_subseq(a.drop_first(), b.drop_first())
    } else {
        is_subseq(a, b.drop_first())
    }
}

/// A subsequence is never longer.
pub proof fn lemma_subseq_len(a: Seq<u8>, b: Seq<u8>)
    requires
        is_subseq(a, b),
    ensures
        a.len() <= b.len(),
    decreases b.len(),
{
    if a.len() > 0 && b.len() > 0 {
        if a[0] == b[0] {
            lemma_subseq_len(a.drop_first(), b.drop_first());
        } else {
            lemma_subseq_len(a, b.drop_first());
        }
    }
}

/// Every sequence is a subsequence of itself.
pub proof fn lemma_subseq_refl(a: Seq<u8>)
    ensures
        is_subseq(a, a),
    decreases a.len(),
{
    if a.len() > 0 {
        lemma_subseq_refl(a.drop_first());
    }
}

proof fn lemma_subseq_drop_first(a: Seq<u8>, b: Seq<u8>)
    requires
        a.len() > 0,
        is_subseq(a, b),
    ensures
        is_subseq(a.drop_first(), b),
    decreases b.len(), 1nat,
{
    if a.drop_first().len() > 0 && b.len() > 0 {
        if a[0] == b[0] {
            lemma_subseq_drop_first(a.drop_first(), b.drop_first());
            lemma_subseq_extend(a.drop_first(), b);
        } else {
            lemma_subseq_drop_first(a, b.drop_first());
            lemma_subseq_extend(a.drop_first(), b);
        }
    }
}

/// Putting bytes in front of the larger sequence keeps a subsequence one.
proof fn lemma_subseq_extend(a: Seq<u8>, b: Seq<u8>)
    requires
        b.len() > 0,
        is_subseq(a, b.drop_first()),
    ensures
        is_subseq(a, b),
    decreases b.len(), 0nat,
{
    if a.len() > 0 {
        if a[0] == b[0] {
            lemma_subseq_drop_first(a, b.drop_first());
        }
    }
}

/// Putting bytes `c` in front of the larger sequence keeps a subsequence one.
pub proof fn lemma_subseq_prepend_right(a: Seq<u8>, c: Seq<u8>, b: Seq<u8>)
    requires
        is_subseq(a, b),
    ensures
        is_subseq(a, c + b),
    decreases c.len(),
{
    if c.len() > 0 {
        lemma_subseq_prepend_right(a, c.drop_first(), b);
        assert((c + b).drop_first() =~= c.drop_first() + b);
        lemma_subseq_extend(a, c + b);
    } else {
        assert(c + b =~= b);
    }
}

/// Putting the same bytes `c` in front of both keeps a subsequence one.
pub proof fn lemma_subseq_prepend_both(c: Seq<u8>, a: Seq<u8>, b: Seq<u8>)
    requires
        is_subseq(a, b),
    ensures
        is_subseq(c + a, c + b),
    decreases c.len(),
{
    if c.len() > 0 {
        lemma_subseq_prepend_both(c.drop_first(), a, b);
        assert((c + a).drop_first() =~= c.drop_first() + a);
        assert((c + b).drop_first() =~= c.drop_first() + b);
        assert((c + a)[0] == (c + b)[0]);
    } else {
        assert(c + a =~= a);
        assert(c + b =~= b);
    }
}

} // verus!
