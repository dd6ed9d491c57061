//! Strip metadata from ISO BMFF (MOV, MP4, HEIC) and fix sample/table offsets
//! when `mdat` moves.
use crate::bebytes::{be_bytes, push_be32, put_be, set_be32, set_be64};
use crate::bmff::{read_box, spec_read_box, lemma_read_box_span};
use crate::byteorder::{be_u16_at, be_u32_at, be_u64_at, be_value};
use crate::error::{Error, Result};
use crate::fourcc::{
    code, code_of, CO64, COLR, DINF, EDTS, FREE, FTYP, ILOC, IPCO, IPRP, MDAT, MDIA, META, MINF,
    MOOF, MOOV, MVEX, SINF, SKIP, STBL, STCO, TRAK, TREF,
    UDTA, UUID,
};
use crate::util::{slice_len, vec_len, copy_range, lemma_then_append_assoc, lemma_then_append_empty, push_range, res_bytes, seq_then, then_append};
use crate::StripOptions;
use vstd::prelude::*;

verus! {

/// The UUID of an XMP `uuid` box.
pub open spec fn xmp_uuid() -> Seq<u8> {
    seq![0xBEu8, 0x7A, 0xCF, 0xCB, 0x97, 0xA9, 0x42, 0xE8, 0x9C, 0x71, 0x99, 0x94, 0x91, 0xE3, 0xAF, 0xAC]
}

/// The payload of a `uuid` box starts with the XMP UUID.
pub open spec fn is_xmp_body(b: Seq<u8>) -> bool {
    b.len() >= 16 && b.subrange(0, 16) == xmp_uuid()
}

/// A box of type `t` (four bytes) around `body`: `BadQt` when its size does not fit 32 bits.
pub open spec fn spec_make_box(t: Seq<u8>, body: Seq<u8>) -> Result<Seq<u8>> {
    if body.len() + 8 > u32::MAX {
        Err(Error::BadQt)
    } else {
        Ok(be_bytes((body.len() + 8) as nat, 4) + t + body)
    }
}

/// The bytes of the four-character code `c`.
pub open spec fn code_bytes(c: u32) -> Seq<u8> {
    be_bytes(c as nat, 4)
}

/// Wraps `body` in a box of type `t`.
pub fn make_box(t: [u8; 4], body: Vec<u8>) -> (r: Result<Vec<u8>>)
    ensures
        res_bytes(r) == spec_make_box(t@, body@),
{
    if body.len() > 0xffff_fff7 {
        return Err(Error::BadQt);
    }
    let size: u32 = 8 + body.len() as u32;
    let mut v: Vec<u8> = Vec::new();
    push_be32(&mut v, size);
    v.push(t[0]);
    v.push(t[1]);
    v.push(t[2]);
    v.push(t[3]);
    let ghost head = v@;
    push_range(&mut v, body.as_slice(), 0, body.len());
    proof {
        assert(body@.subrange(0, body@.len() as int) =~= body@);
        assert(head =~= be_bytes((body@.len() + 8) as nat, 4) + t@);
        assert(v@ =~= be_bytes((body@.len() + 8) as nat, 4) + t@ + body@);
    }
    Ok(v)
}

fn fourcc_bytes(c: u32) -> (r: [u8; 4])
    ensures
        r@ == code_bytes(c),
{
    let b3 = (c % 256) as u8;
    let c1 = c / 256;
    let b2 = (c1 % 256) as u8;
    let c2 = c1 / 256;
    let b1 = (c2 % 256) as u8;
    let c3 = c2 / 256;
    let b0 = (c3 % 256) as u8;
    proof {
        reveal_with_fuel(be_bytes, 5);
    }
    let r = [b0, b1, b2, b3];
    assert(r@ =~= code_bytes(c));
    r
}

/// The box payload starts with the XMP UUID.
pub(crate) fn is_xmp(body: &[u8]) -> (r: bool)
    ensures
        r == is_xmp_body(body@),
{
    let u: [u8; 16] = [
        0xBE, 0x7A, 0xCF, 0xCB, 0x97, 0xA9, 0x42, 0xE8, 0x9C, 0x71, 0x99, 0x94, 0x91, 0xE3, 0xAF,
        0xAC,
    ];
    assert(u@ =~= xmp_uuid());
    if body.len() < 16 {
        return false;
    }
    let mut i: usize = 0;
    while i < 16
        invariant
            i <= 16 <= body@.len(),
            u@ == xmp_uuid(),
            forall|j: int| 0 <= j < i ==> body@[j] == u@[j],
        decreases 16 - i,
    {
        if body[i] != u[i] {
            return false;
        }
        i += 1;
    }
    assert(body@.subrange(0, 16) =~= xmp_uuid());
    true
}

/// HEIF brands.
pub open spec fn spec_is_heic_brand(brand: Seq<u8>) -> bool {
    let c = code_of(brand);
    c == 0x68656963 /* heic */ || c == 0x68656978 /* heix */ || c == 0x6d696631 /* mif1 */
        || c == 0x68656973 /* heis */ || c == 0x68657663 /* hevc */ || c == 0x68657678 /* hevx */
        || c == 0x6865766d /* hevm */ || c == 0x68657673 /* hevs */
}

fn is_heic_brand(brand: [u8; 4]) -> (r: bool)
    ensures
        r == spec_is_heic_brand(brand@),
{
    let c = code(&brand);
    c == 0x68656963 || c == 0x68656978 || c == 0x6d696631 || c == 0x68656973 || c == 0x68657663
        || c == 0x68657678 || c == 0x6865766d || c == 0x68657673
}

/// `(is_heic, major_brand)` from the first top-level `ftyp` at or after `p`; the scan stops at
/// the first box that cannot be read.
pub open spec fn ftyp_scan(d: Seq<u8>, p: int) -> (bool, Option<Seq<u8>>)
    decreases d.len() - p,
{
    if p < 0 || p >= d.len() {
        (false, None)
    } else {
        match spec_read_box(d, p) {
            Ok(Some((end, bs, k))) => if code_of(k) == FTYP && end - bs >= 4 {
                (spec_is_heic_brand(d.subrange(bs, bs + 4)), Some(d.subrange(bs, bs + 4)))
            } else {
                ftyp_scan(d, end)
            },
            _ => (false, None),
        }
    }
}

/// Returns `(is_heic, major_brand_or_none)` from the first `ftyp` (skips `wide`, etc.).
fn ftyp_info_scan(data: &[u8]) -> (r: (bool, Option<[u8; 4]>))
    requires
        data@.len() <= isize::MAX,
    ensures
        r.0 == ftyp_scan(data@, 0).0,
        r.1 is Some == ftyp_scan(data@, 0).1 is Some,
        r.1 matches Some(m) ==> ftyp_scan(data@, 0).1 == Some(m@),
{
    let mut p: usize = 0;
    while p < data.len()
        invariant
            p <= data@.len() <= isize::MAX,
            ftyp_scan(data@, 0) == ftyp_scan(data@, p as int),
        decreases data@.len() - p,
    {
        let (end, b) = match read_box(data, p) {
            Ok(Some(x)) => x,
            _ => return (false, None),
        };
        proof {
            lemma_read_box_span(data@, p as int);
        }
        if code(&b.kind) == FTYP && b.body.len() >= 4 {
            let m: [u8; 4] = [b.body[0], b.body[1], b.body[2], b.body[3]];
            proof {
                let (e2, bs, k) = spec_read_box(data@, p as int)->Ok_0->Some_0;
                assert(m@ =~= data@.subrange(bs, bs + 4));
            }
            return (is_heic_brand(m), Some(m));
        }
        p = end;
    }
    (false, None)
}

/// Offset of the first top-level `mdat` box at or after `p`, scanning while boxes read.
pub open spec fn mdat_scan(d: Seq<u8>, p: int) -> Option<int>
    decreases d.len() - p,
{
    if p < 0 || p >= d.len() {
        None
    } else {
        match spec_read_box(d, p) {
            Ok(Some((end, bs, k))) => if code_of(k) == MDAT {
                Some(p)
            } else {
                mdat_scan(d, end)
            },
            _ => None,
        }
    }
}

/// Start offset of the first `mdat` *box* (its size field) in the file.
fn first_mdat_start(data: &[u8]) -> (r: Option<usize>)
    requires
        data@.len() <= isize::MAX,
    ensures
        r is Some == mdat_scan(data@, 0) is Some,
        r matches Some(a) ==> mdat_scan(data@, 0) == Some(a as int),
{
    let mut p: usize = 0;
    while p < data.len()
        invariant
            p <= data@.len() <= isize::MAX,
            mdat_scan(data@, 0) == mdat_scan(data@, p as int),
        decreases data@.len() - p,
    {
        match read_box(data, p) {
            Ok(Some((end, b))) => {
                proof {
                    lemma_read_box_span(data@, p as int);
                }
                if code(&b.kind) == MDAT {
                    return Some(p);
                }
                p = end;
            },
            _ => return None,
        }
    }
    None
}

/// A top-level `moof` box is reached at or after `p` while boxes read.
pub open spec fn moof_scan(d: Seq<u8>, p: int) -> bool
    decreases d.len() - p,
{
    if p < 0 || p >= d.len() {
        false
    } else {
        match spec_read_box(d, p) {
            Ok(Some((end, bs, k))) => code_of(k) == MOOF || moof_scan(d, end),
            _ => false,
        }
    }
}

fn has_moof(data: &[u8]) -> (r: bool)
    requires
        data@.len() <= isize::MAX,
    ensures
        r == moof_scan(data@, 0),
{
    let mut p: usize = 0;
    while p < data.len()
        invariant
            p <= data@.len() <= isize::MAX,
            moof_scan(data@, 0) == moof_scan(data@, p as int),
        decreases data@.len() - p,
    {
        if let Ok(Some((end, b))) = read_box(data, p) {
            proof {
                lemma_read_box_span(data@, p as int);
            }
            if code(&b.kind) == MOOF {
                return true;
            }
            p = end;
        } else {
            return false;
        }
    }
    false
}

} // verus!

verus! {

/// The child boxes of a `minf` box in `d[r..e]`, after filtering.
pub open spec fn minf_children(d: Seq<u8>, r: int, e: int, o: StripOptions) -> Result<Seq<u8>>
    decreases d.len() - r,
{
    if r < 0 || r >= e {
        Ok(seq![])
    } else {
        match spec_read_box(d, r) {
            Err(x) => Err(x),
            Ok(None) => Err(Error::BadQt),
            Ok(Some((end, bs, k))) => {
                proof {
                    lemma_read_box_span(d, r);
                }
                let c = code_of(k);
                let rest = minf_children(d, end, e, o);
                if end > e {
                    Err(Error::BadQt)
                } else {
                    then_append(d.subrange(r, end), rest)
                }
            },
        }
    }
}

/// A filtered `minf` box rebuilt from the box at `d[p..e]`.
pub open spec fn filter_minf_spec(d: Seq<u8>, p: int, e: int, o: StripOptions) -> Result<Seq<u8>> {
    match minf_children(d, p + 8, e, o) {
        Ok(ch) => spec_make_box(code_bytes(MINF), ch),
        Err(x) => Err(x),
    }
}

fn filter_minf(d: &[u8], p: usize, e: usize, o: &StripOptions) -> (r: Result<Vec<u8>>)
    requires
        p + 8 <= e <= d@.len() <= isize::MAX,
    ensures
        res_bytes(r) == filter_minf_spec(d@, p as int, e as int, *o),
{
    let mut out: Vec<u8> = Vec::new();
    let mut r = p + 8;
    proof {
        lemma_then_append_empty(minf_children(d@, r as int, e as int, *o));
    }
    while r < e
        invariant
            p + 8 <= r <= d@.len(),
            e <= d@.len() <= isize::MAX,
            minf_children(d@, p + 8, e as int, *o) == then_append(out@, minf_children(d@, r as int, e as int, *o)),
        decreases d@.len() - r,
    {
        let ghost old_out = out@;
        let (end, b) = match read_box(d, r) {
            Ok(Some(x)) => x,
            Ok(None) => return Err(Error::BadQt),
            Err(x) => return Err(x),
        };
        proof {
            lemma_read_box_span(d@, r as int);
        }
        if end > e {
            return Err(Error::BadQt);
        }
        let c = code(&b.kind);
        push_range(&mut out, d, r, end);
        proof {
            lemma_then_append_assoc(old_out, d@.subrange(r as int, end as int), minf_children(d@, end as int, e as int, *o));
        }
        r = end;
    }
    make_box(fourcc_bytes(MINF), out)
}

/// The child boxes of a `mdia` box in `d[r..e]`, after filtering.
pub open spec fn mdia_children(d: Seq<u8>, r: int, e: int, o: StripOptions) -> Result<Seq<u8>>
    decreases d.len() - r,
{
    if r < 0 || r >= e {
        Ok(seq![])
    } else {
        match spec_read_box(d, r) {
            Err(x) => Err(x),
            Ok(None) => Err(Error::BadQt),
            Ok(Some((end, bs, k))) => {
                proof {
                    lemma_read_box_span(d, r);
                }
                let c = code_of(k);
                let rest = mdia_children(d, end, e, o);
                if end > e {
                    Err(Error::BadQt)
                } else if c == UDTA || c == META {
                    rest
                } else if c == MINF {
                    seq_then(filter_minf_spec(d, r, end, o), rest)
                } else {
                    then_append(d.subrange(r, end), rest)
                }
            },
        }
    }
}

/// A filtered `mdia` box rebuilt from the box at `d[p..e]`.
pub open spec fn filter_mdia_spec(d: Seq<u8>, p: int, e: int, o: StripOptions) -> Result<Seq<u8>> {
    match mdia_children(d, p + 8, e, o) {
        Ok(ch) => spec_make_box(code_bytes(MDIA), ch),
        Err(x) => Err(x),
    }
}

fn filter_mdia(d: &[u8], p: usize, e: usize, o: &StripOptions) -> (r: Result<Vec<u8>>)
    requires
        p + 8 <= e <= d@.len() <= isize::MAX,
    ensures
        res_bytes(r) == filter_mdia_spec(d@, p as int, e as int, *o),
{
    let mut out: Vec<u8> = Vec::new();
    let mut r = p + 8;
    proof {
        lemma_then_append_empty(mdia_children(d@, r as int, e as int, *o));
    }
    while r < e
        invariant
            p + 8 <= r <= d@.len(),
            e <= d@.len() <= isize::MAX,
            mdia_children(d@, p + 8, e as int, *o) == then_append(out@, mdia_children(d@, r as int, e as int, *o)),
        decreases d@.len() - r,
    {
        let ghost old_out = out@;
        let (end, b) = match read_box(d, r) {
            Ok(Some(x)) => x,
            Ok(None) => return Err(Error::BadQt),
            Err(x) => return Err(x),
        };
        proof {
            lemma_read_box_span(d@, r as int);
        }
        if end > e {
            return Err(Error::BadQt);
        }
        let c = code(&b.kind);
        if c == UDTA || c == META {
            r = end;
            continue;
        }
        if c == MINF {
            let sub = match filter_minf(d, r, end, o) {
                Ok(v) => v,
                Err(x) => return Err(x),
            };
            push_range(&mut out, sub.as_slice(), 0, sub.len());
            proof {
                assert(sub@.subrange(0, sub@.len() as int) =~= sub@);
                lemma_then_append_assoc(old_out, sub@, mdia_children(d@, end as int, e as int, *o));
            }
        } else {
            push_range(&mut out, d, r, end);
            proof {
                lemma_then_append_assoc(old_out, d@.subrange(r as int, end as int), mdia_children(d@, end as int, e as int, *o));
            }
        }
        r = end;
    }
    make_box(fourcc_bytes(MDIA), out)
}

/// The child boxes of a `trak` box in `d[r..e]`, after filtering.
pub open spec fn trak_children(d: Seq<u8>, r: int, e: int, o: StripOptions) -> Result<Seq<u8>>
    decreases d.len() - r,
{
    if r < 0 || r >= e {
        Ok(seq![])
    } else {
        match spec_read_box(d, r) {
            Err(x) => Err(x),
            Ok(None) => Err(Error::BadQt),
            Ok(Some((end, bs, k))) => {
                proof {
                    lemma_read_box_span(d, r);
                }
                let c = code_of(k);
                let rest = trak_children(d, end, e, o);
                if end > e {
                    Err(Error::BadQt)
                } else if c == UDTA || c == META {
                    rest
                } else if c == UUID && is_xmp_body(d.subrange(bs, end)) {
                    rest
                } else if c == MDIA {
                    seq_then(filter_mdia_spec(d, r, end, o), rest)
                } else {
                    then_append(d.subrange(r, end), rest)
                }
            },
        }
    }
}

/// A filtered `trak` box rebuilt from the box at `d[p..e]`.
pub open spec fn filter_trak_spec(d: Seq<u8>, p: int, e: int, o: StripOptions) -> Result<Seq<u8>> {
    match trak_children(d, p + 8, e, o) {
        Ok(ch) => spec_make_box(code_bytes(TRAK), ch),
        Err(x) => Err(x),
    }
}

fn filter_trak(d: &[u8], p: usize, e: usize, o: &StripOptions) -> (r: Result<Vec<u8>>)
    requires
        p + 8 <= e <= d@.len() <= isize::MAX,
    ensures
        res_bytes(r) == filter_trak_spec(d@, p as int, e as int, *o),
{
    let mut out: Vec<u8> = Vec::new();
    let mut r = p + 8;
    proof {
        lemma_then_append_empty(trak_children(d@, r as int, e as int, *o));
    }
    while r < e
        invariant
            p + 8 <= r <= d@.len(),
            e <= d@.len() <= isize::MAX,
            trak_children(d@, p + 8, e as int, *o) == then_append(out@, trak_children(d@, r as int, e as int, *o)),
        decreases d@.len() - r,
    {
        let ghost old_out = out@;
        let (end, b) = match read_box(d, r) {
            Ok(Some(x)) => x,
            Ok(None) => return Err(Error::BadQt),
            Err(x) => return Err(x),
        };
        proof {
            lemma_read_box_span(d@, r as int);
        }
        if end > e {
            return Err(Error::BadQt);
        }
        let c = code(&b.kind);
        if c == UDTA || c == META {
            r = end;
            continue;
        }
        if c == UUID && is_xmp(b.body) {
            r = end;
            continue;
        }
        if c == MDIA {
            let sub = match filter_mdia(d, r, end, o) {
                Ok(v) => v,
                Err(x) => return Err(x),
            };
            push_range(&mut out, sub.as_slice(), 0, sub.len());
            proof {
                assert(sub@.subrange(0, sub@.len() as int) =~= sub@);
                lemma_then_append_assoc(old_out, sub@, trak_children(d@, end as int, e as int, *o));
            }
        } else {
            push_range(&mut out, d, r, end);
            proof {
                lemma_then_append_assoc(old_out, d@.subrange(r as int, end as int), trak_children(d@, end as int, e as int, *o));
            }
        }
        r = end;
    }
    make_box(fourcc_bytes(TRAK), out)
}

/// The child boxes of a `moov` box in `d[r..e]`, after filtering.
pub open spec fn moov_children(d: Seq<u8>, r: int, e: int, o: StripOptions) -> Result<Seq<u8>>
    decreases d.len() - r,
{
    if r < 0 || r >= e {
        Ok(seq![])
    } else {
        match spec_read_box(d, r) {
            Err(x) => Err(x),
            Ok(None) => Err(Error::BadQt),
            Ok(Some((end, bs, k))) => {
                proof {
                    lemma_read_box_span(d, r);
                }
                let c = code_of(k);
                let rest = moov_children(d, end, e, o);
                if end > e {
                    Err(Error::BadQt)
                } else if c == UDTA || c == META {
                    rest
                } else if c == UUID && is_xmp_body(d.subrange(bs, end)) {
                    rest
                } else if c == TRAK {
                    seq_then(filter_trak_spec(d, r, end, o), rest)
                } else {
                    then_append(d.subrange(r, end), rest)
                }
            },
        }
    }
}

/// A filtered `moov` box rebuilt from the box at `d[p..e]`.
pub open spec fn filter_moov_spec(d: Seq<u8>, p: int, e: int, o: StripOptions) -> Result<Seq<u8>> {
    match moov_children(d, p + 8, e, o) {
        Ok(ch) => spec_make_box(code_bytes(MOOV), ch),
        Err(x) => Err(x),
    }
}

fn filter_moov(d: &[u8], p: usize, e: usize, o: &StripOptions) -> (r: Result<Vec<u8>>)
    requires
        p + 8 <= e <= d@.len() <= isize::MAX,
    ensures
        res_bytes(r) == filter_moov_spec(d@, p as int, e as int, *o),
{
    let mut out: Vec<u8> = Vec::new();
    let mut r = p + 8;
    proof {
        lemma_then_append_empty(moov_children(d@, r as int, e as int, *o));
    }
    while r < e
        invariant
            p + 8 <= r <= d@.len(),
            e <= d@.len() <= isize::MAX,
            moov_children(d@, p + 8, e as int, *o) == then_append(out@, moov_children(d@, r as int, e as int, *o)),
        decreases d@.len() - r,
    {
        let ghost old_out = out@;
        let (end, b) = match read_box(d, r) {
            Ok(Some(x)) => x,
            Ok(None) => return Err(Error::BadQt),
            Err(x) => return Err(x),
        };
        proof {
            lemma_read_box_span(d@, r as int);
        }
        if end > e {
            return Err(Error::BadQt);
        }
        let c = code(&b.kind);
        if c == UDTA || c == META {
            r = end;
            continue;
        }
        if c == UUID && is_xmp(b.body) {
            r = end;
            continue;
        }
        if c == TRAK {
            let sub = match filter_trak(d, r, end, o) {
                Ok(v) => v,
                Err(x) => return Err(x),
            };
            push_range(&mut out, sub.as_slice(), 0, sub.len());
            proof {
                assert(sub@.subrange(0, sub@.len() as int) =~= sub@);
                lemma_then_append_assoc(old_out, sub@, moov_children(d@, end as int, e as int, *o));
            }
        } else {
            push_range(&mut out, d, r, end);
            proof {
                lemma_then_append_assoc(old_out, d@.subrange(r as int, end as int), moov_children(d@, end as int, e as int, *o));
            }
        }
        r = end;
    }
    make_box(fourcc_bytes(MOOV), out)
}

/// The child boxes of a `ipco` box in `d[r..e]`, after filtering.
pub open spec fn ipco_children(d: Seq<u8>, r: int, e: int, o: StripOptions) -> Result<Seq<u8>>
    decreases d.len() - r,
{
    if r < 0 || r >= e {
        Ok(seq![])
    } else {
        match spec_read_box(d, r) {
            Err(x) => Err(x),
            Ok(None) => Err(Error::BadQt),
            Ok(Some((end, bs, k))) => {
                proof {
                    lemma_read_box_span(d, r);
                }
                let c = code_of(k);
                let rest = ipco_children(d, end, e, o);
                if c == COLR && !o.keep_icc {
                    rest
                } else {
                    then_append(d.subrange(r, end), rest)
                }
            },
        }
    }
}

/// A filtered `ipco` box rebuilt from the box at `d[p..e]`.
pub open spec fn filter_ipco_spec(d: Seq<u8>, p: int, e: int, o: StripOptions) -> Result<Seq<u8>> {
    match ipco_children(d, p + 8, e, o) {
        Ok(ch) => spec_make_box(code_bytes(IPCO), ch),
        Err(x) => Err(x),
    }
}

fn filter_ipco(d: &[u8], p: usize, e: usize, o: &StripOptions) -> (r: Result<Vec<u8>>)
    requires
        p + 8 <= e <= d@.len() <= isize::MAX,
    ensures
        res_bytes(r) == filter_ipco_spec(d@, p as int, e as int, *o),
{
    let mut out: Vec<u8> = Vec::new();
    let mut r = p + 8;
    proof {
        lemma_then_append_empty(ipco_children(d@, r as int, e as int, *o));
    }
    while r < e
        invariant
            p + 8 <= r <= d@.len(),
            e <= d@.len() <= isize::MAX,
            ipco_children(d@, p + 8, e as int, *o) == then_append(out@, ipco_children(d@, r as int, e as int, *o)),
        decreases d@.len() - r,
    {
        let ghost old_out = out@;
        let (end, b) = match read_box(d, r) {
            Ok(Some(x)) => x,
            Ok(None) => return Err(Error::BadQt),
            Err(x) => return Err(x),
        };
        proof {
            lemma_read_box_span(d@, r as int);
        }
        let c = code(&b.kind);
        if c == COLR && !o.keep_icc {
            r = end;
            continue;
        }
        push_range(&mut out, d, r, end);
        proof {
            lemma_then_append_assoc(old_out, d@.subrange(r as int, end as int), ipco_children(d@, end as int, e as int, *o));
        }
        r = end;
    }
    make_box(fourcc_bytes(IPCO), out)
}

/// The child boxes of a `iprp` box in `d[r..e]`, after filtering.
pub open spec fn iprp_children(d: Seq<u8>, r: int, e: int, o: StripOptions) -> Result<Seq<u8>>
    decreases d.len() - r,
{
    if r < 0 || r >= e {
        Ok(seq![])
    } else {
        match spec_read_box(d, r) {
            Err(x) => Err(x),
            Ok(None) => Err(Error::BadQt),
            Ok(Some((end, bs, k))) => {
                proof {
                    lemma_read_box_span(d, r);
                }
                let c = code_of(k);
                let rest = iprp_children(d, end, e, o);
                if c == IPCO {
                    seq_then(filter_ipco_spec(d, r, end, o), rest)
                } else {
                    then_append(d.subrange(r, end), rest)
                }
            },
        }
    }
}

/// A filtered `iprp` box rebuilt from the box at `d[p..e]`.
pub open spec fn filter_iprp_spec(d: Seq<u8>, p: int, e: int, o: StripOptions) -> Result<Seq<u8>> {
    match iprp_children(d, p + 8, e, o) {
        Ok(ch) => spec_make_box(code_bytes(IPRP), ch),
        Err(x) => Err(x),
    }
}

fn filter_iprp(d: &[u8], p: usize, e: usize, o: &StripOptions) -> (r: Result<Vec<u8>>)
    requires
        p + 8 <= e <= d@.len() <= isize::MAX,
    ensures
        res_bytes(r) == filter_iprp_spec(d@, p as int, e as int, *o),
{
    let mut out: Vec<u8> = Vec::new();
    let mut r = p + 8;
    proof {
        lemma_then_append_empty(iprp_children(d@, r as int, e as int, *o));
    }
    while r < e
        invariant
            p + 8 <= r <= d@.len(),
            e <= d@.len() <= isize::MAX,
            iprp_children(d@, p + 8, e as int, *o) == then_append(out@, iprp_children(d@, r as int, e as int, *o)),
        decreases d@.len() - r,
    {
        let ghost old_out = out@;
        let (end, b) = match read_box(d, r) {
            Ok(Some(x)) => x,
            Ok(None) => return Err(Error::BadQt),
            Err(x) => return Err(x),
        };
        proof {
            lemma_read_box_span(d@, r as int);
        }
        let c = code(&b.kind);
        if c == IPCO {
            let sub = match filter_ipco(d, r, end, o) {
                Ok(v) => v,
                Err(x) => return Err(x),
            };
            push_range(&mut out, sub.as_slice(), 0, sub.len());
            proof {
                assert(sub@.subrange(0, sub@.len() as int) =~= sub@);
                lemma_then_append_assoc(old_out, sub@, iprp_children(d@, end as int, e as int, *o));
            }
        } else {
            push_range(&mut out, d, r, end);
            proof {
                lemma_then_append_assoc(old_out, d@.subrange(r as int, end as int), iprp_children(d@, end as int, e as int, *o));
            }
        }
        r = end;
    }
    make_box(fourcc_bytes(IPRP), out)
}

} // verus!

verus! {

/// The child boxes of a file-level HEIF `meta` box in `d[r..e]`, after filtering.
pub open spec fn top_meta_children(d: Seq<u8>, r: int, e: int, o: StripOptions) -> Result<Seq<u8>>
    decreases d.len() - r,
{
    if r < 0 || r >= e {
        Ok(seq![])
    } else {
        match spec_read_box(d, r) {
            Err(x) => Err(x),
            Ok(None) => Err(Error::BadQt),
            Ok(Some((end, bs, k))) => {
                proof {
                    lemma_read_box_span(d, r);
                }
                let c = code_of(k);
                let rest = top_meta_children(d, end, e, o);
                if c == META {
                    rest
                } else if c == UUID && is_xmp_body(d.subrange(bs, end)) {
                    rest
                } else if c == IPRP {
                    seq_then(filter_iprp_spec(d, r, end, o), rest)
                } else {
                    then_append(d.subrange(r, end), rest)
                }
            },
        }
    }
}

/// The file-level HEIF `meta` box at `d[p..e]` with nested `meta` and XMP removed and `iprp`
/// filtered; kept as it is when too short to hold its version field.
pub open spec fn filter_top_meta_spec(d: Seq<u8>, p: int, e: int, o: StripOptions) -> Result<Seq<u8>> {
    if p + 12 > e {
        Ok(d.subrange(p, e))
    } else {
        match top_meta_children(d, p + 12, e, o) {
            Ok(ch) => spec_make_box(code_bytes(META), d.subrange(p + 8, p + 12) + ch),
            Err(x) => Err(x),
        }
    }
}

/// HEIC / HEIF `meta` at file level: keep structure, remove XMP `uuid` and (optional) colr
fn filter_top_meta(d: &[u8], p: usize, e: usize, o: &StripOptions) -> (r: Result<Vec<u8>>)
    requires
        p + 8 <= e <= d@.len() <= isize::MAX,
    ensures
        res_bytes(r) == filter_top_meta_spec(d@, p as int, e as int, *o),
{
    if p + 8 + 4 > e {
        return Ok(copy_range(d, p, e));
    }
    let mut out: Vec<u8> = Vec::new();
    push_range(&mut out, d, p + 8, p + 12);
    let ghost verf = out@;
    let mut ch: Vec<u8> = Vec::new();
    let mut r = p + 12;
    proof {
        lemma_then_append_empty(top_meta_children(d@, r as int, e as int, *o));
    }
    while r < e
        invariant
            p + 12 <= r <= d@.len(),
            e <= d@.len() <= isize::MAX,
            top_meta_children(d@, p + 12, e as int, *o) == then_append(
                ch@,
                top_meta_children(d@, r as int, e as int, *o),
            ),
        decreases d@.len() - r,
    {
        let ghost old_ch = ch@;
        let (end, b) = match read_box(d, r) {
            Ok(Some(x)) => x,
            Ok(None) => return Err(Error::BadQt),
            Err(x) => return Err(x),
        };
        proof {
            lemma_read_box_span(d@, r as int);
        }
        let c = code(&b.kind);
        if c == META {
            r = end;
            continue;
        }
        if c == UUID && is_xmp(b.body) {
            r = end;
            continue;
        }
        if c == IPRP {
            let sub = match filter_iprp(d, r, end, o) {
                Ok(v) => v,
                Err(x) => return Err(x),
            };
            push_range(&mut ch, sub.as_slice(), 0, sub.len());
            proof {
                assert(sub@.subrange(0, sub@.len() as int) =~= sub@);
                lemma_then_append_assoc(old_ch, sub@, top_meta_children(d@, end as int, e as int, *o));
            }
        } else {
            push_range(&mut ch, d, r, end);
            proof {
                lemma_then_append_assoc(
                    old_ch,
                    d@.subrange(r as int, end as int),
                    top_meta_children(d@, end as int, e as int, *o),
                );
            }
        }
        r = end;
    }
    push_range(&mut out, ch.as_slice(), 0, ch.len());
    assert(ch@.subrange(0, ch@.len() as int) =~= ch@);
    make_box(fourcc_bytes(META), out)
}

/// The top-level boxes of `d` from `p` on, after filtering.
pub open spec fn top_children(d: Seq<u8>, p: int, is_heic: bool, o: StripOptions) -> Result<Seq<u8>>
    decreases d.len() - p,
{
    if p < 0 || p >= d.len() {
        Ok(seq![])
    } else {
        match spec_read_box(d, p) {
            Err(x) => Err(x),
            Ok(None) => Err(Error::BadQt),
            Ok(Some((end, bs, k))) => {
                proof {
                    lemma_read_box_span(d, p);
                }
                let c = code_of(k);
                let rest = top_children(d, end, is_heic, o);
                if c == MOOF {
                    Err(Error::Unsupported("fragmented MP4 (moof)"))
                } else if c == FREE || c == SKIP {
                    rest
                } else if c == MOOV {
                    seq_then(filter_moov_spec(d, p, end, o), rest)
                } else if c == META {
                    if is_heic {
                        seq_then(filter_top_meta_spec(d, p, end, o), rest)
                    } else {
                        rest
                    }
                } else if c == UUID && is_xmp_body(d.subrange(bs, end)) {
                    rest
                } else {
                    then_append(d.subrange(p, end), rest)
                }
            },
        }
    }
}

/// The file with its metadata boxes removed, before offsets are patched.
pub open spec fn filter_top_spec(d: Seq<u8>, is_heic: bool, o: StripOptions) -> Result<Seq<u8>> {
    if moof_scan(d, 0) {
        Err(Error::Unsupported("fragmented MP4 (moof)"))
    } else {
        top_children(d, 0, is_heic, o)
    }
}

fn filter_top(d: &[u8], is_heic: bool, o: &StripOptions) -> (r: Result<Vec<u8>>)
    requires
        d@.len() <= isize::MAX,
    ensures
        res_bytes(r) == filter_top_spec(d@, is_heic, *o),
{
    if has_moof(d) {
        return Err(Error::Unsupported("fragmented MP4 (moof)"));
    }
    let mut out: Vec<u8> = Vec::new();
    let mut p: usize = 0;
    proof {
        lemma_then_append_empty(top_children(d@, 0, is_heic, *o));
    }
    while p < d.len()
        invariant
            p <= d@.len() <= isize::MAX,
            !moof_scan(d@, 0),
            top_children(d@, 0, is_heic, *o) == then_append(out@, top_children(d@, p as int, is_heic, *o)),
        decreases d@.len() - p,
    {
        let ghost old_out = out@;
        let (end, b) = match read_box(d, p) {
            Ok(Some(x)) => x,
            Ok(None) => return Err(Error::BadQt),
            Err(x) => return Err(x),
        };
        proof {
            lemma_read_box_span(d@, p as int);
        }
        let c = code(&b.kind);
        if c == MOOF {
            return Err(Error::Unsupported("fragmented MP4 (moof)"));
        }
        if c == FREE || c == SKIP {
            p = end;
            continue;
        }
        if c == MOOV || (c == META && is_heic) {
            let sub = if c == MOOV {
                filter_moov(d, p, end, o)
            } else {
                filter_top_meta(d, p, end, o)
            };
            let sub = match sub {
                Ok(v) => v,
                Err(x) => return Err(x),
            };
            push_range(&mut out, sub.as_slice(), 0, sub.len());
            proof {
                assert(sub@.subrange(0, sub@.len() as int) =~= sub@);
                lemma_then_append_assoc(old_out, sub@, top_children(d@, end as int, is_heic, *o));
            }
        } else if c == META {
            p = end;
            continue;
        } else if c == UUID && is_xmp(b.body) {
            p = end;
            continue;
        } else {
            push_range(&mut out, d, p, end);
            proof {
                lemma_then_append_assoc(
                    old_out,
                    d@.subrange(p as int, end as int),
                    top_children(d@, end as int, is_heic, *o),
                );
            }
        }
        p = end;
    }
    Ok(out)
}

} // verus!

verus! {

/// `Ok(new)` when `r` succeeded, paired with what `s` says the buffer becomes.
pub open spec fn patched(r: Result<()>, new: Seq<u8>, s: Result<Seq<u8>>) -> bool {
    match s {
        Ok(d2) => r is Ok && new == d2,
        Err(x) => r == Err::<(), Error>(x),
    }
}

/// Length of the header of the box at `p`: 16 with a 64-bit size, else 8.
pub open spec fn header_len_spec(d: Seq<u8>, p: int) -> Result<int> {
    if p + 8 > d.len() {
        Err(Error::BadQt)
    } else if be_value(d.subrange(p, p + 4)) == 1 {
        Ok(16)
    } else {
        Ok(8)
    }
}

fn box_header_len(d: &Vec<u8>, p: usize) -> (r: Result<usize>)
    requires
        d@.len() <= isize::MAX,
    ensures
        match header_len_spec(d@, p as int) {
            Ok(h) => r == Ok::<usize, Error>(h as usize),
            Err(x) => r == Err::<usize, Error>(x),
        },
{
    if p > d.len() || d.len() - p < 8 {
        return Err(Error::BadQt);
    }
    let s = be_u32_at(d.as_slice(), p);
    if s == 1 {
        Ok(16)
    } else {
        Ok(8)
    }
}

/// Subtracts `dlt` from each 32-bit chunk offset of an `stco` table, entries `i..n`.
pub open spec fn stco_loop(d: Seq<u8>, pl: int, e: int, i: nat, n: nat, dlt: u64) -> Result<Seq<u8>>
    decreases n - i,
{
    if i >= n {
        Ok(d)
    } else {
        let o = pl + 8 + 4 * i;
        if o + 4 > e {
            Ok(d)
        } else {
            let v = be_value(d.subrange(o, o + 4));
            if v < dlt {
                Err(Error::OffsetOverflow)
            } else {
                stco_loop(put_be(d, o, (v - dlt) as nat, 4), pl, e, i + 1, n, dlt)
            }
        }
    }
}

/// The `stco` box at `d[p..e]` with every chunk offset lowered by `dlt`.
pub open spec fn patch_stco_spec(d: Seq<u8>, p: int, e: int, dlt: u64) -> Result<Seq<u8>> {
    match header_len_spec(d, p) {
        Err(x) => Err(x),
        Ok(hl) => {
            let pl = p + hl;
            if pl + 8 > e {
                Ok(d)
            } else {
                stco_loop(d, pl, e, 0, be_value(d.subrange(pl + 4, pl + 8)), dlt)
            }
        },
    }
}

/// Inner `stco` payload: FullBox, then n × offset.
fn patch_stco(d: &mut Vec<u8>, p: usize, e: usize, dlt: u64) -> (r: Result<()>)
    requires
        p <= e <= old(d)@.len() <= isize::MAX,
    ensures
        final(d)@.len() == old(d)@.len(),
        patched(r, final(d)@, patch_stco_spec(old(d)@, p as int, e as int, dlt)),
{
    let hl = match box_header_len(d, p) {
        Ok(h) => h,
        Err(x) => return Err(x),
    };
    let pl = p + hl;
    if pl + 8 > e {
        return Ok(());
    }
    let n = be_u32_at(d.as_slice(), pl + 4) as usize;
    let ghost n0 = n as nat;
    let mut i: usize = 0;
    while i < n
        invariant
            i <= n,
            n == n0,
            pl + 8 <= e <= d@.len() <= isize::MAX,
            d@.len() == old(d)@.len(),
            pl + 8 + 4 * i <= e + 4,
            patch_stco_spec(old(d)@, p as int, e as int, dlt) == stco_loop(d@, pl as int, e as int, i as nat, n0, dlt),
        decreases n - i,
    {
        let o = pl + 8 + i * 4;
        if o + 4 > e {
            return Ok(());
        }
        let v = be_u32_at(d.as_slice(), o);
        if (v as u64) < dlt {
            return Err(Error::OffsetOverflow);
        }
        let n2 = (v as u64 - dlt) as u32;
        set_be32(d, o, n2);
        i += 1;
    }
    Ok(())
}

/// Subtracts `dlt` from each 64-bit chunk offset of a `co64` table, entries `i..n`.
pub open spec fn co64_loop(d: Seq<u8>, pl: int, e: int, i: nat, n: nat, dlt: u64) -> Result<Seq<u8>>
    decreases n - i,
{
    if i >= n {
        Ok(d)
    } else {
        let o = pl + 8 + 8 * i;
        if o + 8 > e {
            Ok(d)
        } else {
            let v = be_value(d.subrange(o, o + 8));
            if v < dlt {
                Err(Error::OffsetOverflow)
            } else {
                co64_loop(put_be(d, o, (v - dlt) as nat, 8), pl, e, i + 1, n, dlt)
            }
        }
    }
}

/// The `co64` box at `d[p..e]` with every chunk offset lowered by `dlt`.
pub open spec fn patch_co64_spec(d: Seq<u8>, p: int, e: int, dlt: u64) -> Result<Seq<u8>> {
    match header_len_spec(d, p) {
        Err(x) => Err(x),
        Ok(hl) => {
            let pl = p + hl;
            if pl + 8 > e {
                Ok(d)
            } else {
                co64_loop(d, pl, e, 0, be_value(d.subrange(pl + 4, pl + 8)), dlt)
            }
        },
    }
}

fn patch_co64(d: &mut Vec<u8>, p: usize, e: usize, dlt: u64) -> (r: Result<()>)
    requires
        p <= e <= old(d)@.len() <= isize::MAX,
    ensures
        final(d)@.len() == old(d)@.len(),
        patched(r, final(d)@, patch_co64_spec(old(d)@, p as int, e as int, dlt)),
{
    let hl = match box_header_len(d, p) {
        Ok(h) => h,
        Err(x) => return Err(x),
    };
    let pl = p + hl;
    if pl + 8 > e {
        return Ok(());
    }
    let n = be_u32_at(d.as_slice(), pl + 4) as usize;
    let ghost n0 = n as nat;
    let mut i: usize = 0;
    while i < n
        invariant
            i <= n,
            n == n0,
            pl + 8 <= e <= d@.len() <= isize::MAX,
            d@.len() == old(d)@.len(),
            pl + 8 + 8 * i <= e + 8,
            patch_co64_spec(old(d)@, p as int, e as int, dlt) == co64_loop(d@, pl as int, e as int, i as nat, n0, dlt),
        decreases n - i,
    {
        let o = pl + 8 + i * 8;
        if o + 8 > e {
            return Ok(());
        }
        let v = be_u64_at(d.as_slice(), o);
        let n2 = match v.checked_sub(dlt) {
            Some(x) => x,
            None => return Err(Error::OffsetOverflow),
        };
        set_be64(d, o, n2);
        i += 1;
    }
    Ok(())
}

} // verus!

verus! {

/// Reads a 0-, 4- or 8-byte big-endian field at body offset `c` (body `d[q..q + blen]`):
/// the value and the offset after it.
pub open spec fn sized_read(d: Seq<u8>, q: int, blen: int, c: int, n: u8) -> Result<(nat, int)> {
    if n == 0 {
        Ok((0, c))
    } else if n == 4 {
        if c + 4 > blen {
            Err(Error::BadQt)
        } else {
            Ok((be_value(d.subrange(q + c, q + c + 4)), c + 4))
        }
    } else if n == 8 {
        if c + 8 > blen {
            Err(Error::BadQt)
        } else {
            Ok((be_value(d.subrange(q + c, q + c + 8)), c + 8))
        }
    } else {
        Err(Error::Unsupported("iloc: odd size field width"))
    }
}

/// Writes `v` into a 0-, 4- or 8-byte field at body offset `c`.
pub open spec fn sized_write(d: Seq<u8>, q: int, blen: int, c: int, n: u8, v: nat) -> Result<Seq<u8>> {
    if n == 0 {
        Ok(d)
    } else if n == 4 {
        if c + 4 > blen {
            Err(Error::BadQt)
        } else if v > u32::MAX {
            Err(Error::OffsetOverflow)
        } else {
            Ok(put_be(d, q + c, v, 4))
        }
    } else if n == 8 {
        if c + 8 > blen {
            Err(Error::BadQt)
        } else {
            Ok(put_be(d, q + c, v, 8))
        }
    } else {
        Err(Error::Unsupported("iloc: odd size field width"))
    }
}

/// The `iloc` layout: item version and field widths.
#[derive(Clone, Copy)]
pub struct IlocLayout {
    pub version: u8,
    pub offset_size: u8,
    pub length_size: u8,
    pub base_offset_size: u8,
}

/// Writes `v` into a 0-, 4- or 8-byte field at body offset `c`: the buffer afterwards and
/// whether the write succeeded (on failure nothing is written).
pub open spec fn iloc_write(d: Seq<u8>, q: int, blen: int, c: int, n: u8, v: nat) -> (Seq<u8>, Result<()>) {
    match sized_write(d, q, blen, c, n, v) {
        Ok(d2) => (d2, Ok(())),
        Err(x) => (d, Err(x)),
    }
}

/// Stores the lowered absolute offset `nabs` of one extent: into the extent offset field,
/// with the base offset field cleared, or into the base offset field when the item has no
/// extent offset field. The buffer afterwards and whether the writes succeeded.
pub open spec fn iloc_store(d: Seq<u8>, q: int, blen: int, base_start: int, ext_start: int, l: IlocLayout, nabs: nat) -> (
    Seq<u8>,
    Result<()>,
) {
    if l.offset_size == 0 {
        if l.base_offset_size > 0 {
            iloc_write(d, q, blen, base_start, l.base_offset_size, nabs)
        } else {
            (d, Ok(()))
        }
    } else {
        let (d1, r1) = if l.base_offset_size > 0 {
            iloc_write(d, q, blen, base_start, l.base_offset_size, 0)
        } else {
            (d, Ok(()))
        };
        match r1 {
            Err(x) => (d1, Err(x)),
            Ok(()) => iloc_write(d1, q, blen, ext_start, l.offset_size, nabs),
        }
    }
}

/// The extent of one `iloc` item, after its header fields, is patched; `base_start` is the
/// body offset of its base offset field. The buffer where the patch stops and how it ends.
pub open spec fn iloc_extent(
    d: Seq<u8>,
    q: int,
    blen: int,
    base_start: int,
    k: nat,
    offset_type: nat,
    l: IlocLayout,
    dlt: u64,
) -> (Seq<u8>, Result<()>)
    decreases k, 2nat,
{
    match sized_read(d, q, blen, base_start, l.base_offset_size) {
        Err(x) => (d, Err(x)),
        Ok((base, c4)) => if c4 + 2 > blen {
            (d, Err(Error::BadQt))
        } else {
            let ec = be_value(d.subrange(q + c4, q + c4 + 2));
            let c5 = c4 + 2;
            if ec > 1 {
                (d, Err(Error::Unsupported("iloc: extent_count > 1")))
            } else if ec == 0 {
                iloc_items(d, q, blen, c5, k, l, dlt)
            } else {
                match sized_read(d, q, blen, c5, l.offset_size) {
                    Err(x) => (d, Err(x)),
                    Ok((ext, c6)) => match sized_read(d, q, blen, c6, l.length_size) {
                        Err(x) => (d, Err(x)),
                        Ok((_len, c7)) => if l.version > 0 && offset_type == 1 {
                            iloc_items(d, q, blen, c7, k, l, dlt)
                        } else if base + ext > u64::MAX {
                            (d, Err(Error::BadQt))
                        } else if base + ext < dlt {
                            (d, Err(Error::OffsetOverflow))
                        } else {
                            let nabs = (base + ext - dlt) as nat;
                            let (d2, r2) = iloc_store(d, q, blen, base_start, c5, l, nabs);
                            match r2 {
                                Err(x) => (d2, Err(x)),
                                Ok(()) => iloc_items(d2, q, blen, c7, k, l, dlt),
                            }
                        },
                    },
                }
            }
        },
    }
}

/// Patches the remaining `k` items of an `iloc` body starting at body offset `c`: the
/// buffer where the patch stops and how it ends.
pub open spec fn iloc_items(d: Seq<u8>, q: int, blen: int, c: int, k: nat, l: IlocLayout, dlt: u64) -> (
    Seq<u8>,
    Result<()>,
)
    decreases k, 1nat,
{
    if k == 0 {
        (d, Ok(()))
    } else if c + 2 > blen {
        (d, Err(Error::BadQt))
    } else {
        let c1 = c + 2;
        if l.version > 0 && c1 + 2 > blen {
            (d, Err(Error::BadQt))
        } else {
            let offset_type: nat = if l.version > 0 {
                be_value(d.subrange(q + c1, q + c1 + 2)) % 16
            } else {
                0
            };
            let c2 = if l.version > 0 { c1 + 2 } else { c1 };
            if c2 + 2 > blen {
                (d, Err(Error::BadQt))
            } else {
                iloc_extent(d, q, blen, c2 + 2, (k - 1) as nat, offset_type, l, dlt)
            }
        }
    }
}

/// The `iloc` box at `d[p..e]` with every absolute extent offset lowered by `dlt` (versions
/// 0 and 1, at most one extent per item): the buffer where the patch stops and how it
/// ends. The fields of the items before a failing one stay patched.
pub open spec fn patch_iloc_outcome(d: Seq<u8>, p: int, e: int, dlt: u64) -> (Seq<u8>, Result<()>) {
    match header_len_spec(d, p) {
        Err(x) => (d, Err(x)),
        Ok(hl) => if p + hl > e {
            (d, Err(Error::BadQt))
        } else {
            let q = p + hl;
            let blen = e - q;
            if blen == 0 {
                (d, Ok(()))
            } else if d[q] > 1 {
                (d, Err(Error::Unsupported("iloc: version not supported (need 0/1)")))
            } else if 4 >= blen {
                (d, Ok(()))
            } else if 5 >= blen {
                (d, Err(Error::BadQt))
            } else {
                let version = d[q];
                let value = d[q + 4];
                let value2 = d[q + 5];
                let index_size = if version == 0 { 0 } else { value2 % 16 };
                if index_size != 0 {
                    (d, Err(Error::Unsupported("iloc: index_size != 0")))
                } else if 8 > blen {
                    (d, Err(Error::BadQt))
                } else {
                    let l = IlocLayout {
                        version,
                        offset_size: value / 16,
                        length_size: value % 16,
                        base_offset_size: value2 / 16,
                    };
                    iloc_items(d, q, blen, 8, be_value(d.subrange(q + 6, q + 8)), l, dlt)
                }
            }
        },
    }
}

/// The patched `iloc` box, or the error that stopped the patch.
pub open spec fn patch_iloc_spec(d: Seq<u8>, p: int, e: int, dlt: u64) -> Result<Seq<u8>> {
    match patch_iloc_outcome(d, p, e, dlt).1 {
        Ok(()) => Ok(patch_iloc_outcome(d, p, e, dlt).0),
        Err(x) => Err(x),
    }
}

/// Read 0/4/8-byte size field (FFmpeg `rb_size` semantics).
fn read_sized_n(d: &Vec<u8>, q: usize, blen: usize, c: usize, n: u8) -> (r: Result<(u64, usize)>)
    requires
        q + blen <= d@.len() <= isize::MAX,
        c <= blen,
    ensures
        match sized_read(d@, q as int, blen as int, c as int, n) {
            Ok((v, c2)) => r is Ok && r->Ok_0.0 == v && r->Ok_0.1 == c2,
            Err(x) => r == Err::<(u64, usize), Error>(x),
        },
{
    if n == 0 {
        Ok((0, c))
    } else if n == 4 {
        if c + 4 > blen {
            return Err(Error::BadQt);
        }
        Ok((be_u32_at(d.as_slice(), q + c) as u64, c + 4))
    } else if n == 8 {
        if c + 8 > blen {
            return Err(Error::BadQt);
        }
        Ok((be_u64_at(d.as_slice(), q + c), c + 8))
    } else {
        Err(Error::Unsupported("iloc: odd size field width"))
    }
}

/// Write 0/4/8; `n==0` is no-op. On failure nothing is written.
fn write_sized_n(d: &mut Vec<u8>, q: usize, blen: usize, c: usize, n: u8, v: u64) -> (r: Result<()>)
    requires
        q + blen <= old(d)@.len() <= isize::MAX,
        c <= blen,
    ensures
        (final(d)@, r) == iloc_write(old(d)@, q as int, blen as int, c as int, n, v as nat),
{
    if n == 0 {
        Ok(())
    } else if n == 4 {
        if c + 4 > blen {
            return Err(Error::BadQt);
        }
        if v > 0xffff_ffff {
            return Err(Error::OffsetOverflow);
        }
        set_be32(d, q + c, v as u32);
        Ok(())
    } else if n == 8 {
        if c + 8 > blen {
            return Err(Error::BadQt);
        }
        set_be64(d, q + c, v);
        Ok(())
    } else {
        Err(Error::Unsupported("iloc: odd size field width"))
    }
}

/// Stores the lowered offset `nabs` of one extent (see `iloc_store`).
fn store_extent(d: &mut Vec<u8>, q: usize, blen: usize, base_start: usize, ext_start: usize, l: IlocLayout, nabs: u64) -> (r: Result<()>)
    requires
        q + blen <= old(d)@.len() <= isize::MAX,
        base_start <= blen,
        ext_start <= blen,
    ensures
        (final(d)@, r) == iloc_store(old(d)@, q as int, blen as int, base_start as int, ext_start as int, l, nabs as nat),
{
    if l.offset_size == 0 {
        if l.base_offset_size > 0 {
            return write_sized_n(d, q, blen, base_start, l.base_offset_size, nabs);
        }
        return Ok(());
    }
    proof {
        lemma_iloc_write_len(d@, q as int, blen as int, base_start as int, l.base_offset_size, 0);
    }
    if l.base_offset_size > 0 {
        match write_sized_n(d, q, blen, base_start, l.base_offset_size, 0) {
            Ok(()) => {},
            Err(x) => return Err(x),
        }
    }
    write_sized_n(d, q, blen, ext_start, l.offset_size, nabs)
}

/// Patches one `iloc` item whose fields start at body offset `c`; returns the offset after it.
#[verifier::rlimit(40)]
fn patch_iloc_item(
    d: &mut Vec<u8>,
    q: usize,
    blen: usize,
    c: usize,
    k: usize,
    l: IlocLayout,
    dlt: u64,
) -> (r: Result<usize>)
    requires
        q + blen <= old(d)@.len() <= isize::MAX,
        c <= blen,
        k > 0,
        l.version <= 1,
    ensures
        final(d)@.len() == old(d)@.len(),
        match r {
            Ok(c2) => c2 <= blen && iloc_items(old(d)@, q as int, blen as int, c as int, k as nat, l, dlt)
                == iloc_items(final(d)@, q as int, blen as int, c2 as int, (k - 1) as nat, l, dlt),
            Err(x) => iloc_items(old(d)@, q as int, blen as int, c as int, k as nat, l, dlt) == (
            final(d)@, Err::<(), Error>(x)),
        },
{
    let version = l.version;
    let c0 = c;
    let mut c = c;
    if c + 2 > blen {
        return Err(Error::BadQt);
    }
    c += 2;  // item_id
    let mut offset_type: u8 = 0;
    if version > 0 {
        if c + 2 > blen {
            return Err(Error::BadQt);
        }
        let t = be_u16_at(d.as_slice(), q + c);
        offset_type = (t & 0x0F) as u8;
        assert(t & 0x0F == t % 16) by (bit_vector);
        c += 2;
    }
    if c + 2 > blen {
        return Err(Error::BadQt);
    }
    c += 2;  // data_reference_index
    let base_start = c;
    let ghost ot: nat = offset_type as nat;
    assert(iloc_items(old(d)@, q as int, blen as int, c0 as int, k as nat, l, dlt) == iloc_extent(
        old(d)@,
        q as int,
        blen as int,
        base_start as int,
        (k - 1) as nat,
        ot,
        l,
        dlt,
    ));
    let (base, c4) = match read_sized_n(d, q, blen, c, l.base_offset_size) {
        Ok(x) => x,
        Err(x) => return Err(x),
    };
    c = c4;
    if c + 2 > blen {
        return Err(Error::BadQt);
    }
    let extent_count = be_u16_at(d.as_slice(), q + c);
    c += 2;
    if extent_count > 1 {
        return Err(Error::Unsupported("iloc: extent_count > 1"));
    }
    if extent_count == 0 {
        return Ok(c);
    }
    let ext_start = c;
    let (ext, c6) = match read_sized_n(d, q, blen, c, l.offset_size) {
        Ok(x) => x,
        Err(x) => return Err(x),
    };
    let (_ext_len, c7) = match read_sized_n(d, q, blen, c6, l.length_size) {
        Ok(x) => x,
        Err(x) => return Err(x),
    };
    c = c7;
    if version > 0 && offset_type == 1 {
        // idat-relative: do not change
        return Ok(c);
    }
    let abs = match base.checked_add(ext) {
        Some(x) => x,
        None => return Err(Error::BadQt),
    };
    if abs < dlt {
        return Err(Error::OffsetOverflow);
    }
    let nabs = abs - dlt;
    let ghost d0 = d@;
    let rs = store_extent(d, q, blen, base_start, ext_start, l, nabs);
    proof {
        lemma_iloc_store_len(d0, q as int, blen as int, base_start as int, ext_start as int, l, nabs as nat);
    }
    match rs {
        Ok(()) => {},
        Err(x) => return Err(x),
    }
    Ok(c)
}

/// Patch `iloc` in-place. Follows the layout parsed by FFmpeg `mov_read_iloc` (v0–1 only).
/// Lowers the absolute file offset `base + extent` of each extent by `dlt`: the new offset
/// goes into the extent offset field with the base cleared, or into the base field when the
/// item has no extent offset field.
fn patch_iloc(d: &mut Vec<u8>, p: usize, e: usize, dlt: u64) -> (r: Result<()>)
    requires
        p <= e <= old(d)@.len() <= isize::MAX,
    ensures
        final(d)@.len() == old(d)@.len(),
        (final(d)@, r) == patch_iloc_outcome(old(d)@, p as int, e as int, dlt),
{
    let hl = match box_header_len(d, p) {
        Ok(h) => h,
        Err(x) => return Err(x),
    };
    if p + hl > e {
        return Err(Error::BadQt);
    }
    let q = p + hl;
    let blen = e - q;
    if blen == 0 {
        return Ok(());
    }
    if d[q] > 1 {
        return Err(Error::Unsupported("iloc: version not supported (need 0/1)"));
    }
    let version = d[q];
    let mut c: usize = 4;
    if c >= blen {
        return Ok(());
    }
    let value = d[q + c];
    c += 1;
    let offset_size = (value >> 4) & 0x0F;
    let length_size = value & 0x0F;
    if c >= blen {
        return Err(Error::BadQt);
    }
    let value2 = d[q + c];
    c += 1;
    let base_offset_size = (value2 >> 4) & 0x0F;
    let index_size = if version == 0 {
        0u8
    } else {
        value2 & 0x0F
    };
    proof {
        assert((value >> 4) & 0x0F == value / 16) by (bit_vector);
        assert(value & 0x0F == value % 16) by (bit_vector);
        assert((value2 >> 4) & 0x0F == value2 / 16) by (bit_vector);
        assert(value2 & 0x0F == value2 % 16) by (bit_vector);
    }
    if index_size != 0 {
        return Err(Error::Unsupported("iloc: index_size != 0"));
    }
    if c + 2 > blen {
        return Err(Error::BadQt);
    }
    let item_count = be_u16_at(d.as_slice(), q + c) as usize;
    c += 2;
    let l = IlocLayout { version, offset_size, length_size, base_offset_size };
    let mut k: usize = item_count;
    while k > 0
        invariant
            q + blen <= d@.len() <= isize::MAX,
            d@.len() == old(d)@.len(),
            c <= blen,
            l == (IlocLayout { version, offset_size, length_size, base_offset_size }),
            version <= 1,
            patch_iloc_outcome(old(d)@, p as int, e as int, dlt) == iloc_items(
                d@,
                q as int,
                blen as int,
                c as int,
                k as nat,
                l,
                dlt,
            ),
        decreases k,
    {
        c = match patch_iloc_item(d, q, blen, c, k, l, dlt) {
            Ok(c2) => c2,
            Err(x) => return Err(x),
        };
        k -= 1;
    }
    Ok(())
}

} // verus!

verus! {

/// Box types whose payload is a list of boxes that the offset patch descends into.
pub open spec fn is_container_code(c: nat) -> bool {
    c == MOOV || c == TRAK || c == EDTS || c == TREF || c == MDIA || c == MINF || c == STBL || c
        == DINF || c == MVEX || c == IPRP || c == IPCO || c == UDTA || c == SINF || c == META
}

fn is_container(c: u32) -> (r: bool)
    ensures
        r == is_container_code(c as nat),
{
    c == MOOV || c == TRAK || c == EDTS || c == TREF || c == MDIA || c == MINF || c == STBL || c
        == DINF || c == MVEX || c == IPRP || c == IPCO || c == UDTA || c == SINF || c == META
}

/// Start of the child box area of the container box at `d[p..e]` (`meta` and `mvex` skip a
/// four-byte version field).
pub open spec fn container_inner_spec(d: Seq<u8>, p: int, e: int, c: nat) -> Result<int> {
    match header_len_spec(d, p) {
        Err(x) => Err(x),
        Ok(h) => if c == META || c == MVEX {
            if p + h + 4 > e {
                Err(Error::BadQt)
            } else {
                Ok(p + h + 4)
            }
        } else if p + h > e {
            Err(Error::BadQt)
        } else {
            Ok(p + h)
        },
    }
}

/// Child box area for `read_box` iteration (assumes 8- or 16-byte header, non-extended size).
fn container_inner(p: usize, d: &Vec<u8>, e: usize, c: u32) -> (r: Result<usize>)
    requires
        p <= e <= d@.len() <= isize::MAX,
    ensures
        match container_inner_spec(d@, p as int, e as int, c as nat) {
            Ok(i) => r == Ok::<usize, Error>(i as usize),
            Err(x) => r == Err::<usize, Error>(x),
        },
{
    let h = match box_header_len(d, p) {
        Ok(h) => h,
        Err(x) => return Err(x),
    };
    if c == META || c == MVEX {
        if p + h + 4 > e {
            return Err(Error::BadQt);
        }
        return Ok(p + h + 4);
    }
    if p + h > e {
        return Err(Error::BadQt);
    }
    Ok(p + h)
}

/// The boxes in `d[s..e]` with their chunk-offset tables and item locations lowered by `dlt`,
/// descending into containers.
pub open spec fn rec_patch_spec(d: Seq<u8>, s: int, e: int, dlt: u64) -> Result<Seq<u8>>
    decreases e - s,
{
    if s < 0 || s >= e {
        Ok(d)
    } else {
        match spec_read_box(d, s) {
            Err(x) => Err(x),
            Ok(None) => Err(Error::BadQt),
            Ok(Some((end, bs, k))) => {
                proof {
                    lemma_read_box_span(d, s);
                }
                if end > e {
                    Err(Error::BadQt)
                } else {
                    let c = code_of(k);
                    let step = if c == STCO {
                        patch_stco_spec(d, s, end, dlt)
                    } else if c == CO64 {
                        patch_co64_spec(d, s, end, dlt)
                    } else if c == ILOC {
                        patch_iloc_spec(d, s, end, dlt)
                    } else if is_container_code(c) {
                        match container_inner_spec(d, s, end, c) {
                            Err(x) => Err(x),
                            Ok(is) => if is < end {
                                rec_patch_spec(d, is, end, dlt)
                            } else {
                                Ok(d)
                            },
                        }
                    } else {
                        Ok(d)
                    };
                    match step {
                        Err(x) => Err(x),
                        Ok(d2) => rec_patch_spec(d2, end, e, dlt),
                    }
                }
            },
        }
    }
}

fn rec_patch(d: &mut Vec<u8>, s: usize, e: usize, dlt: u64) -> (r: Result<()>)
    requires
        s <= e <= old(d)@.len() <= isize::MAX,
    ensures
        final(d)@.len() == old(d)@.len(),
        patched(r, final(d)@, rec_patch_spec(old(d)@, s as int, e as int, dlt)),
    decreases e - s,
{
    let mut p = s;
    while p < e
        invariant
            s <= p <= e <= d@.len() <= isize::MAX,
            d@.len() == old(d)@.len(),
            rec_patch_spec(old(d)@, s as int, e as int, dlt) == rec_patch_spec(d@, p as int, e as int, dlt),
        decreases e - p,
    {
        let (end, c) = match read_box(d.as_slice(), p) {
            Ok(Some((end, b))) => (end, code(&b.kind)),
            Ok(None) => return Err(Error::BadQt),
            Err(x) => return Err(x),
        };
        proof {
            lemma_read_box_span(d@, p as int);
        }
        if end > e {
            return Err(Error::BadQt);
        }
        let step = if c == STCO {
            patch_stco(d, p, end, dlt)
        } else if c == CO64 {
            patch_co64(d, p, end, dlt)
        } else if c == ILOC {
            patch_iloc(d, p, end, dlt)
        } else if is_container(c) {
            let is = match container_inner(p, d, end, c) {
                Ok(x) => x,
                Err(x) => return Err(x),
            };
            if is < end {
                rec_patch(d, is, end, dlt)
            } else {
                Ok(())
            }
        } else {
            Ok(())
        };
        match step {
            Ok(()) => {},
            Err(x) => return Err(x),
        }
        p = end;
    }
    Ok(())
}

/// The stripped buffer with its offsets lowered by `dlt` (unchanged when `dlt` is 0).
pub open spec fn post_patch_spec(d: Seq<u8>, dlt: u64) -> Result<Seq<u8>> {
    if dlt == 0 {
        Ok(d)
    } else {
        rec_patch_spec(d, 0, d.len() as int, dlt)
    }
}

fn post_patch(d: &mut Vec<u8>, dlt: u64) -> (r: Result<()>)
    requires
        old(d)@.len() <= isize::MAX,
    ensures
        patched(r, final(d)@, post_patch_spec(old(d)@, dlt)),
{
    if dlt == 0 {
        return Ok(());
    }
    let n = d.len();
    rec_patch(d, 0, n, dlt)
}

/// How far the first `mdat` moved: `a - b` modulo 2^64 when both exist, else 0.
pub open spec fn mdat_shift(a: Option<int>, b: Option<int>) -> u64 {
    match (a, b) {
        (Some(x), Some(y)) => if x >= y {
            (x - y) as u64
        } else {
            (x - y + 0x1_0000_0000_0000_0000) as u64
        },
        _ => 0,
    }
}

/// The stripped file: metadata boxes removed, then chunk offsets and item locations moved by
/// as much as the first `mdat` moved.
pub open spec fn spec_qt_strip(d: Seq<u8>, o: StripOptions) -> Result<Seq<u8>> {
    let heic = ftyp_scan(d, 0).0;
    match filter_top_spec(d, heic, o) {
        Err(x) => Err(x),
        Ok(out) => post_patch_spec(out, mdat_shift(mdat_scan(d, 0), mdat_scan(out, 0))),
    }
}

/// Strips metadata boxes from an ISO BMFF file and fixes sample/item offsets.
pub fn strip(data: &[u8], opts: &StripOptions) -> (r: Result<Vec<u8>>)
    ensures
        res_bytes(r) == spec_qt_strip(data@, *opts),
{
    let _ = slice_len(data);
    let (heic, _) = ftyp_info_scan(data);
    let old = first_mdat_start(data);
    let mut out = match filter_top(data, heic, opts) {
        Ok(v) => v,
        Err(x) => return Err(x),
    };
    let _ = vec_len(&out);
    let new = first_mdat_start(out.as_slice());
    let dlt = match (old, new) {
        (Some(a), Some(b)) => (a as u64).wrapping_sub(b as u64),
        _ => 0u64,
    };
    match post_patch(&mut out, dlt) {
        Ok(()) => Ok(out),
        Err(x) => Err(x),
    }
}

} // verus!

verus! {

/// Reading back a box that `make_box` wrote gives its type and its body: the box ends at the
/// end of what was written and its payload starts after the eight-byte header.
pub proof fn lemma_read_made_box(t: Seq<u8>, body: Seq<u8>)
    requires
        t.len() == 4,
        spec_make_box(t, body) is Ok,
    ensures
        spec_make_box(t, body) matches Ok(b) && spec_read_box(b, 0) == Ok::<Option<(int, int, Seq<u8>)>, Error>(
            Some((b.len() as int, 8, t)),
        ) && b.subrange(8, b.len() as int) == body,
{
    let len = (body.len() + 8) as nat;
    let b = spec_make_box(t, body)->Ok_0;
    crate::bebytes::lemma_be_bytes_len(len, 4);
    reveal_with_fuel(crate::byteorder::pow256, 5);
    crate::bebytes::lemma_be_value_of_bytes(len, 4);
    assert(b.subrange(0, 4) =~= be_bytes(len, 4));
    assert(b.subrange(4, 8) =~= t);
    assert(b.subrange(8, b.len() as int) =~= body);
    assert(b.len() == len);
}

} // verus!

verus! {

proof fn lemma_put_be_len(d: Seq<u8>, o: int, v: nat, n: nat)
    requires
        0 <= o,
        o + n <= d.len(),
    ensures
        put_be(d, o, v, n).len() == d.len(),
{
    crate::bebytes::lemma_be_bytes_len(v, n);
}

proof fn lemma_stco_loop_len(d: Seq<u8>, pl: int, e: int, i: nat, n: nat, dlt: u64)
    requires
        0 <= pl,
        e <= d.len(),
    ensures
        stco_loop(d, pl, e, i, n, dlt) matches Ok(d2) ==> d2.len() == d.len(),
    decreases n - i,
{
    if i < n {
        let o = pl + 8 + 4 * i;
        if o + 4 <= e {
            let v = be_value(d.subrange(o, o + 4));
            if v >= dlt {
                lemma_put_be_len(d, o, (v - dlt) as nat, 4);
                lemma_stco_loop_len(put_be(d, o, (v - dlt) as nat, 4), pl, e, i + 1, n, dlt);
            }
        }
    }
}

proof fn lemma_co64_loop_len(d: Seq<u8>, pl: int, e: int, i: nat, n: nat, dlt: u64)
    requires
        0 <= pl,
        e <= d.len(),
    ensures
        co64_loop(d, pl, e, i, n, dlt) matches Ok(d2) ==> d2.len() == d.len(),
    decreases n - i,
{
    if i < n {
        let o = pl + 8 + 8 * i;
        if o + 8 <= e {
            let v = be_value(d.subrange(o, o + 8));
            if v >= dlt {
                lemma_put_be_len(d, o, (v - dlt) as nat, 8);
                lemma_co64_loop_len(put_be(d, o, (v - dlt) as nat, 8), pl, e, i + 1, n, dlt);
            }
        }
    }
}

proof fn lemma_sized_write_len(d: Seq<u8>, q: int, blen: int, c: int, n: u8, v: nat)
    requires
        0 <= q,
        0 <= c,
        q + blen <= d.len(),
    ensures
        sized_write(d, q, blen, c, n, v) matches Ok(d2) ==> d2.len() == d.len(),
{
    if n == 4 && c + 4 <= blen {
        lemma_put_be_len(d, q + c, v, 4);
    } else if n == 8 && c + 8 <= blen {
        lemma_put_be_len(d, q + c, v, 8);
    }
}

proof fn lemma_iloc_write_len(d: Seq<u8>, q: int, blen: int, c: int, n: u8, v: nat)
    requires
        0 <= q,
        0 <= c,
        q + blen <= d.len(),
    ensures
        iloc_write(d, q, blen, c, n, v).0.len() == d.len(),
{
    lemma_sized_write_len(d, q, blen, c, n, v);
}

proof fn lemma_iloc_store_len(d: Seq<u8>, q: int, blen: int, base_start: int, ext_start: int, l: IlocLayout, nabs: nat)
    requires
        0 <= q,
        0 <= base_start,
        0 <= ext_start,
        q + blen <= d.len(),
    ensures
        iloc_store(d, q, blen, base_start, ext_start, l, nabs).0.len() == d.len(),
{
    lemma_iloc_write_len(d, q, blen, base_start, l.base_offset_size, nabs);
    lemma_iloc_write_len(d, q, blen, base_start, l.base_offset_size, 0);
    let d1 = iloc_write(d, q, blen, base_start, l.base_offset_size, 0).0;
    lemma_iloc_write_len(d1, q, blen, ext_start, l.offset_size, nabs);
}

proof fn lemma_iloc_extent_len(
    d: Seq<u8>,
    q: int,
    blen: int,
    base_start: int,
    k: nat,
    offset_type: nat,
    l: IlocLayout,
    dlt: u64,
)
    requires
        0 <= q,
        0 <= base_start,
        q + blen <= d.len(),
    ensures
        iloc_extent(d, q, blen, base_start, k, offset_type, l, dlt).0.len() == d.len(),
    decreases k, 2nat,
{
    if let Ok((base, c4)) = sized_read(d, q, blen, base_start, l.base_offset_size) {
        if c4 + 2 <= blen {
            let ec = be_value(d.subrange(q + c4, q + c4 + 2));
            let c5 = c4 + 2;
            if ec == 0 {
                lemma_iloc_items_len(d, q, blen, c5, k, l, dlt);
            } else if ec == 1 {
                if let Ok((ext, c6)) = sized_read(d, q, blen, c5, l.offset_size) {
                    if let Ok((_len, c7)) = sized_read(d, q, blen, c6, l.length_size) {
                        if l.version > 0 && offset_type == 1 {
                            lemma_iloc_items_len(d, q, blen, c7, k, l, dlt);
                        } else if base + ext <= u64::MAX && base + ext >= dlt {
                            let nabs = (base + ext - dlt) as nat;
                            lemma_iloc_store_len(d, q, blen, base_start, c5, l, nabs);
                            let d2 = iloc_store(d, q, blen, base_start, c5, l, nabs).0;
                            lemma_iloc_items_len(d2, q, blen, c7, k, l, dlt);
                        }
                    }
                }
            }
        }
    }
}

proof fn lemma_iloc_items_len(d: Seq<u8>, q: int, blen: int, c: int, k: nat, l: IlocLayout, dlt: u64)
    requires
        0 <= q,
        0 <= c,
        q + blen <= d.len(),
    ensures
        iloc_items(d, q, blen, c, k, l, dlt).0.len() == d.len(),
    decreases k, 1nat,
{
    if k > 0 && c + 2 <= blen {
        let c1 = c + 2;
        if !(l.version > 0 && c1 + 2 > blen) {
            let offset_type: nat = if l.version > 0 {
                be_value(d.subrange(q + c1, q + c1 + 2)) % 16
            } else {
                0
            };
            let c2 = if l.version > 0 { c1 + 2 } else { c1 };
            if c2 + 2 <= blen {
                lemma_iloc_extent_len(d, q, blen, c2 + 2, (k - 1) as nat, offset_type, l, dlt);
            }
        }
    }
}

proof fn lemma_patch_iloc_len(d: Seq<u8>, p: int, e: int, dlt: u64)
    requires
        0 <= p,
        e <= d.len(),
    ensures
        patch_iloc_outcome(d, p, e, dlt).0.len() == d.len(),
        patch_iloc_spec(d, p, e, dlt) matches Ok(d2) ==> d2.len() == d.len(),
{
    if let Ok(hl) = header_len_spec(d, p) {
        let q = p + hl;
        let blen = e - q;
        if p + hl <= e && blen > 5 && d[q] <= 1 && 8 <= blen {
            let version = d[q];
            let value = d[q + 4];
            let value2 = d[q + 5];
            let l = IlocLayout {
                version,
                offset_size: value / 16,
                length_size: value % 16,
                base_offset_size: value2 / 16,
            };
            lemma_iloc_items_len(d, q, blen, 8, be_value(d.subrange(q + 6, q + 8)), l, dlt);
        }
    }
}

proof fn lemma_rec_patch_len(d: Seq<u8>, s: int, e: int, dlt: u64)
    requires
        0 <= s,
        e <= d.len(),
    ensures
        rec_patch_spec(d, s, e, dlt) matches Ok(d2) ==> d2.len() == d.len(),
    decreases e - s,
{
    if s < e {
        if let Ok(Some((end, bs, k))) = spec_read_box(d, s) {
            lemma_read_box_span(d, s);
            if end <= e {
                let c = code_of(k);
                let step = if c == STCO {
                    patch_stco_spec(d, s, end, dlt)
                } else if c == CO64 {
                    patch_co64_spec(d, s, end, dlt)
                } else if c == ILOC {
                    patch_iloc_spec(d, s, end, dlt)
                } else if is_container_code(c) {
                    match container_inner_spec(d, s, end, c) {
                        Err(x) => Err(x),
                        Ok(is) => if is < end {
                            rec_patch_spec(d, is, end, dlt)
                        } else {
                            Ok(d)
                        },
                    }
                } else {
                    Ok(d)
                };
                if c == STCO {
                    if let Ok(hl) = header_len_spec(d, s) {
                        if s + hl + 8 <= end {
                            lemma_stco_loop_len(d, s + hl, end, 0, be_value(d.subrange(s + hl + 4, s + hl + 8)), dlt);
                        }
                    }
                } else if c == CO64 {
                    if let Ok(hl) = header_len_spec(d, s) {
                        if s + hl + 8 <= end {
                            lemma_co64_loop_len(d, s + hl, end, 0, be_value(d.subrange(s + hl + 4, s + hl + 8)), dlt);
                        }
                    }
                } else if c == ILOC {
                    lemma_patch_iloc_len(d, s, end, dlt);
                } else if is_container_code(c) {
                    if let Ok(is) = container_inner_spec(d, s, end, c) {
                        if is < end {
                            lemma_rec_patch_len(d, is, end, dlt);
                        }
                    }
                }
                if let Ok(d2) = step {
                    lemma_rec_patch_len(d2, end, e, dlt);
                }
            }
        }
    }
}

/// The offset patch rewrites numbers in place: when it succeeds, the buffer keeps its length.
pub proof fn lemma_post_patch_keeps_len(d: Seq<u8>, dlt: u64)
    ensures
        post_patch_spec(d, dlt) matches Ok(d2) ==> d2.len() == d.len(),
{
    if dlt != 0 {
        lemma_rec_patch_len(d, 0, d.len() as int, dlt);
    }
}

} // verus!

verus! {

/// `e - r` when `0 <= r < e`, else 0: the room that a walk from `r` to `e` covers.
pub open spec fn span(r: int, e: int) -> int {
    if 0 <= r && r < e {
        e - r
    } else {
        0
    }
}

proof fn lemma_made_box_len(t: Seq<u8>, body: Seq<u8>)
    requires
        t.len() == 4,
    ensures
        spec_make_box(t, body) matches Ok(b) ==> b.len() == body.len() + 8,
{
    crate::bebytes::lemma_be_bytes_len((body.len() + 8) as nat, 4);
}

proof fn lemma_code_bytes_len(c: u32)
    ensures
        code_bytes(c).len() == 4,
{
    crate::bebytes::lemma_be_bytes_len(c as nat, 4);
}

proof fn lemma_minf_children_len(d: Seq<u8>, r: int, e: int, o: StripOptions)
    ensures
        minf_children(d, r, e, o) matches Ok(s) ==> s.len() <= span(r, e),
    decreases d.len() - r,
{
    if 0 <= r && r < e {
        if let Ok(Some((end, bs, k))) = spec_read_box(d, r) {
            lemma_read_box_span(d, r);
            lemma_minf_children_len(d, end, e, o);
        }
    }
}

proof fn lemma_filter_minf_len(d: Seq<u8>, p: int, e: int, o: StripOptions)
    requires
        0 <= p,
        p + 8 <= e,
    ensures
        filter_minf_spec(d, p, e, o) matches Ok(b) ==> b.len() <= e - p,
{
    lemma_minf_children_len(d, p + 8, e, o);
    lemma_code_bytes_len(MINF);
    if let Ok(ch) = minf_children(d, p + 8, e, o) {
        lemma_made_box_len(code_bytes(MINF), ch);
    }
}

proof fn lemma_mdia_children_len(d: Seq<u8>, r: int, e: int, o: StripOptions)
    ensures
        mdia_children(d, r, e, o) matches Ok(s) ==> s.len() <= span(r, e),
    decreases d.len() - r,
{
    if 0 <= r && r < e {
        if let Ok(Some((end, bs, k))) = spec_read_box(d, r) {
            lemma_read_box_span(d, r);
            lemma_mdia_children_len(d, end, e, o);
            lemma_filter_minf_len(d, r, end, o);
        }
    }
}

proof fn lemma_filter_mdia_len(d: Seq<u8>, p: int, e: int, o: StripOptions)
    requires
        0 <= p,
        p + 8 <= e,
    ensures
        filter_mdia_spec(d, p, e, o) matches Ok(b) ==> b.len() <= e - p,
{
    lemma_mdia_children_len(d, p + 8, e, o);
    lemma_code_bytes_len(MDIA);
    if let Ok(ch) = mdia_children(d, p + 8, e, o) {
        lemma_made_box_len(code_bytes(MDIA), ch);
    }
}

proof fn lemma_trak_children_len(d: Seq<u8>, r: int, e: int, o: StripOptions)
    ensures
        trak_children(d, r, e, o) matches Ok(s) ==> s.len() <= span(r, e),
    decreases d.len() - r,
{
    if 0 <= r && r < e {
        if let Ok(Some((end, bs, k))) = spec_read_box(d, r) {
            lemma_read_box_span(d, r);
            lemma_trak_children_len(d, end, e, o);
            lemma_filter_mdia_len(d, r, end, o);
        }
    }
}

proof fn lemma_filter_trak_len(d: Seq<u8>, p: int, e: int, o: StripOptions)
    requires
        0 <= p,
        p + 8 <= e,
    ensures
        filter_trak_spec(d, p, e, o) matches Ok(b) ==> b.len() <= e - p,
{
    lemma_trak_children_len(d, p + 8, e, o);
    lemma_code_bytes_len(TRAK);
    if let Ok(ch) = trak_children(d, p + 8, e, o) {
        lemma_made_box_len(code_bytes(TRAK), ch);
    }
}

proof fn lemma_moov_children_len(d: Seq<u8>, r: int, e: int, o: StripOptions)
    ensures
        moov_children(d, r, e, o) matches Ok(s) ==> s.len() <= span(r, e),
    decreases d.len() - r,
{
    if 0 <= r && r < e {
        if let Ok(Some((end, bs, k))) = spec_read_box(d, r) {
            lemma_read_box_span(d, r);
            lemma_moov_children_len(d, end, e, o);
            lemma_filter_trak_len(d, r, end, o);
        }
    }
}

proof fn lemma_filter_moov_len(d: Seq<u8>, p: int, e: int, o: StripOptions)
    requires
        0 <= p,
        p + 8 <= e,
    ensures
        filter_moov_spec(d, p, e, o) matches Ok(b) ==> b.len() <= e - p,
{
    lemma_moov_children_len(d, p + 8, e, o);
    lemma_code_bytes_len(MOOV);
    if let Ok(ch) = moov_children(d, p + 8, e, o) {
        lemma_made_box_len(code_bytes(MOOV), ch);
    }
}

} // verus!

verus! {

/// Each child box that the `ipco` filter keeps from `d[r..e]` ends within `e`.
pub open spec fn ipco_fits(d: Seq<u8>, r: int, e: int, o: StripOptions) -> bool
    decreases d.len() - r,
{
    if r < 0 || r >= e {
        true
    } else {
        match spec_read_box(d, r) {
            Ok(Some((end, bs, k))) => {
                proof {
                    lemma_read_box_span(d, r);
                }
                (!(code_of(k) == COLR && !o.keep_icc) ==> end <= e) && ipco_fits(d, end, e, o)
            },
            _ => true,
        }
    }
}

/// Each child box that the `iprp` filter keeps from `d[r..e]` ends within `e`, and so do
/// those kept inside its `ipco` boxes.
pub open spec fn iprp_fits(d: Seq<u8>, r: int, e: int, o: StripOptions) -> bool
    decreases d.len() - r,
{
    if r < 0 || r >= e {
        true
    } else {
        match spec_read_box(d, r) {
            Ok(Some((end, bs, k))) => {
                proof {
                    lemma_read_box_span(d, r);
                }
                &&& end <= e
                &&& (code_of(k) == IPCO ==> ipco_fits(d, r + 8, end, o))
                &&& iprp_fits(d, end, e, o)
            },
            _ => true,
        }
    }
}

/// Each child box that the file-level `meta` filter keeps from `d[r..e]` ends within `e`,
/// and so do those kept inside its `iprp` boxes.
pub open spec fn top_meta_fits(d: Seq<u8>, r: int, e: int, o: StripOptions) -> bool
    decreases d.len() - r,
{
    if r < 0 || r >= e {
        true
    } else {
        match spec_read_box(d, r) {
            Ok(Some((end, bs, k))) => {
                proof {
                    lemma_read_box_span(d, r);
                }
                let c = code_of(k);
                let dropped = c == META || (c == UUID && is_xmp_body(d.subrange(bs, end)));
                &&& (!dropped ==> end <= e)
                &&& (!dropped && c == IPRP ==> iprp_fits(d, r + 8, end, o))
                &&& top_meta_fits(d, end, e, o)
            },
            _ => true,
        }
    }
}

/// Every top-level `meta` box from `p` on keeps its filtered children within itself.
pub open spec fn heif_meta_fits(d: Seq<u8>, p: int, o: StripOptions) -> bool
    decreases d.len() - p,
{
    if p < 0 || p >= d.len() {
        true
    } else {
        match spec_read_box(d, p) {
            Ok(Some((end, bs, k))) => {
                proof {
                    lemma_read_box_span(d, p);
                }
                &&& (code_of(k) == META && p + 12 <= end ==> top_meta_fits(d, p + 12, end, o))
                &&& heif_meta_fits(d, end, o)
            },
            _ => true,
        }
    }
}

proof fn lemma_ipco_children_len(d: Seq<u8>, r: int, e: int, o: StripOptions)
    requires
        ipco_fits(d, r, e, o),
    ensures
        ipco_children(d, r, e, o) matches Ok(s) ==> s.len() <= span(r, e),
    decreases d.len() - r,
{
    if 0 <= r && r < e {
        if let Ok(Some((end, bs, k))) = spec_read_box(d, r) {
            lemma_read_box_span(d, r);
            lemma_ipco_children_len(d, end, e, o);
        }
    }
}

proof fn lemma_filter_ipco_len(d: Seq<u8>, p: int, e: int, o: StripOptions)
    requires
        0 <= p,
        p + 8 <= e,
        ipco_fits(d, p + 8, e, o),
    ensures
        filter_ipco_spec(d, p, e, o) matches Ok(b) ==> b.len() <= e - p,
{
    lemma_ipco_children_len(d, p + 8, e, o);
    lemma_code_bytes_len(IPCO);
    if let Ok(ch) = ipco_children(d, p + 8, e, o) {
        lemma_made_box_len(code_bytes(IPCO), ch);
    }
}

proof fn lemma_iprp_children_len(d: Seq<u8>, r: int, e: int, o: StripOptions)
    requires
        iprp_fits(d, r, e, o),
    ensures
        iprp_children(d, r, e, o) matches Ok(s) ==> s.len() <= span(r, e),
    decreases d.len() - r,
{
    if 0 <= r && r < e {
        if let Ok(Some((end, bs, k))) = spec_read_box(d, r) {
            lemma_read_box_span(d, r);
            lemma_iprp_children_len(d, end, e, o);
            if code_of(k) == IPCO {
                lemma_filter_ipco_len(d, r, end, o);
            }
        }
    }
}

proof fn lemma_filter_iprp_len(d: Seq<u8>, p: int, e: int, o: StripOptions)
    requires
        0 <= p,
        p + 8 <= e,
        iprp_fits(d, p + 8, e, o),
    ensures
        filter_iprp_spec(d, p, e, o) matches Ok(b) ==> b.len() <= e - p,
{
    lemma_iprp_children_len(d, p + 8, e, o);
    lemma_code_bytes_len(IPRP);
    if let Ok(ch) = iprp_children(d, p + 8, e, o) {
        lemma_made_box_len(code_bytes(IPRP), ch);
    }
}

proof fn lemma_top_meta_children_len(d: Seq<u8>, r: int, e: int, o: StripOptions)
    requires
        top_meta_fits(d, r, e, o),
    ensures
        top_meta_children(d, r, e, o) matches Ok(s) ==> s.len() <= span(r, e),
    decreases d.len() - r,
{
    if 0 <= r && r < e {
        if let Ok(Some((end, bs, k))) = spec_read_box(d, r) {
            lemma_read_box_span(d, r);
            lemma_top_meta_children_len(d, end, e, o);
            let c = code_of(k);
            if !(c == META || (c == UUID && is_xmp_body(d.subrange(bs, end)))) && c == IPRP {
                lemma_filter_iprp_len(d, r, end, o);
            }
        }
    }
}

proof fn lemma_filter_top_meta_len(d: Seq<u8>, p: int, e: int, o: StripOptions)
    requires
        0 <= p,
        p + 8 <= e <= d.len(),
        p + 12 <= e ==> top_meta_fits(d, p + 12, e, o),
    ensures
        filter_top_meta_spec(d, p, e, o) matches Ok(b) ==> b.len() <= e - p,
{
    if p + 12 <= e {
        lemma_top_meta_children_len(d, p + 12, e, o);
        lemma_code_bytes_len(META);
        if let Ok(ch) = top_meta_children(d, p + 12, e, o) {
            lemma_made_box_len(code_bytes(META), d.subrange(p + 8, p + 12) + ch);
        }
    }
}

proof fn lemma_top_children_len(d: Seq<u8>, p: int, is_heic: bool, o: StripOptions)
    requires
        is_heic ==> heif_meta_fits(d, p, o),
    ensures
        top_children(d, p, is_heic, o) matches Ok(s) ==> s.len() <= span(p, d.len() as int),
    decreases d.len() - p,
{
    if 0 <= p && p < d.len() {
        if let Ok(Some((end, bs, k))) = spec_read_box(d, p) {
            lemma_read_box_span(d, p);
            lemma_top_children_len(d, end, is_heic, o);
            let c = code_of(k);
            if c == MOOV {
                lemma_filter_moov_len(d, p, end, o);
            } else if c == META && is_heic {
                lemma_filter_top_meta_len(d, p, end, o);
            }
        }
    }
}

/// Stripping an ISO BMFF file never makes it longer, provided that the boxes which the HEIF
/// `meta` filter keeps lie within their parent boxes (a kept child that reaches past its
/// parent is copied whole, and so is what follows the parent).
pub proof fn lemma_qt_strip_shrinks(d: Seq<u8>, o: StripOptions)
    requires
        ftyp_scan(d, 0).0 ==> heif_meta_fits(d, 0, o),
    ensures
        spec_qt_strip(d, o) matches Ok(s) ==> s.len() <= d.len(),
{
    let heic = ftyp_scan(d, 0).0;
    lemma_top_children_len(d, 0, heic, o);
    if let Ok(out) = filter_top_spec(d, heic, o) {
        lemma_post_patch_keeps_len(out, mdat_shift(mdat_scan(d, 0), mdat_scan(out, 0)));
    }
}

} // verus!

verus! {

proof fn lemma_write_then_read(d: Seq<u8>, q: int, blen: int, c: int, n: u8, v: nat)
    requires
        0 <= q,
        0 <= c,
        q + blen <= d.len(),
        v <= u64::MAX,
        iloc_write(d, q, blen, c, n, v).1 is Ok,
    ensures
        ({
            let d2 = iloc_write(d, q, blen, c, n, v).0;
            &&& d2.len() == d.len()
            &&& sized_read(d2, q, blen, c, n) == Ok::<(nat, int), Error>((if n == 0 { 0 } else { v }, c + n))
            &&& forall|i: int| 0 <= i < d.len() && !(q + c <= i < q + c + n) ==> #[trigger] d2[i] == d[i]
        }),
{
    if n == 4 {
        crate::bebytes::lemma_read_after_put32(d, q + c, v as u32);
    } else if n == 8 {
        crate::bebytes::lemma_read_after_put64(d, q + c, v as u64);
    }
}

proof fn lemma_read_unchanged(d: Seq<u8>, d2: Seq<u8>, q: int, blen: int, c: int, n: u8)
    requires
        0 <= q,
        0 <= c,
        q + blen <= d.len(),
        d2.len() == d.len(),
        forall|i: int| q + c <= i < q + c + n ==> #[trigger] d2[i] == d[i],
    ensures
        sized_read(d2, q, blen, c, n) == sized_read(d, q, blen, c, n),
{
    if n == 4 && c + 4 <= blen {
        assert(d2.subrange(q + c, q + c + 4) =~= d.subrange(q + c, q + c + 4));
    } else if n == 8 && c + 8 <= blen {
        assert(d2.subrange(q + c, q + c + 8) =~= d.subrange(q + c, q + c + 8));
    }
}

/// Storing the lowered offset of an extent that is not idat-relative: read back, the base
/// offset and the extent offset add up to the old absolute offset less `dlt`, and every
/// byte outside those two fields is kept.
pub proof fn lemma_iloc_store_lowers(
    d: Seq<u8>,
    q: int,
    blen: int,
    base_start: int,
    l: IlocLayout,
    base: nat,
    c4: int,
    ext: nat,
    c6: int,
    dlt: u64,
)
    requires
        0 <= q,
        0 <= base_start,
        q + blen <= d.len(),
        sized_read(d, q, blen, base_start, l.base_offset_size) == Ok::<(nat, int), Error>((base, c4)),
        c4 + 2 <= blen,
        sized_read(d, q, blen, c4 + 2, l.offset_size) == Ok::<(nat, int), Error>((ext, c6)),
        dlt <= base + ext <= u64::MAX,
        iloc_store(d, q, blen, base_start, c4 + 2, l, (base + ext - dlt) as nat).1 is Ok,
    ensures
        ({
            let d2 = iloc_store(d, q, blen, base_start, c4 + 2, l, (base + ext - dlt) as nat).0;
            &&& d2.len() == d.len()
            &&& sized_read(d2, q, blen, base_start, l.base_offset_size) matches Ok((b2, c4b))
            &&& sized_read(d2, q, blen, c4 + 2, l.offset_size) matches Ok((e2, c6b))
            &&& c4b == c4 && c6b == c6 && b2 + e2 == base + ext - dlt
            &&& forall|i: int|
                0 <= i < d.len() && !(q + base_start <= i < q + c4) && !(q + c4 + 2 <= i < q + c6)
                    ==> #[trigger] d2[i] == d[i]
        }),
{
    let nabs = (base + ext - dlt) as nat;
    let c5 = c4 + 2;
    let bos = l.base_offset_size;
    let os = l.offset_size;
    assert(c4 == base_start + bos && c6 == c5 + os);
    if os == 0 {
        if bos > 0 {
            lemma_write_then_read(d, q, blen, base_start, bos, nabs);
            let d2 = iloc_write(d, q, blen, base_start, bos, nabs).0;
            lemma_read_unchanged(d, d2, q, blen, c5, os);
        }
    } else {
        let d1 = if bos > 0 { iloc_write(d, q, blen, base_start, bos, 0).0 } else { d };
        if bos > 0 {
            lemma_write_then_read(d, q, blen, base_start, bos, 0);
        }
        lemma_write_then_read(d1, q, blen, c5, os, nabs);
        let d2 = iloc_write(d1, q, blen, c5, os, nabs).0;
        lemma_read_unchanged(d1, d2, q, blen, base_start, bos);
        lemma_read_unchanged(d, d1, q, blen, c5, os);
    }
}

} // verus!

verus! {

proof fn lemma_minf_children_same(d: Seq<u8>, r: int, e: int, o1: StripOptions, o2: StripOptions)
    ensures
        minf_children(d, r, e, o1) == minf_children(d, r, e, o2),
    decreases d.len() - r,
{
    if 0 <= r && r < e {
        if let Ok(Some((end, bs, k))) = spec_read_box(d, r) {
            lemma_read_box_span(d, r);
            lemma_minf_children_same(d, end, e, o1, o2);
        }
    }
}

proof fn lemma_mdia_children_same(d: Seq<u8>, r: int, e: int, o1: StripOptions, o2: StripOptions)
    ensures
        mdia_children(d, r, e, o1) == mdia_children(d, r, e, o2),
    decreases d.len() - r,
{
    if 0 <= r && r < e {
        if let Ok(Some((end, bs, k))) = spec_read_box(d, r) {
            lemma_read_box_span(d, r);
            lemma_mdia_children_same(d, end, e, o1, o2);
            lemma_minf_children_same(d, r + 8, end, o1, o2);
        }
    }
}

proof fn lemma_trak_children_same(d: Seq<u8>, r: int, e: int, o1: StripOptions, o2: StripOptions)
    ensures
        trak_children(d, r, e, o1) == trak_children(d, r, e, o2),
    decreases d.len() - r,
{
    if 0 <= r && r < e {
        if let Ok(Some((end, bs, k))) = spec_read_box(d, r) {
            lemma_read_box_span(d, r);
            lemma_trak_children_same(d, end, e, o1, o2);
            lemma_mdia_children_same(d, r + 8, end, o1, o2);
        }
    }
}

/// The `moov` filter does not depend on the keep-options.
proof fn lemma_moov_children_same(d: Seq<u8>, r: int, e: int, o1: StripOptions, o2: StripOptions)
    ensures
        moov_children(d, r, e, o1) == moov_children(d, r, e, o2),
    decreases d.len() - r,
{
    if 0 <= r && r < e {
        if let Ok(Some((end, bs, k))) = spec_read_box(d, r) {
            lemma_read_box_span(d, r);
            lemma_moov_children_same(d, end, e, o1, o2);
            lemma_trak_children_same(d, r + 8, end, o1, o2);
        }
    }
}

proof fn lemma_ipco_children_mono(d: Seq<u8>, r: int, e: int, o1: StripOptions, o2: StripOptions)
    requires
        crate::keeps_at_most(o1, o2),
        ipco_children(d, r, e, o1) is Ok,
        ipco_children(d, r, e, o2) is Ok,
    ensures
        ipco_children(d, r, e, o1)->Ok_0.len() <= ipco_children(d, r, e, o2)->Ok_0.len(),
    decreases d.len() - r,
{
    if 0 <= r && r < e {
        if let Ok(Some((end, bs, k))) = spec_read_box(d, r) {
            lemma_read_box_span(d, r);
            lemma_ipco_children_mono(d, end, e, o1, o2);
        }
    }
}

proof fn lemma_iprp_children_mono(d: Seq<u8>, r: int, e: int, o1: StripOptions, o2: StripOptions)
    requires
        crate::keeps_at_most(o1, o2),
        iprp_children(d, r, e, o1) is Ok,
        iprp_children(d, r, e, o2) is Ok,
    ensures
        iprp_children(d, r, e, o1)->Ok_0.len() <= iprp_children(d, r, e, o2)->Ok_0.len(),
    decreases d.len() - r,
{
    if 0 <= r && r < e {
        if let Ok(Some((end, bs, k))) = spec_read_box(d, r) {
            lemma_read_box_span(d, r);
            lemma_iprp_children_mono(d, end, e, o1, o2);
            if code_of(k) == IPCO {
                lemma_code_bytes_len(IPCO);
                if ipco_children(d, r + 8, end, o1) is Ok && ipco_children(d, r + 8, end, o2) is Ok {
                    lemma_ipco_children_mono(d, r + 8, end, o1, o2);
                    lemma_made_box_len(code_bytes(IPCO), ipco_children(d, r + 8, end, o1)->Ok_0);
                    lemma_made_box_len(code_bytes(IPCO), ipco_children(d, r + 8, end, o2)->Ok_0);
                }
            }
        }
    }
}

proof fn lemma_top_meta_children_mono(d: Seq<u8>, r: int, e: int, o1: StripOptions, o2: StripOptions)
    requires
        crate::keeps_at_most(o1, o2),
        top_meta_children(d, r, e, o1) is Ok,
        top_meta_children(d, r, e, o2) is Ok,
    ensures
        top_meta_children(d, r, e, o1)->Ok_0.len() <= top_meta_children(d, r, e, o2)->Ok_0.len(),
    decreases d.len() - r,
{
    if 0 <= r && r < e {
        if let Ok(Some((end, bs, k))) = spec_read_box(d, r) {
            lemma_read_box_span(d, r);
            lemma_top_meta_children_mono(d, end, e, o1, o2);
            if code_of(k) == IPRP {
                lemma_code_bytes_len(IPRP);
                if iprp_children(d, r + 8, end, o1) is Ok && iprp_children(d, r + 8, end, o2) is Ok {
                    lemma_iprp_children_mono(d, r + 8, end, o1, o2);
                    lemma_made_box_len(code_bytes(IPRP), iprp_children(d, r + 8, end, o1)->Ok_0);
                    lemma_made_box_len(code_bytes(IPRP), iprp_children(d, r + 8, end, o2)->Ok_0);
                }
            }
        }
    }
}

proof fn lemma_top_children_mono(d: Seq<u8>, p: int, is_heic: bool, o1: StripOptions, o2: StripOptions)
    requires
        crate::keeps_at_most(o1, o2),
        top_children(d, p, is_heic, o1) is Ok,
        top_children(d, p, is_heic, o2) is Ok,
    ensures
        top_children(d, p, is_heic, o1)->Ok_0.len() <= top_children(d, p, is_heic, o2)->Ok_0.len(),
    decreases d.len() - p,
{
    if 0 <= p && p < d.len() {
        if let Ok(Some((end, bs, k))) = spec_read_box(d, p) {
            lemma_read_box_span(d, p);
            lemma_top_children_mono(d, end, is_heic, o1, o2);
            let c = code_of(k);
            if c == MOOV {
                lemma_moov_children_same(d, p + 8, end, o1, o2);
            } else if c == META && is_heic && p + 12 <= end {
                lemma_code_bytes_len(META);
                if top_meta_children(d, p + 12, end, o1) is Ok && top_meta_children(d, p + 12, end, o2) is Ok {
                    lemma_top_meta_children_mono(d, p + 12, end, o1, o2);
                    let h = d.subrange(p + 8, p + 12);
                    lemma_made_box_len(code_bytes(META), h + top_meta_children(d, p + 12, end, o1)->Ok_0);
                    lemma_made_box_len(code_bytes(META), h + top_meta_children(d, p + 12, end, o2)->Ok_0);
                }
            }
        }
    }
}

/// Setting more keep-options never gives a shorter stripped ISO BMFF file.
pub proof fn lemma_qt_strip_keeps_more(d: Seq<u8>, o1: StripOptions, o2: StripOptions)
    requires
        crate::keeps_at_most(o1, o2),
        spec_qt_strip(d, o1) is Ok,
        spec_qt_strip(d, o2) is Ok,
    ensures
        spec_qt_strip(d, o1)->Ok_0.len() <= spec_qt_strip(d, o2)->Ok_0.len(),
{
    let heic = ftyp_scan(d, 0).0;
    let f1 = filter_top_spec(d, heic, o1)->Ok_0;
    let f2 = filter_top_spec(d, heic, o2)->Ok_0;
    lemma_top_children_mono(d, 0, heic, o1, o2);
    lemma_post_patch_keeps_len(f1, mdat_shift(mdat_scan(d, 0), mdat_scan(f1, 0)));
    lemma_post_patch_keeps_len(f2, mdat_shift(mdat_scan(d, 0), mdat_scan(f2, 0)));
}

} // verus!

verus! {

/// The box that `spec_read_box` reads at `p`.
pub open spec fn box_at(d: Seq<u8>, p: int) -> (int, int, Seq<u8>) {
    spec_read_box(d, p)->Ok_0.unwrap()
}

/// A box copied whole to `pp` of `x` reads there as it did at `p` of `d` (a box whose size
/// field is 0 must end `x` as it ended `d`).
proof fn lemma_read_box_shift(d: Seq<u8>, p: int, x: Seq<u8>, pp: int)
    requires
        0 <= p,
        0 <= pp,
        spec_read_box(d, p) matches Ok(Some(_)),
        x.len() <= usize::MAX,
        pp + (box_at(d, p).0 - p) <= x.len(),
        x.subrange(pp, pp + (box_at(d, p).0 - p)) == d.subrange(p, box_at(d, p).0),
        be_value(d.subrange(p, p + 4)) == 0 ==> pp + (box_at(d, p).0 - p) == x.len(),
    ensures
        spec_read_box(x, pp) == Ok::<Option<(int, int, Seq<u8>)>, Error>(
            Some((pp + (box_at(d, p).0 - p), pp + (box_at(d, p).1 - p), box_at(d, p).2)),
        ),
{
    lemma_read_box_span(d, p);
    let (end, bs, k) = box_at(d, p);
    let n = end - p;
    let w = x.subrange(pp, pp + n);
    assert(x.subrange(pp, pp + 4) =~= w.subrange(0, 4));
    assert(d.subrange(p, p + 4) =~= d.subrange(p, end).subrange(0, 4));
    assert(x.subrange(pp + 4, pp + 8) =~= w.subrange(4, 8));
    assert(d.subrange(p + 4, p + 8) =~= d.subrange(p, end).subrange(4, 8));
    if bs - p == 16 {
        assert(x.subrange(pp + 8, pp + 16) =~= w.subrange(8, 16));
        assert(d.subrange(p + 8, p + 16) =~= d.subrange(p, end).subrange(8, 16));
    }
}

} // verus!

verus! {

proof fn lemma_code_of_code_bytes(c: u32)
    ensures
        code_of(code_bytes(c)) == c,
        code_bytes(c).len() == 4,
{
    reveal_with_fuel(crate::byteorder::pow256, 5);
    crate::bebytes::lemma_be_value_of_bytes(c as nat, 4);
    crate::bebytes::lemma_be_bytes_len(c as nat, 4);
}

/// A box that `make_box` built, copied to `rr` of `x`, reads back there with its type and
/// its body.
proof fn lemma_made_box_at(c: u32, body: Seq<u8>, x: Seq<u8>, rr: int)
    requires
        0 <= rr,
        spec_make_box(code_bytes(c), body) is Ok,
        x.len() <= usize::MAX,
        rr + spec_make_box(code_bytes(c), body)->Ok_0.len() <= x.len(),
        x.subrange(rr, rr + spec_make_box(code_bytes(c), body)->Ok_0.len()) == spec_make_box(code_bytes(c), body)->Ok_0,
    ensures
        spec_read_box(x, rr) == Ok::<Option<(int, int, Seq<u8>)>, Error>(
            Some((rr + body.len() + 8, rr + 8, code_bytes(c))),
        ),
        code_of(code_bytes(c)) == c,
        x.subrange(rr + 8, rr + body.len() + 8) == body,
        spec_make_box(code_bytes(c), body)->Ok_0.len() == body.len() + 8,
{
    lemma_code_of_code_bytes(c);
    let t = code_bytes(c);
    let b = spec_make_box(t, body)->Ok_0;
    lemma_read_made_box(t, body);
    let len = (body.len() + 8) as nat;
    crate::bebytes::lemma_be_bytes_len(len, 4);
    reveal_with_fuel(crate::byteorder::pow256, 5);
    crate::bebytes::lemma_be_value_of_bytes(len, 4);
    assert(b.subrange(0, 4) =~= be_bytes(len, 4));
    assert(b.len() == len);
    assert(box_at(b, 0).0 == b.len());
    assert(b.subrange(0, b.len() as int) =~= b);
    lemma_read_box_shift(b, 0, x, rr);
    assert(x.subrange(rr + 8, rr + b.len()) =~= x.subrange(rr, rr + b.len()).subrange(8, b.len() as int));
}

} // verus!

verus! {

/// `ch` stands whole at `rr` of `x`, and when the walk that made it ran to the end of `d`,
/// it ends `x` too.
pub open spec fn placed(x: Seq<u8>, rr: int, ch: Seq<u8>, e: int, d_len: int) -> bool {
    &&& 0 <= rr
    &&& x.len() <= usize::MAX
    &&& rr + ch.len() <= x.len()
    &&& x.subrange(rr, rr + ch.len()) == ch
    &&& e == d_len ==> rr + ch.len() == x.len()
}

/// The first `n` bytes of a placed `ch` are placed, and so is the rest after them.
proof fn lemma_placed_split(x: Seq<u8>, rr: int, a: Seq<u8>, b: Seq<u8>)
    requires
        0 <= rr,
        rr + a.len() + b.len() <= x.len(),
        x.subrange(rr, rr + a.len() + b.len()) == a + b,
    ensures
        x.subrange(rr, rr + a.len()) == a,
        x.subrange(rr + a.len(), rr + a.len() + b.len()) == b,
{
    assert(x.subrange(rr, rr + a.len()) =~= (a + b).subrange(0, a.len() as int));
    assert(x.subrange(rr + a.len(), rr + a.len() + b.len()) =~= (a + b).subrange(a.len() as int, (a.len() + b.len()) as int));
}

/// A box whose size field is 0 runs to the end of the buffer.
proof fn lemma_size0_box_ends(d: Seq<u8>, p: int)
    requires
        0 <= p,
        d.len() <= usize::MAX,
        spec_read_box(d, p) matches Ok(Some(_)),
    ensures
        be_value(d.subrange(p, p + 4)) == 0 ==> box_at(d, p).0 == d.len(),
{
}

proof fn lemma_minf_children_again(d: Seq<u8>, r: int, e: int, o: StripOptions, x: Seq<u8>, rr: int)
    requires
        0 <= r,
        e <= d.len() <= usize::MAX,
        minf_children(d, r, e, o) is Ok,
        placed(x, rr, minf_children(d, r, e, o)->Ok_0, e, d.len() as int),
    ensures
        minf_children(x, rr, rr + minf_children(d, r, e, o)->Ok_0.len(), o) == minf_children(d, r, e, o),
    decreases d.len() - r,
{
    let ch = minf_children(d, r, e, o)->Ok_0;
    if r < e {
        lemma_read_box_span(d, r);
        let (end, bs, k) = box_at(d, r);
        let piece = d.subrange(r, end);
        let rest = minf_children(d, end, e, o)->Ok_0;
        assert(ch == piece + rest);
        lemma_size0_box_ends(d, r);
        lemma_placed_split(x, rr, piece, rest);
        lemma_read_box_shift(d, r, x, rr);
        lemma_minf_children_again(d, end, e, o, x, rr + piece.len());
    }
}

proof fn lemma_mdia_children_again(d: Seq<u8>, r: int, e: int, o: StripOptions, x: Seq<u8>, rr: int)
    requires
        0 <= r,
        e <= d.len() <= usize::MAX,
        mdia_children(d, r, e, o) is Ok,
        placed(x, rr, mdia_children(d, r, e, o)->Ok_0, e, d.len() as int),
    ensures
        mdia_children(x, rr, rr + mdia_children(d, r, e, o)->Ok_0.len(), o) == mdia_children(d, r, e, o),
    decreases d.len() - r,
{
    let ch = mdia_children(d, r, e, o)->Ok_0;
    if r < e {
        lemma_read_box_span(d, r);
        let (end, bs, k) = box_at(d, r);
        let c = code_of(k);
        let rest = mdia_children(d, end, e, o)->Ok_0;
        if c == UDTA || c == META {
            lemma_mdia_children_again(d, end, e, o, x, rr);
        } else if c == MINF {
            let body = minf_children(d, r + 8, end, o)->Ok_0;
            let piece = spec_make_box(code_bytes(MINF), body)->Ok_0;
            assert(ch == piece + rest);
            lemma_placed_split(x, rr, piece, rest);
            lemma_made_box_at(MINF, body, x, rr);
            lemma_minf_children_again(d, r + 8, end, o, x, rr + 8);
            lemma_mdia_children_again(d, end, e, o, x, rr + piece.len());
        } else {
            let piece = d.subrange(r, end);
            assert(ch == piece + rest);
            lemma_size0_box_ends(d, r);
            lemma_placed_split(x, rr, piece, rest);
            lemma_read_box_shift(d, r, x, rr);
            lemma_mdia_children_again(d, end, e, o, x, rr + piece.len());
        }
    }
}

} // verus!

verus! {

/// A verbatim box copied to `rr` of `x` reads there as it did in `d`, with the same body.
proof fn lemma_copied_box(d: Seq<u8>, r: int, x: Seq<u8>, rr: int, rest_len: int, e: int)
    requires
        0 <= r,
        0 <= rr,
        e <= d.len() <= usize::MAX,
        spec_read_box(d, r) matches Ok(Some(_)),
        box_at(d, r).0 <= e,
        0 <= rest_len,
        box_at(d, r).0 >= e ==> rest_len == 0,
        x.len() <= usize::MAX,
        rr + (box_at(d, r).0 - r) + rest_len <= x.len(),
        x.subrange(rr, rr + (box_at(d, r).0 - r)) == d.subrange(r, box_at(d, r).0),
        e == d.len() ==> rr + (box_at(d, r).0 - r) + rest_len == x.len(),
    ensures
        spec_read_box(x, rr) == Ok::<Option<(int, int, Seq<u8>)>, Error>(
            Some((rr + (box_at(d, r).0 - r), rr + (box_at(d, r).1 - r), box_at(d, r).2)),
        ),
        x.subrange(rr + (box_at(d, r).1 - r), rr + (box_at(d, r).0 - r)) == d.subrange(box_at(d, r).1, box_at(d, r).0),
{
    lemma_read_box_span(d, r);
    lemma_size0_box_ends(d, r);
    lemma_read_box_shift(d, r, x, rr);
    let (end, bs, k) = box_at(d, r);
    assert(x.subrange(rr + (bs - r), rr + (end - r)) =~= x.subrange(rr, rr + (end - r)).subrange(bs - r, end - r));
    assert(d.subrange(bs, end) =~= d.subrange(r, end).subrange(bs - r, end - r));
}

#[verifier::spinoff_prover]
#[verifier::rlimit(60)]
proof fn lemma_trak_children_again(d: Seq<u8>, r: int, e: int, o: StripOptions, x: Seq<u8>, rr: int)
    requires
        0 <= r,
        e <= d.len() <= usize::MAX,
        trak_children(d, r, e, o) is Ok,
        placed(x, rr, trak_children(d, r, e, o)->Ok_0, e, d.len() as int),
    ensures
        trak_children(x, rr, rr + trak_children(d, r, e, o)->Ok_0.len(), o) == trak_children(d, r, e, o),
    decreases d.len() - r,
{
    let ch = trak_children(d, r, e, o)->Ok_0;
    if r < e {
        lemma_read_box_span(d, r);
        let (end, bs, k) = box_at(d, r);
        let c = code_of(k);
        let rest = trak_children(d, end, e, o)->Ok_0;
        if c == UDTA || c == META || (c == UUID && is_xmp_body(d.subrange(bs, end))) {
            lemma_trak_children_again(d, end, e, o, x, rr);
        } else if c == MDIA {
            let body = mdia_children(d, r + 8, end, o)->Ok_0;
            let piece = spec_make_box(code_bytes(MDIA), body)->Ok_0;
            assert(ch == piece + rest);
            lemma_placed_split(x, rr, piece, rest);
            lemma_made_box_at(MDIA, body, x, rr);
            lemma_mdia_children_again(d, r + 8, end, o, x, rr + 8);
            lemma_trak_children_again(d, end, e, o, x, rr + piece.len());
        } else {
            let piece = d.subrange(r, end);
            assert(ch == piece + rest);
            lemma_placed_split(x, rr, piece, rest);
            lemma_copied_box(d, r, x, rr, rest.len() as int, e);
            lemma_trak_children_again(d, end, e, o, x, rr + piece.len());
        }
    }
}

#[verifier::spinoff_prover]
#[verifier::rlimit(60)]
proof fn lemma_moov_children_again(d: Seq<u8>, r: int, e: int, o: StripOptions, x: Seq<u8>, rr: int)
    requires
        0 <= r,
        e <= d.len() <= usize::MAX,
        moov_children(d, r, e, o) is Ok,
        placed(x, rr, moov_children(d, r, e, o)->Ok_0, e, d.len() as int),
    ensures
        moov_children(x, rr, rr + moov_children(d, r, e, o)->Ok_0.len(), o) == moov_children(d, r, e, o),
    decreases d.len() - r,
{
    let ch = moov_children(d, r, e, o)->Ok_0;
    if r < e {
        lemma_read_box_span(d, r);
        let (end, bs, k) = box_at(d, r);
        let c = code_of(k);
        let rest = moov_children(d, end, e, o)->Ok_0;
        if c == UDTA || c == META || (c == UUID && is_xmp_body(d.subrange(bs, end))) {
            lemma_moov_children_again(d, end, e, o, x, rr);
        } else if c == TRAK {
            let body = trak_children(d, r + 8, end, o)->Ok_0;
            let piece = spec_make_box(code_bytes(TRAK), body)->Ok_0;
            assert(ch == piece + rest);
            lemma_placed_split(x, rr, piece, rest);
            lemma_made_box_at(TRAK, body, x, rr);
            lemma_trak_children_again(d, r + 8, end, o, x, rr + 8);
            lemma_moov_children_again(d, end, e, o, x, rr + piece.len());
        } else {
            let piece = d.subrange(r, end);
            assert(ch == piece + rest);
            lemma_placed_split(x, rr, piece, rest);
            lemma_copied_box(d, r, x, rr, rest.len() as int, e);
            lemma_moov_children_again(d, end, e, o, x, rr + piece.len());
        }
    }
}

} // verus!

verus! {

proof fn lemma_ipco_children_again(d: Seq<u8>, r: int, e: int, o: StripOptions, x: Seq<u8>, rr: int)
    requires
        0 <= r,
        e <= d.len() <= usize::MAX,
        ipco_fits(d, r, e, o),
        ipco_children(d, r, e, o) is Ok,
        placed(x, rr, ipco_children(d, r, e, o)->Ok_0, e, d.len() as int),
    ensures
        ipco_children(x, rr, rr + ipco_children(d, r, e, o)->Ok_0.len(), o) == ipco_children(d, r, e, o),
    decreases d.len() - r,
{
    let ch = ipco_children(d, r, e, o)->Ok_0;
    if r < e {
        lemma_read_box_span(d, r);
        let (end, bs, k) = box_at(d, r);
        let c = code_of(k);
        let rest = ipco_children(d, end, e, o)->Ok_0;
        if c == COLR && !o.keep_icc {
            lemma_ipco_children_again(d, end, e, o, x, rr);
        } else {
            let piece = d.subrange(r, end);
            assert(ch == piece + rest);
            lemma_placed_split(x, rr, piece, rest);
            lemma_copied_box(d, r, x, rr, rest.len() as int, e);
            lemma_ipco_children_again(d, end, e, o, x, rr + piece.len());
        }
    }
}

#[verifier::spinoff_prover]
#[verifier::rlimit(60)]
proof fn lemma_iprp_children_again(d: Seq<u8>, r: int, e: int, o: StripOptions, x: Seq<u8>, rr: int)
    requires
        0 <= r,
        e <= d.len() <= usize::MAX,
        iprp_fits(d, r, e, o),
        iprp_children(d, r, e, o) is Ok,
        placed(x, rr, iprp_children(d, r, e, o)->Ok_0, e, d.len() as int),
    ensures
        iprp_children(x, rr, rr + iprp_children(d, r, e, o)->Ok_0.len(), o) == iprp_children(d, r, e, o),
    decreases d.len() - r,
{
    let ch = iprp_children(d, r, e, o)->Ok_0;
    if r < e {
        lemma_read_box_span(d, r);
        let (end, bs, k) = box_at(d, r);
        let c = code_of(k);
        let rest = iprp_children(d, end, e, o)->Ok_0;
        if c == IPCO {
            let body = ipco_children(d, r + 8, end, o)->Ok_0;
            let piece = spec_make_box(code_bytes(IPCO), body)->Ok_0;
            assert(ch == piece + rest);
            lemma_placed_split(x, rr, piece, rest);
            lemma_made_box_at(IPCO, body, x, rr);
            lemma_ipco_children_again(d, r + 8, end, o, x, rr + 8);
            lemma_iprp_children_again(d, end, e, o, x, rr + piece.len());
        } else {
            let piece = d.subrange(r, end);
            assert(ch == piece + rest);
            lemma_placed_split(x, rr, piece, rest);
            lemma_copied_box(d, r, x, rr, rest.len() as int, e);
            lemma_iprp_children_again(d, end, e, o, x, rr + piece.len());
        }
    }
}

#[verifier::spinoff_prover]
#[verifier::rlimit(60)]
proof fn lemma_top_meta_children_again(d: Seq<u8>, r: int, e: int, o: StripOptions, x: Seq<u8>, rr: int)
    requires
        0 <= r,
        e <= d.len() <= usize::MAX,
        top_meta_fits(d, r, e, o),
        top_meta_children(d, r, e, o) is Ok,
        placed(x, rr, top_meta_children(d, r, e, o)->Ok_0, e, d.len() as int),
    ensures
        top_meta_children(x, rr, rr + top_meta_children(d, r, e, o)->Ok_0.len(), o) == top_meta_children(d, r, e, o),
    decreases d.len() - r,
{
    let ch = top_meta_children(d, r, e, o)->Ok_0;
    if r < e {
        lemma_read_box_span(d, r);
        let (end, bs, k) = box_at(d, r);
        let c = code_of(k);
        let rest = top_meta_children(d, end, e, o)->Ok_0;
        if c == META || (c == UUID && is_xmp_body(d.subrange(bs, end))) {
            lemma_top_meta_children_again(d, end, e, o, x, rr);
        } else if c == IPRP {
            let body = iprp_children(d, r + 8, end, o)->Ok_0;
            let piece = spec_make_box(code_bytes(IPRP), body)->Ok_0;
            assert(ch == piece + rest);
            lemma_placed_split(x, rr, piece, rest);
            lemma_made_box_at(IPRP, body, x, rr);
            lemma_iprp_children_again(d, r + 8, end, o, x, rr + 8);
            lemma_top_meta_children_again(d, end, e, o, x, rr + piece.len());
        } else {
            let piece = d.subrange(r, end);
            assert(ch == piece + rest);
            lemma_placed_split(x, rr, piece, rest);
            lemma_copied_box(d, r, x, rr, rest.len() as int, e);
            lemma_top_meta_children_again(d, end, e, o, x, rr + piece.len());
        }
    }
}

} // verus!

verus! {

#[verifier::spinoff_prover]
#[verifier::rlimit(80)]
proof fn lemma_top_children_again(d: Seq<u8>, p: int, is_heic: bool, o: StripOptions, x: Seq<u8>, rr: int)
    requires
        0 <= p,
        d.len() <= usize::MAX,
        is_heic ==> heif_meta_fits(d, p, o),
        top_children(d, p, is_heic, o) is Ok,
        0 <= rr,
        x.len() <= usize::MAX,
        rr + top_children(d, p, is_heic, o)->Ok_0.len() == x.len(),
        x.subrange(rr, x.len() as int) == top_children(d, p, is_heic, o)->Ok_0,
    ensures
        top_children(x, rr, is_heic, o) == top_children(d, p, is_heic, o),
        ftyp_scan(x, rr) == ftyp_scan(d, p),
        !moof_scan(x, rr),
    decreases d.len() - p,
{
    let ch = top_children(d, p, is_heic, o)->Ok_0;
    let dl = d.len() as int;
    if p < d.len() {
        lemma_read_box_span(d, p);
        let (end, bs, k) = box_at(d, p);
        let c = code_of(k);
        let rest = top_children(d, end, is_heic, o)->Ok_0;
        if c == FREE || c == SKIP || (c == META && !is_heic) || (c == UUID && is_xmp_body(d.subrange(bs, end))) {
            lemma_top_children_again(d, end, is_heic, o, x, rr);
        } else if c == MOOV {
            let body = moov_children(d, p + 8, end, o)->Ok_0;
            let piece = spec_make_box(code_bytes(MOOV), body)->Ok_0;
            assert(ch == piece + rest);
            assert(x.subrange(rr, rr + piece.len() + rest.len()) == piece + rest);
            lemma_placed_split(x, rr, piece, rest);
            lemma_made_box_at(MOOV, body, x, rr);
            lemma_moov_children_again(d, p + 8, end, o, x, rr + 8);
            lemma_top_children_again(d, end, is_heic, o, x, rr + piece.len());
        } else if c == META && p + 12 <= end {
            let h = d.subrange(p + 8, p + 12);
            let mch = top_meta_children(d, p + 12, end, o)->Ok_0;
            let piece = spec_make_box(code_bytes(META), h + mch)->Ok_0;
            assert(ch == piece + rest);
            assert(x.subrange(rr, rr + piece.len() + rest.len()) == piece + rest);
            lemma_placed_split(x, rr, piece, rest);
            lemma_made_box_at(META, h + mch, x, rr);
            lemma_placed_split(x, rr + 8, h, mch);
            lemma_top_meta_children_again(d, p + 12, end, o, x, rr + 12);
            lemma_top_children_again(d, end, is_heic, o, x, rr + piece.len());
        } else {
            let piece = d.subrange(p, end);
            assert(ch == piece + rest);
            assert(x.subrange(rr, rr + piece.len() + rest.len()) == piece + rest);
            lemma_placed_split(x, rr, piece, rest);
            lemma_copied_box(d, p, x, rr, rest.len() as int, dl);
            let bx = rr + (bs - p);
            let ex = rr + (end - p);
            if end - bs >= 4 {
                assert(x.subrange(bx, bx + 4) =~= x.subrange(bx, ex).subrange(0, 4));
                assert(d.subrange(bs, bs + 4) =~= d.subrange(bs, end).subrange(0, 4));
            }
            lemma_top_children_again(d, end, is_heic, o, x, rr + piece.len());
        }
    } else {
        assert(rr == x.len());
    }
}

/// The mdat shift of a position against itself is 0.
proof fn lemma_mdat_shift_same(a: Option<int>)
    ensures
        mdat_shift(a, a) == 0,
{
}

/// Stripping a stripped ISO BMFF file again with the same options changes nothing, when
/// the first strip did not move the first `mdat` (so it patched no offsets) and the boxes
/// kept inside a HEIF `meta` lie within their parent boxes.
pub proof fn lemma_qt_strip_idempotent_unmoved(d: Seq<u8>, o: StripOptions)
    requires
        d.len() <= usize::MAX,
        ftyp_scan(d, 0).0 ==> heif_meta_fits(d, 0, o),
        filter_top_spec(d, ftyp_scan(d, 0).0, o) is Ok,
        mdat_shift(mdat_scan(d, 0), mdat_scan(filter_top_spec(d, ftyp_scan(d, 0).0, o)->Ok_0, 0)) == 0,
    ensures
        spec_qt_strip(d, o) == Ok::<Seq<u8>, Error>(filter_top_spec(d, ftyp_scan(d, 0).0, o)->Ok_0),
        spec_qt_strip(spec_qt_strip(d, o)->Ok_0, o) == spec_qt_strip(d, o),
{
    let heic = ftyp_scan(d, 0).0;
    let f = filter_top_spec(d, heic, o)->Ok_0;
    lemma_top_children_len(d, 0, heic, o);
    assert(f.subrange(0, f.len() as int) =~= f);
    lemma_top_children_again(d, 0, heic, o, f, 0);
    lemma_mdat_shift_same(mdat_scan(f, 0));
}

} // verus!
