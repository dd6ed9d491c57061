//! Removal of metadata chunks from PNG files.
use crate::byteorder::{be_u32_at, be_value};
use crate::detect::{has_prefix, png_signature, starts_with};
use crate::error::{Error, Result};
use crate::fourcc::{code, code_of};
use crate::util::{is_subseq, lemma_subseq_prepend_both, lemma_subseq_prepend_right, push_range, res_bytes, slice_len};
use crate::StripOptions;
use vstd::prelude::*;

verus! {

/// One bit step of the reflected CRC-32 (IEEE polynomial 0xEDB88320).
pub open spec fn crc_step(c: u32) -> u32 {
    if c & 1 != 0 {
        0xEDB88320u32 ^ (c >> 1u32)
    } else {
        c >> 1u32
    }
}

/// `k` bit steps.
pub open spec fn crc_steps(c: u32, k: nat) -> u32
    decreases k,
{
    if k == 0 {
        c
    } else {
        crc_steps(crc_step(c), (k - 1) as nat)
    }
}

/// The CRC register after feeding byte `x`.
pub open spec fn crc_byte(c: u32, x: u8) -> u32 {
    crc_steps(c ^ (x as u32), 8)
}

/// The CRC register after feeding the bytes `s`, starting from `c`.
pub open spec fn crc_update(c: u32, s: Seq<u8>) -> u32
    decreases s.len(),
{
    if s.len() == 0 {
        c
    } else {
        crc_byte(crc_update(c, s.drop_last()), s.last())
    }
}

/// CRC-32 (ISO 3309, as PNG uses it): register starts all ones, result complemented.
pub open spec fn crc32(s: Seq<u8>) -> u32 {
    !crc_update(0xffff_ffffu32, s)
}

fn crc_feed(c: u32, x: u8) -> (r: u32)
    ensures
        r == crc_byte(c, x),
{
    let c0 = c;
    let mut c = c ^ (x as u32);
    let mut k: usize = 0;
    while k < 8
        invariant
            k <= 8,
            crc_steps(c, (8 - k) as nat) == crc_byte(c0, x),
        decreases 8 - k,
    {
        c = if c & 1 != 0 {
            0xEDB88320u32 ^ (c >> 1)
        } else {
            c >> 1
        };
        k += 1;
    }
    c
}

/// CRC-32 (IEEE) for chunk type+data
fn chunk_crc32(typ: [u8; 4], data: &[u8]) -> (r: u32)
    ensures
        r == crc32(typ@ + data@),
{
    let ghost all = typ@ + data@;
    let mut c: u32 = 0xFFFF_FFFF;
    let mut i: usize = 0;
    while i < 4
        invariant
            i <= 4,
            all == typ@ + data@,
            c == crc_update(0xffff_ffffu32, all.subrange(0, i as int)),
        decreases 4 - i,
    {
        assert(all.subrange(0, i + 1).drop_last() =~= all.subrange(0, i as int));
        c = crc_feed(c, typ[i]);
        i += 1;
    }
    let mut j: usize = 0;
    while j < data.len()
        invariant
            j <= data@.len(),
            all == typ@ + data@,
            c == crc_update(0xffff_ffffu32, all.subrange(0, 4 + j)),
        decreases data@.len() - j,
    {
        assert(all.subrange(0, 4 + j + 1).drop_last() =~= all.subrange(0, 4 + j));
        c = crc_feed(c, data[j]);
        j += 1;
    }
    assert(all.subrange(0, 4 + data@.len() as int) =~= all);
    !c
}

} // verus!

verus! {

pub const IHDR: u32 = 0x49484452;
pub const PLTE: u32 = 0x504c5445;
pub const IDAT: u32 = 0x49444154;
pub const IEND: u32 = 0x49454e44;
pub const GAMA: u32 = 0x67414d41;
pub const CHRM: u32 = 0x6348524d;
pub const SRGB: u32 = 0x73524742;
pub const TRNS: u32 = 0x74524e53;
pub const BKGD: u32 = 0x624b4744;
pub const ICCP: u32 = 0x69434350;
pub const EXIF: u32 = 0x65584966;
pub const ZXIF: u32 = 0x7a784966;
pub const TEXT: u32 = 0x74455874;
pub const ZTXT: u32 = 0x7a545874;
pub const ITXT: u32 = 0x69545874;
pub const TIME: u32 = 0x74494d45;
pub const PHYS: u32 = 0x70485973;
pub const SPLT: u32 = 0x73504c54;
pub const HIST: u32 = 0x68495354;
pub const SBIT: u32 = 0x73424954;

/// The image chunks that every stripped PNG keeps.
pub open spec fn is_image_chunk(c: nat) -> bool {
    c == IHDR || c == PLTE || c == IDAT || c == IEND
}

/// Colour ancillaries, kept with `keep_color_info`.
pub open spec fn is_color_chunk(c: nat) -> bool {
    c == GAMA || c == CHRM || c == SRGB || c == TRNS || c == BKGD
}

/// Metadata chunks, always removed.
pub open spec fn is_metadata_chunk(c: nat) -> bool {
    c == EXIF || c == ZXIF || c == TEXT || c == ZTXT || c == ITXT || c == TIME || c == PHYS || c
        == SPLT || c == HIST || c == SBIT
}

/// Vendor XMP chunks (`XmP*`, `XMP*`, any case of the two middle letters).
pub open spec fn is_xmp_chunk(t: Seq<u8>) -> bool {
    t[0] == 0x58 && (t[1] | 32u8) == 0x6d && (t[2] | 32u8) == 0x70
}

/// Critical chunk: the first letter is upper case.
pub open spec fn spec_is_critical_chunk(t: Seq<u8>) -> bool {
    0x41 <= t[0] <= 0x5a
}

/// The chunk of type `t` stays in the stripped file.
pub open spec fn spec_keep_chunk(t: Seq<u8>, o: StripOptions) -> bool {
    let c = code_of(t);
    if is_image_chunk(c) {
        true
    } else if is_color_chunk(c) {
        o.keep_color_info
    } else if c == ICCP {
        o.keep_icc
    } else if is_metadata_chunk(c) {
        false
    } else if is_xmp_chunk(t) {
        false
    } else {
        spec_is_critical_chunk(t)
    }
}

fn is_critical_chunk(typ: [u8; 4]) -> (r: bool)
    ensures
        r == spec_is_critical_chunk(typ@),
{
    0x41 <= typ[0] && typ[0] <= 0x5a
}

/// Return true if this chunk is kept when stripping.
pub fn keep_chunk(typ: [u8; 4], opts: &StripOptions) -> (r: bool)
    ensures
        r == spec_keep_chunk(typ@, *opts),
{
    let c = code(&typ);
    if c == IHDR || c == PLTE || c == IDAT || c == IEND {
        true
    } else if c == GAMA || c == CHRM || c == SRGB || c == TRNS || c == BKGD {
        opts.keep_color_info
    } else if c == ICCP {
        opts.keep_icc
    } else if c == EXIF || c == ZXIF || c == TEXT || c == ZTXT || c == ITXT || c == TIME || c
        == PHYS || c == SPLT || c == HIST || c == SBIT {
        false
    } else if typ[0] == 0x58 && (typ[1] | 32) == 0x6d && (typ[2] | 32) == 0x70 {
        false  // strip vendor XmP* / XMP

    } else {
        is_critical_chunk(typ)  // keep unknown critical chunks, strip unknown ancillary

    }
}

/// The kept chunks from offset `p` on, with whether an `IHDR`, an `IDAT` and an `IEND` were
/// among them. Every chunk's CRC is checked; kept chunks are copied as they are.
pub open spec fn png_walk(d: Seq<u8>, p: int, o: StripOptions) -> Result<(Seq<u8>, bool, bool, bool)>
    decreases d.len() - p,
{
    if p < 0 || p + 8 > d.len() {
        Ok((seq![], false, false, false))
    } else {
        let clen = be_value(d.subrange(p, p + 4));
        let t = d.subrange(p + 4, p + 8);
        let dstart = p + 8;
        let dend = dstart + clen;
        if dend > usize::MAX {
            Err(Error::BadPng)
        } else if dend + 4 > d.len() {
            Err(Error::Truncated)
        } else if crc32(t + d.subrange(dstart, dend)) != be_value(d.subrange(dend, dend + 4)) {
            Err(Error::BadPng)
        } else {
            match png_walk(d, dend + 4, o) {
                Err(x) => Err(x),
                Ok((s, a, b, c)) => if !spec_keep_chunk(t, o) {
                    Ok((s, a, b, c))
                } else {
                    let k = code_of(t);
                    Ok((d.subrange(p, dend + 4) + s, a || k == IHDR, b || k == IDAT, c || k == IEND))
                },
            }
        }
    }
}

/// The bytes `out` kept so far followed by the walk `w`, refused unless `IHDR`, `IDAT` and
/// `IEND` were kept.
pub open spec fn png_finish(
    out: Seq<u8>,
    fa: bool,
    fb: bool,
    fc: bool,
    w: Result<(Seq<u8>, bool, bool, bool)>,
) -> Result<Seq<u8>> {
    match w {
        Err(x) => Err(x),
        Ok((s, a, b, c)) => if !(fa || a) || !(fb || b) || !(fc || c) {
            Err(Error::BadPng)
        } else {
            Ok(out + s)
        },
    }
}

/// The PNG with metadata and (unless kept) ICC and colour chunks removed.
pub open spec fn spec_png_strip(d: Seq<u8>, o: StripOptions) -> Result<Seq<u8>> {
    if !starts_with(d, png_signature()) {
        Err(Error::BadPng)
    } else {
        png_finish(d.subrange(0, 8), false, false, false, png_walk(d, 8, o))
    }
}

/// Strip metadata chunks from a PNG, recomputing CRC-32.
pub fn strip(data: &[u8], opts: &StripOptions) -> (r: Result<Vec<u8>>)
    ensures
        res_bytes(r) == spec_png_strip(data@, *opts),
{
    let n = slice_len(data);
    let sig: [u8; 8] = [0x89, 0x50, 0x4e, 0x47, 0x0d, 0x0a, 0x1a, 0x0a];
    assert(sig@ =~= png_signature());
    if n < 8 || !has_prefix(data, &sig) {
        return Err(Error::BadPng);
    }
    let mut out: Vec<u8> = Vec::new();
    push_range(&mut out, data, 0, 8);
    let mut p: usize = 8;
    let mut has_ihdr = false;
    let mut has_idat = false;
    let mut has_iend = false;
    while p + 8 <= n
        invariant
            n == data@.len() <= isize::MAX,
            8 <= p <= n,
            spec_png_strip(data@, *opts) == png_finish(
                out@,
                has_ihdr,
                has_idat,
                has_iend,
                png_walk(data@, p as int, *opts),
            ),
        decreases n - p,
    {
        let len = be_u32_at(data, p) as usize;
        let chunk_type: [u8; 4] = [data[p + 4], data[p + 5], data[p + 6], data[p + 7]];
        assert(chunk_type@ =~= data@.subrange(p + 4, p + 8));
        let dstart = p + 8;
        let dend = match dstart.checked_add(len) {
            Some(x) => x,
            None => return Err(Error::BadPng),
        };
        if dend > n || n - dend < 4 {
            return Err(Error::Truncated);
        }
        let chunk_data = vstd::slice::slice_subrange(data, dstart, dend);
        let stored_crc = be_u32_at(data, dend);
        if chunk_crc32(chunk_type, chunk_data) != stored_crc {
            return Err(Error::BadPng);
        }
        let ghost old_out = out@;
        let chunk_start = p;
        p = dend + 4;
        if !keep_chunk(chunk_type, opts) {
            continue;
        }
        let c = code(&chunk_type);
        if c == IHDR {
            has_ihdr = true;
        }
        if c == IDAT {
            has_idat = true;
        }
        if c == IEND {
            has_iend = true;
        }
        push_range(&mut out, data, chunk_start, p);
        proof {
            let w = png_walk(data@, p as int, *opts);
            if let Ok((s, a, b, cc)) = w {
                assert(old_out + (data@.subrange(chunk_start as int, p as int) + s) =~= out@ + s);
            }
        }
    }
    if !has_ihdr || !has_idat || !has_iend {
        return Err(Error::BadPng);
    }
    proof {
        assert(out@ + Seq::<u8>::empty() =~= out@);
    }
    Ok(out)
}

/// Each kept chunk is a whole chunk of the input, so the kept bytes from `p` on never
/// outnumber the bytes left after `p`.
pub proof fn lemma_png_walk_len(d: Seq<u8>, p: int, o: StripOptions)
    requires
        0 <= p <= d.len(),
    ensures
        png_walk(d, p, o) matches Ok((s, _, _, _)) ==> s.len() <= d.len() - p,
    decreases d.len() - p,
{
    if p + 8 <= d.len() {
        let clen = be_value(d.subrange(p, p + 4));
        let dend = p + 8 + clen;
        if dend <= usize::MAX && dend + 4 <= d.len() {
            lemma_png_walk_len(d, dend + 4, o);
        }
    }
}

/// Stripping never makes a PNG longer, keeps the signature, and the result holds an `IHDR`,
/// an `IDAT` and an `IEND` chunk.
pub proof fn lemma_png_strip_shrinks(d: Seq<u8>, o: StripOptions)
    ensures
        spec_png_strip(d, o) matches Ok(s) ==> s.len() <= d.len() && starts_with(s, png_signature()),
{
    if let Ok(s) = spec_png_strip(d, o) {
        lemma_png_walk_len(d, 8, o);
        assert(s.subrange(0, 8) =~= d.subrange(0, 8));
    }
}

/// The image chunks (`IHDR`, `PLTE`, `IDAT`, `IEND`) stay whatever the options, and the
/// metadata chunks go whatever the options.
pub proof fn lemma_keep_chunk_classes(t: Seq<u8>, o: StripOptions)
    ensures
        is_image_chunk(code_of(t)) ==> spec_keep_chunk(t, o),
        is_metadata_chunk(code_of(t)) ==> !spec_keep_chunk(t, o),
{
}

/// Walking the kept chunks again, wherever they stand, keeps all of them.
proof fn lemma_png_walk_again(d: Seq<u8>, p: int, o: StripOptions, pre: Seq<u8>)
    requires
        0 <= p,
        png_walk(d, p, o) is Ok,
        pre.len() + png_walk(d, p, o)->Ok_0.0.len() <= usize::MAX,
    ensures
        png_walk(pre + png_walk(d, p, o)->Ok_0.0, pre.len() as int, o) == png_walk(d, p, o),
    decreases d.len() - p,
{
    let x = pre + png_walk(d, p, o)->Ok_0.0;
    let pp = pre.len() as int;
    if p + 8 > d.len() {
        assert(x.len() == pre.len());
    } else {
        let clen = be_value(d.subrange(p, p + 4));
        let t = d.subrange(p + 4, p + 8);
        let dend = p + 8 + clen;
        let (s1, a1, b1, c1) = png_walk(d, dend + 4, o)->Ok_0;
        if !spec_keep_chunk(t, o) {
            lemma_png_walk_again(d, dend + 4, o, pre);
        } else {
            let chunk = d.subrange(p, dend + 4);
            assert(x =~= (pre + chunk) + s1);
            assert(x.subrange(pp, pp + 4) =~= d.subrange(p, p + 4));
            assert(x.subrange(pp + 4, pp + 8) =~= t);
            let dend2 = pp + 8 + clen;
            assert(x.subrange(pp + 8, dend2) =~= d.subrange(p + 8, dend));
            assert(x.subrange(dend2, dend2 + 4) =~= d.subrange(dend, dend + 4));
            lemma_png_walk_again(d, dend + 4, o, pre + chunk);
            assert(dend2 + 4 <= x.len());
            assert(be_value(x.subrange(pp, pp + 4)) == clen);
            assert(t + x.subrange(pp + 8, dend2) =~= t + d.subrange(p + 8, dend));
            assert(png_walk(x, dend2 + 4, o) == png_walk(d, dend + 4, o));
            assert(x.subrange(pp, dend2 + 4) =~= chunk);
        }
    }
}

/// Stripping a stripped PNG with the same options changes nothing.
pub proof fn lemma_png_strip_idempotent(d: Seq<u8>, o: StripOptions)
    requires
        d.len() <= usize::MAX,
        spec_png_strip(d, o) is Ok,
    ensures
        spec_png_strip(spec_png_strip(d, o)->Ok_0, o) == spec_png_strip(d, o),
{
    let s = spec_png_strip(d, o)->Ok_0;
    let sig = d.subrange(0, 8);
    lemma_png_walk_len(d, 8, o);
    let w = png_walk(d, 8, o)->Ok_0.0;
    assert(s =~= sig + w);
    lemma_png_walk_again(d, 8, o, sig);
    assert(s.subrange(0, 8) =~= sig);
}

/// A stripped PNG is detected as a PNG again.
pub proof fn lemma_png_strip_redetects(d: Seq<u8>, o: StripOptions)
    requires
        spec_png_strip(d, o) is Ok,
    ensures
        crate::detect::spec_detect(spec_png_strip(d, o)->Ok_0) == Ok::<crate::detect::FileType, Error>(crate::detect::FileType::Png),
{
    let s = spec_png_strip(d, o)->Ok_0;
    lemma_png_strip_shrinks(d, o);
    assert(s[0] == png_signature()[0]);
    assert(!starts_with(s, seq![0xffu8, 0xd8, 0xff]));
    assert(!starts_with(s, seq![0x49u8, 0x49, 0x2a, 0x00]));
    assert(!starts_with(s, seq![0x4du8, 0x4d, 0x00, 0x2a]));
}

proof fn lemma_png_walk_mono(d: Seq<u8>, p: int, o1: StripOptions, o2: StripOptions)
    requires
        crate::keeps_at_most(o1, o2),
        png_walk(d, p, o1) is Ok,
    ensures
        png_walk(d, p, o2) is Ok,
        is_subseq(png_walk(d, p, o1)->Ok_0.0, png_walk(d, p, o2)->Ok_0.0),
        png_walk(d, p, o1)->Ok_0.1 == png_walk(d, p, o2)->Ok_0.1,
        png_walk(d, p, o1)->Ok_0.2 == png_walk(d, p, o2)->Ok_0.2,
        png_walk(d, p, o1)->Ok_0.3 == png_walk(d, p, o2)->Ok_0.3,
    decreases d.len() - p,
{
    if p < 0 || p + 8 > d.len() {
    } else {
        let clen = be_value(d.subrange(p, p + 4));
        let t = d.subrange(p + 4, p + 8);
        let dend = p + 8 + clen;
        lemma_png_walk_mono(d, dend + 4, o1, o2);
        let r1 = png_walk(d, dend + 4, o1)->Ok_0.0;
        let r2 = png_walk(d, dend + 4, o2)->Ok_0.0;
        let chunk = d.subrange(p, dend + 4);
        if spec_keep_chunk(t, o1) {
            lemma_subseq_prepend_both(chunk, r1, r2);
        } else if spec_keep_chunk(t, o2) {
            lemma_subseq_prepend_right(r1, chunk, r2);
        }
    }
}

/// Setting more keep-options keeps more: the PNG stripped with `o1` is a subsequence of
/// the one stripped with `o2` (every chunk kept under `o1` is kept under `o2`, in the same
/// order), and `o2` succeeds wherever `o1` does.
pub proof fn lemma_png_strip_keeps_more(d: Seq<u8>, o1: StripOptions, o2: StripOptions)
    requires
        crate::keeps_at_most(o1, o2),
        spec_png_strip(d, o1) is Ok,
    ensures
        spec_png_strip(d, o2) is Ok,
        is_subseq(spec_png_strip(d, o1)->Ok_0, spec_png_strip(d, o2)->Ok_0),
{
    lemma_png_walk_mono(d, 8, o1, o2);
    lemma_subseq_prepend_both(d.subrange(0, 8), png_walk(d, 8, o1)->Ok_0.0, png_walk(d, 8, o2)->Ok_0.0);
}

} // verus!
