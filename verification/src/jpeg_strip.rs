//! Removal of metadata segments from JPEG files.
use crate::byteorder::{be_u16_at, be_value};
use crate::detect::{has_prefix, starts_with};
use crate::error::{Error, Result};
use crate::util::{is_subseq, lemma_subseq_prepend_both, lemma_subseq_prepend_right, lemma_subseq_refl, lemma_then_append_assoc, push_range, res_bytes, slice_len, then_append};
use crate::StripOptions;
use vstd::prelude::*;

verus! {

/// First index at or after `i` that does not hold a `0xff` fill byte.
pub open spec fn skip_fill(d: Seq<u8>, i: int) -> int
    decreases d.len() - i,
{
    if i < 0 || i >= d.len() || d[i] != 0xff {
        i
    } else {
        skip_fill(d, i + 1)
    }
}

pub proof fn lemma_skip_fill(d: Seq<u8>, i: int)
    requires
        0 <= i,
    ensures
        i <= skip_fill(d, i),
        skip_fill(d, i) <= d.len() || skip_fill(d, i) == i,
        skip_fill(d, i) < d.len() ==> d[skip_fill(d, i)] != 0xff,
    decreases d.len() - i,
{
    if i < d.len() && d[i] == 0xff {
        lemma_skip_fill(d, i + 1);
    }
}

/// Markers that stand alone, without a length field: SOI, EOI, RSTn, TEM.
pub open spec fn is_standalone_marker(m: u8) -> bool {
    m == 0xd8 || m == 0xd9 || (0xd0 <= m <= 0xd7) || m == 0x01
}

/// Start Of Frame markers (not DHT, JPG, DAC).
pub open spec fn spec_is_sof(m: u8) -> bool {
    (m & 0xf0) == 0xc0 && (m == 0xc0 || (m & 0x03) != 0) && m != 0xc4 && m != 0xc8 && m != 0xcc
}

pub(crate) fn is_sof(m: u8) -> (r: bool)
    ensures
        r == spec_is_sof(m),
{
    (m & 0xf0) == 0xc0 && (m == 0xc0 || (m & 0x03) != 0) && m != 0xc4 && m != 0xc8 && m != 0xcc
}

/// `APP2` payload of an ICC profile.
pub open spec fn spec_is_icc_app2_payload(payload: Seq<u8>) -> bool {
    payload.len() > 1 && starts_with(
        payload,
        seq![0x49u8, 0x43, 0x43, 0x5f, 0x50, 0x52, 0x4f, 0x46, 0x49, 0x4c, 0x45, 0x00],
    )
}

fn is_icc_app2_payload(payload: &[u8]) -> (r: bool)
    ensures
        r == spec_is_icc_app2_payload(payload@),
{
    let icc: [u8; 12] = [0x49, 0x43, 0x43, 0x5f, 0x50, 0x52, 0x4f, 0x46, 0x49, 0x4c, 0x45, 0x00];
    assert(icc@ =~= seq![0x49u8, 0x43, 0x43, 0x5f, 0x50, 0x52, 0x4f, 0x46, 0x49, 0x4c, 0x45, 0x00]);
    payload.len() > 1 && has_prefix(payload, &icc)
}

/// `APP0` payload of a JFIF header.
pub open spec fn spec_is_jfif_app0(payload: Seq<u8>) -> bool {
    starts_with(payload, seq![0x4au8, 0x46, 0x49, 0x46, 0x00])
}

fn is_jfif_app0(payload: &[u8]) -> (r: bool)
    ensures
        r == spec_is_jfif_app0(payload@),
{
    let jfif: [u8; 5] = [0x4a, 0x46, 0x49, 0x46, 0x00];
    assert(jfif@ =~= seq![0x4au8, 0x46, 0x49, 0x46, 0x00]);
    has_prefix(payload, &jfif)
}

/// A segment with `marker` and `payload` stays in the stripped file: comments and APPn
/// segments go, except a JFIF `APP0` or an ICC `APP2` that the options keep.
pub open spec fn spec_keep_marked_segment(marker: u8, payload: Seq<u8>, o: StripOptions) -> bool {
    if marker == 0xfe {
        false
    } else if 0xe0 <= marker <= 0xef {
        (o.keep_jfif && marker == 0xe0 && spec_is_jfif_app0(payload)) || (o.keep_icc && marker
            == 0xe2 && spec_is_icc_app2_payload(payload))
    } else {
        true
    }
}

fn keep_marked_segment(marker: u8, payload: &[u8], opts: &StripOptions) -> (r: bool)
    ensures
        r == spec_keep_marked_segment(marker, payload@, *opts),
{
    if marker == 0xfe {
        return false;  // COM
    }
    if 0xe0 <= marker && marker <= 0xef {
        if opts.keep_jfif && marker == 0xe0 && is_jfif_app0(payload) {
            return true;
        }
        if opts.keep_icc && marker == 0xe2 && is_icc_app2_payload(payload) {
            return true;
        }
        return false;  // all other APP
    }
    if is_sof(marker) || marker == 0xc4 || marker == 0xc8 || marker == 0xcc || marker == 0xdb
        || marker == 0xdd {
        return true;
    }
    true
}

/// The kept segments from offset `p` on, up to and including the scan data after SOS.
/// A segment whose declared length is shorter than its fill bytes and header is refused.
pub open spec fn jpeg_walk(d: Seq<u8>, p: int, o: StripOptions) -> Result<Seq<u8>>
    decreases d.len() - p,
{
    if p < 0 || p >= d.len() {
        Err(Error::BadJpeg)
    } else if d[p] != 0xff {
        Err(Error::BadJpeg)
    } else {
        let seg_start = p;
        let q = skip_fill(d, p + 1);
        if q >= d.len() {
            Err(Error::BadJpeg)
        } else {
            let m = d[q];
            let p2 = q + 1;
            proof {
                lemma_skip_fill(d, p + 1);
            }
            if is_standalone_marker(m) {
                jpeg_walk(d, p2, o)
            } else if p2 + 2 > d.len() {
                Err(Error::Truncated)
            } else {
                let seglen = be_value(d.subrange(p2, p2 + 2));
                let p3 = p2 + 2;
                let end = seg_start + 2 + seglen;
                if seglen < 2 {
                    Err(Error::BadJpeg)
                } else if end > usize::MAX || end > d.len() {
                    Err(Error::BadJpeg)
                } else if m == 0xda {
                    Ok(d.subrange(seg_start, d.len() as int))
                } else if p3 > end {
                    Err(Error::BadJpeg)
                } else if spec_keep_marked_segment(m, d.subrange(p3, end), o) {
                    then_append(d.subrange(seg_start, end), jpeg_walk(d, end, o))
                } else {
                    jpeg_walk(d, end, o)
                }
            }
        }
    }
}

/// The JPEG with comment and APPn segments removed (JFIF / ICC kept on request); everything
/// from the Start Of Scan on is copied as it is.
pub open spec fn spec_jpeg_strip(d: Seq<u8>, o: StripOptions) -> Result<Seq<u8>> {
    if d.len() < 2 || d[0] != 0xff || d[1] != 0xd8 {
        Err(Error::BadJpeg)
    } else {
        then_append(seq![0xffu8, 0xd8], jpeg_walk(d, 2, o))
    }
}

/// Strip metadata segments from a JPEG, matching a conservative subset of
/// `exiftool -all=` (APP/COM; optional JFIF/ICC per options).
pub fn strip(data: &[u8], opts: &StripOptions) -> (r: Result<Vec<u8>>)
    ensures
        res_bytes(r) == spec_jpeg_strip(data@, *opts),
{
    let n = slice_len(data);
    if n < 2 || data[0] != 0xff || data[1] != 0xd8 {
        return Err(Error::BadJpeg);
    }
    let mut out: Vec<u8> = Vec::new();
    out.push(0xff);
    out.push(0xd8);
    assert(out@ =~= seq![0xffu8, 0xd8]);
    let mut p: usize = 2;
    while p < n
        invariant
            n == data@.len() <= isize::MAX,
            2 <= p,
            spec_jpeg_strip(data@, *opts) == then_append(out@, jpeg_walk(data@, p as int, *opts)),
        decreases n - p,
    {
        let ghost old_out = out@;
        if data[p] != 0xff {
            return Err(Error::BadJpeg);
        }
        let seg_start = p;
        p += 1;
        proof {
            lemma_skip_fill(data@, p as int);
        }
        while p < n && data[p] == 0xff
            invariant
                seg_start < p <= n,
                n == data@.len(),
                skip_fill(data@, p as int) == skip_fill(data@, seg_start + 1),
            decreases n - p,
        {
            p += 1;
        }
        if p >= n {
            return Err(Error::BadJpeg);
        }
        let m = data[p];
        p += 1;
        if m == 0xd8 || m == 0xd9 || (0xd0 <= m && m <= 0xd7) || m == 0x01 {
            continue;
        }
        if p + 2 > n {
            return Err(Error::Truncated);
        }
        let seglen = be_u16_at(data, p) as usize;
        p += 2;
        if seglen < 2 {
            return Err(Error::BadJpeg);
        }
        let end = match seg_start.checked_add(2) {
            Some(a) => match a.checked_add(seglen) {
                Some(b) => b,
                None => return Err(Error::BadJpeg),
            },
            None => return Err(Error::BadJpeg),
        };
        if end > n {
            return Err(Error::BadJpeg);
        }
        if m == 0xda {
            // Start Of Scan: always keep segment, then all entropy + RST + EOI
            push_range(&mut out, data, seg_start, end);
            push_range(&mut out, data, end, n);
            assert(out@ =~= old_out + data@.subrange(seg_start as int, n as int));
            return Ok(out);
        }
        if p > end {
            return Err(Error::BadJpeg);
        }
        let payload = vstd::slice::slice_subrange(data, p, end);
        p = end;
        if keep_marked_segment(m, payload, opts) {
            push_range(&mut out, data, seg_start, end);
            proof {
                lemma_then_append_assoc(
                    old_out,
                    data@.subrange(seg_start as int, end as int),
                    jpeg_walk(data@, end as int, *opts),
                );
            }
        }
    }
    Err(Error::BadJpeg)
}

/// The kept bytes from offset `p` on are never more than the bytes left after `p`.
pub proof fn lemma_jpeg_walk_len(d: Seq<u8>, p: int, o: StripOptions)
    requires
        0 <= p,
    ensures
        jpeg_walk(d, p, o) matches Ok(s) ==> s.len() <= d.len() - p,
    decreases d.len() - p,
{
    if 0 <= p < d.len() && d[p] == 0xff {
        lemma_skip_fill(d, p + 1);
        let q = skip_fill(d, p + 1);
        if q < d.len() {
            let m = d[q];
            let p2 = q + 1;
            if is_standalone_marker(m) {
                lemma_jpeg_walk_len(d, p2, o);
            } else if p2 + 2 <= d.len() {
                let seglen = be_value(d.subrange(p2, p2 + 2));
                let end = p + 2 + seglen;
                if seglen >= 2 && end <= d.len() && m != 0xda {
                    lemma_jpeg_walk_len(d, end, o);
                }
            }
        }
    }
}

/// Stripping never makes a JPEG longer, and the result starts with the SOI marker.
pub proof fn lemma_jpeg_strip_shrinks(d: Seq<u8>, o: StripOptions)
    ensures
        spec_jpeg_strip(d, o) matches Ok(s) ==> s.len() <= d.len() && s.len() >= 2 && s[0] == 0xff
            && s[1] == 0xd8,
{
    lemma_jpeg_walk_len(d, 2, o);
}

/// Walking the kept segments again, wherever they stand, keeps all of them when the walk
/// met no fill bytes.
proof fn lemma_jpeg_walk_again(d: Seq<u8>, p: int, o: StripOptions, pre: Seq<u8>)
    requires
        0 <= p,
        crate::jpeg::walk_fill_free(d, p),
        jpeg_walk(d, p, o) is Ok,
        pre.len() + jpeg_walk(d, p, o)->Ok_0.len() <= usize::MAX,
    ensures
        jpeg_walk(pre + jpeg_walk(d, p, o)->Ok_0, pre.len() as int, o) == jpeg_walk(d, p, o),
    decreases d.len() - p,
{
    let s = jpeg_walk(d, p, o)->Ok_0;
    let x = pre + s;
    let pp = pre.len() as int;
    lemma_skip_fill(d, p + 1);
    let m = d[p + 1];
    assert(skip_fill(d, p + 1) == p + 1);
    if is_standalone_marker(m) {
        lemma_jpeg_walk_again(d, p + 2, o, pre);
    } else {
        let seglen = be_value(d.subrange(p + 2, p + 4));
        let end = p + 2 + seglen;
        let end2 = pp + 2 + seglen;
        if m == 0xda {
            assert(s =~= d.subrange(p, d.len() as int));
            assert(p + 4 <= d.len());
            assert(d[p] == 0xff);
            assert(s[0] == d[p] && s[1] == d[p + 1] && s[2] == d[p + 2] && s[3] == d[p + 3]);
            assert(x[pp] == s[0] && x[pp + 1] == s[1] && x[pp + 2] == s[2] && x[pp + 3] == s[3]);
            assert(x.subrange(pp + 2, pp + 4) =~= d.subrange(p + 2, p + 4));
            assert(x[pp] == 0xff && x[pp + 1] == m);
            assert(skip_fill(x, pp + 1) == pp + 1);
            assert(x.subrange(pp, x.len() as int) =~= s);
        } else {
            let seg = d.subrange(p, end);
            if spec_keep_marked_segment(m, d.subrange(p + 4, end), o) {
                let rest = jpeg_walk(d, end, o)->Ok_0;
                assert(x =~= (pre + seg) + rest);
                assert(seg[0] == d[p] && seg[1] == d[p + 1] && seg[2] == d[p + 2] && seg[3] == d[p + 3]);
                assert(x[pp] == seg[0] && x[pp + 1] == seg[1] && x[pp + 2] == seg[2] && x[pp + 3] == seg[3]);
                assert(x.subrange(pp + 2, pp + 4) =~= d.subrange(p + 2, p + 4));
                assert(x[pp] == 0xff && x[pp + 1] == m);
                assert(skip_fill(x, pp + 1) == pp + 1);
                assert(x.subrange(pp + 4, end2) =~= d.subrange(p + 4, end));
                assert(x.subrange(pp, end2) =~= seg);
                lemma_jpeg_walk_again(d, end, o, pre + seg);
            } else {
                lemma_jpeg_walk_again(d, end, o, pre);
            }
        }
    }
}

/// Stripping a stripped JPEG with the same options changes nothing, when the walk to the
/// Start Of Scan meets no fill bytes (with fill bytes a kept segment is cut short).
pub proof fn lemma_jpeg_strip_idempotent(d: Seq<u8>, o: StripOptions)
    requires
        d.len() <= usize::MAX,
        crate::jpeg::walk_fill_free(d, 2),
        spec_jpeg_strip(d, o) is Ok,
    ensures
        spec_jpeg_strip(spec_jpeg_strip(d, o)->Ok_0, o) == spec_jpeg_strip(d, o),
{
    let s = spec_jpeg_strip(d, o)->Ok_0;
    let soi = seq![0xffu8, 0xd8];
    lemma_jpeg_walk_len(d, 2, o);
    let w = jpeg_walk(d, 2, o)->Ok_0;
    assert(s =~= soi + w);
    lemma_jpeg_walk_again(d, 2, o, soi);
}

/// What the walk keeps starts with a marker's `0xff`.
pub proof fn lemma_jpeg_walk_starts_with_marker(d: Seq<u8>, p: int, o: StripOptions)
    requires
        0 <= p,
        jpeg_walk(d, p, o) is Ok,
    ensures
        jpeg_walk(d, p, o)->Ok_0.len() >= 1 && jpeg_walk(d, p, o)->Ok_0[0] == 0xff,
    decreases d.len() - p,
{
    lemma_skip_fill(d, p + 1);
    let q = skip_fill(d, p + 1);
    let m = d[q];
    if is_standalone_marker(m) {
        lemma_jpeg_walk_starts_with_marker(d, q + 1, o);
    } else {
        let seglen = be_value(d.subrange(q + 1, q + 3));
        let end = p + 2 + seglen;
        if m != 0xda && !spec_keep_marked_segment(m, d.subrange(q + 3, end), o) {
            lemma_jpeg_walk_starts_with_marker(d, end, o);
        }
    }
}

/// A stripped JPEG is detected as a JPEG again.
pub proof fn lemma_jpeg_strip_redetects(d: Seq<u8>, o: StripOptions)
    requires
        spec_jpeg_strip(d, o) is Ok,
    ensures
        crate::detect::spec_detect(spec_jpeg_strip(d, o)->Ok_0) == Ok::<crate::detect::FileType, Error>(crate::detect::FileType::Jpeg),
{
    let s = spec_jpeg_strip(d, o)->Ok_0;
    lemma_jpeg_walk_starts_with_marker(d, 2, o);
    assert(s.subrange(0, 3) =~= seq![0xffu8, 0xd8, 0xff]);
}

proof fn lemma_jpeg_walk_mono(d: Seq<u8>, p: int, o1: StripOptions, o2: StripOptions)
    requires
        0 <= p,
        crate::keeps_at_most(o1, o2),
        jpeg_walk(d, p, o1) is Ok,
    ensures
        jpeg_walk(d, p, o2) is Ok,
        is_subseq(jpeg_walk(d, p, o1)->Ok_0, jpeg_walk(d, p, o2)->Ok_0),
    decreases d.len() - p,
{
    lemma_skip_fill(d, p + 1);
    let q = skip_fill(d, p + 1);
    let m = d[q];
    if is_standalone_marker(m) {
        lemma_jpeg_walk_mono(d, q + 1, o1, o2);
    } else {
        let p2 = q + 1;
        let seglen = be_value(d.subrange(p2, p2 + 2));
        let end = p + 2 + seglen;
        if m == 0xda {
            lemma_subseq_refl(d.subrange(p, d.len() as int));
        } else {
            let payload = d.subrange(p2 + 2, end);
            lemma_jpeg_walk_mono(d, end, o1, o2);
            let r1 = jpeg_walk(d, end, o1)->Ok_0;
            let r2 = jpeg_walk(d, end, o2)->Ok_0;
            let seg = d.subrange(p, end);
            if spec_keep_marked_segment(m, payload, o1) {
                lemma_subseq_prepend_both(seg, r1, r2);
            } else if spec_keep_marked_segment(m, payload, o2) {
                lemma_subseq_prepend_right(r1, seg, r2);
            }
        }
    }
}

/// Setting more keep-options keeps more: the JPEG stripped with `o1` is a subsequence of
/// the one stripped with `o2` (every segment kept under `o1` is kept under `o2`, in the
/// same order), and `o2` succeeds wherever `o1` does.
pub proof fn lemma_jpeg_strip_keeps_more(d: Seq<u8>, o1: StripOptions, o2: StripOptions)
    requires
        crate::keeps_at_most(o1, o2),
        spec_jpeg_strip(d, o1) is Ok,
    ensures
        spec_jpeg_strip(d, o2) is Ok,
        is_subseq(spec_jpeg_strip(d, o1)->Ok_0, spec_jpeg_strip(d, o2)->Ok_0),
{
    lemma_jpeg_walk_mono(d, 2, o1, o2);
    lemma_subseq_prepend_both(seq![0xffu8, 0xd8], jpeg_walk(d, 2, o1)->Ok_0, jpeg_walk(d, 2, o2)->Ok_0);
}

} // verus!
