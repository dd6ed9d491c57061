//! Reading JPEG files: the marker segments before the scan, EXIF from `APP1` (continued over
//! several segments when it does not fit in one) and the frame size from `SOFn`.
use crate::byteorder::{be_u16_at, be_value};
use crate::error::{Error, Result};
use crate::jpeg_strip::{
    is_sof, is_standalone_marker, jpeg_walk, lemma_skip_fill, skip_fill, spec_is_sof, spec_jpeg_strip,
    spec_keep_marked_segment,
};
use crate::StripOptions;
use crate::metadata::{tag, Metadata, TagModel};
use crate::tiff::{exif_spec, parse_exif_slice};
use crate::util::{copy_range, push_all, slice_len};
use crate::value::{Value, ValueModel};
use vstd::prelude::*;

verus! {

/// A marker segment: the marker byte and the payload after the length field.
pub type Segment = (u8, Seq<u8>);

/// `r` with the segments `a` in front.
pub open spec fn seg_prepend(a: Seq<Segment>, r: Result<Seq<Segment>>) -> Result<Seq<Segment>> {
    match r {
        Ok(s) => Ok(a + s),
        Err(x) => Err(x),
    }
}

/// The marker segments from offset `p` up to the Start Of Scan (or the end of the data).
/// Fill bytes before a marker are skipped and stand-alone markers carry no segment.
pub open spec fn segments_from(d: Seq<u8>, p: int) -> Result<Seq<Segment>>
    decreases d.len() - p,
{
    if p < 0 || p >= d.len() {
        Ok(seq![])
    } else if d[p] != 0xff {
        Err(Error::BadJpeg)
    } else {
        let q = skip_fill(d, p);
        proof {
            lemma_skip_fill(d, p);
        }
        if q >= d.len() {
            Ok(seq![])
        } else {
            let m = d[q];
            if is_standalone_marker(m) {
                segments_from(d, q + 1)
            } else if m == 0xda {
                Ok(seq![])
            } else if q + 3 > d.len() {
                Err(Error::Truncated)
            } else {
                let seglen = be_value(d.subrange(q + 1, q + 3));
                if seglen < 2 || q + 1 + seglen > d.len() {
                    Err(Error::BadJpeg)
                } else {
                    seg_prepend(
                        seq![(m, d.subrange(q + 3, q + 1 + seglen))],
                        segments_from(d, q + 1 + seglen),
                    )
                }
            }
        }
    }
}

/// Splits a JPEG stream (after SOI) into its marker segments, up to the Start Of Scan.
fn collect_segments_until_sos(data: &[u8]) -> (r: Result<Vec<(u8, Vec<u8>)>>)
    ensures
        match r {
            Ok(v) => segments_from(data@, 2) == Ok::<Seq<Segment>, Error>(v.deep_view()),
            Err(x) => segments_from(data@, 2) == Err::<Seq<Segment>, Error>(x),
        },
{
    let n = slice_len(data);
    let mut p: usize = 2;
    let mut out: Vec<(u8, Vec<u8>)> = Vec::new();
    assert(out.deep_view() =~= Seq::<Segment>::empty());
    assert(seg_prepend(out.deep_view(), segments_from(data@, 2)) == segments_from(data@, 2)) by {
        match segments_from(data@, 2) {
            Ok(s) => assert(out.deep_view() + s =~= s),
            Err(_) => {},
        }
    }
    while p < n
        invariant
            n == data@.len() <= isize::MAX,
            2 <= p,
            segments_from(data@, 2) == seg_prepend(out.deep_view(), segments_from(data@, p as int)),
        decreases n - p,
    {
        if data[p] != 0xff {
            return Err(Error::BadJpeg);
        }
        let ghost p0 = p as int;
        proof {
            lemma_skip_fill(data@, p0);
        }
        while p < n && data[p] == 0xff
            invariant
                p0 <= p <= n,
                n == data@.len(),
                skip_fill(data@, p as int) == skip_fill(data@, p0),
            decreases n - p,
        {
            p += 1;
        }
        if p >= n {
            assert(out.deep_view() + Seq::<Segment>::empty() =~= out.deep_view());
            return Ok(out);
        }
        let m = data[p];
        p += 1;
        if m == 0xd8 || m == 0xd9 || (0xd0 <= m && m <= 0xd7) || m == 0x01 {
            continue;
        }
        if m == 0xda {
            assert(out.deep_view() + Seq::<Segment>::empty() =~= out.deep_view());
            return Ok(out);
        }
        if p + 2 > n {
            return Err(Error::Truncated);
        }
        let seglen = be_u16_at(data, p) as usize;
        p += 2;
        if seglen < 2 || p + seglen - 2 > n {
            return Err(Error::BadJpeg);
        }
        let payload = copy_range(data, p, p + seglen - 2);
        assert(payload.deep_view() =~= payload@);
        let ghost old_dv = out.deep_view();
        out.push((m, payload));
        proof {
            assert(out.deep_view() =~= old_dv + seq![(m, data@.subrange(p as int, p + seglen - 2))]);
            match segments_from(data@, (p + seglen - 2) as int) {
                Ok(s) => assert(old_dv + (seq![(m, data@.subrange(p as int, p + seglen - 2))] + s)
                    =~= out.deep_view() + s),
                Err(_) => {},
            }
        }
        p = p + seglen - 2;
    }
    assert(out.deep_view() + Seq::<Segment>::empty() =~= out.deep_view());
    Ok(out)
}

/// The frame size in a `SOFn` payload: width, height, bits per sample, components.
pub open spec fn sof_fields(p: Seq<u8>) -> Option<(u32, u32, u8, u8)> {
    if p.len() < 6 {
        None
    } else {
        Some(
            (
                be_value(p.subrange(3, 5)) as u32,
                be_value(p.subrange(1, 3)) as u32,
                p[0],
                p[5],
            ),
        )
    }
}

fn parse_sof(payload: &[u8]) -> (r: Option<(u32, u32, u8, u8)>)
    ensures
        r == sof_fields(payload@),
{
    if slice_len(payload) < 6 {
        return None;
    }
    let bps = payload[0];
    let h = be_u16_at(payload, 1) as u32;
    let w = be_u16_at(payload, 3) as u32;
    let comps = payload[5];
    Some((w, h, bps, comps))
}

/// `p` holds the EXIF header `Exif\0\0` at `i`.
pub open spec fn hdr_at(p: Seq<u8>, i: int) -> bool {
    &&& p[i] == 0x45
    &&& p[i + 1] == 0x78
    &&& p[i + 2] == 0x69
    &&& p[i + 3] == 0x66
    &&& p[i + 4] == 0
    &&& p[i + 5] == 0
}

/// The first position at or after `i` where the EXIF header starts.
pub open spec fn find_exif_hdr(p: Seq<u8>, i: int) -> Option<int>
    decreases p.len() - i,
{
    if i < 0 || i + 6 > p.len() {
        None
    } else if hdr_at(p, i) {
        Some(i)
    } else {
        find_exif_hdr(p, i + 1)
    }
}

pub proof fn lemma_find_exif_hdr(p: Seq<u8>, i: int)
    requires
        0 <= i,
    ensures
        find_exif_hdr(p, i) matches Some(j) ==> i <= j && j + 6 <= p.len() && hdr_at(p, j),
    decreases p.len() - i,
{
    if i + 6 <= p.len() && !hdr_at(p, i) {
        lemma_find_exif_hdr(p, i + 1);
    }
}

/// The length of the EXIF header and what precedes it in an `APP1` payload.
pub open spec fn spec_exif_header_len(p: Seq<u8>) -> Option<int> {
    match find_exif_hdr(p, 0) {
        Some(i) => Some(i + 6),
        None => None,
    }
}

fn exif_header_len(payload: &[u8]) -> (r: Option<usize>)
    ensures
        match spec_exif_header_len(payload@) {
            Some(h) => r == Some(h as usize),
            None => r is None,
        },
{
    let n = slice_len(payload);
    let mut i: usize = 0;
    while i + 6 <= n
        invariant
            n == payload@.len() <= isize::MAX,
            i <= n,
            find_exif_hdr(payload@, 0) == find_exif_hdr(payload@, i as int),
        decreases n - i,
    {
        if payload[i] == 0x45 && payload[i + 1] == 0x78 && payload[i + 2] == 0x69 && payload[i + 3]
            == 0x66 && payload[i + 4] == 0 && payload[i + 5] == 0 {
            return Some(i + 6);
        }
        i += 1;
    }
    None
}

/// The bytes after the EXIF header of an `APP1` payload.
pub open spec fn spec_strip_exif_payload(p: Seq<u8>) -> Result<Seq<u8>> {
    match spec_exif_header_len(p) {
        Some(h) => Ok(p.subrange(h, p.len() as int)),
        None => Err(Error::BadJpeg),
    }
}

fn strip_exif_payload(payload: &[u8]) -> (r: Result<Vec<u8>>)
    ensures
        match spec_strip_exif_payload(payload@) {
            Ok(s) => r is Ok && r->Ok_0@ == s,
            Err(x) => r == Err::<Vec<u8>, Error>(x),
        },
{
    proof {
        lemma_find_exif_hdr(payload@, 0);
    }
    let h = match exif_header_len(payload) {
        Some(h) => h,
        None => return Err(Error::BadJpeg),
    };
    Ok(copy_range(payload, h, slice_len(payload)))
}

/// The bytes begin a TIFF header: `II*\0` or `MM\0*`, with room for the first offset.
pub open spec fn spec_looks_like_tiff(s: Seq<u8>) -> bool {
    s.len() >= 8 && ((s[0] == 0x49 && s[1] == 0x49 && s[2] == 0x2a && s[3] == 0) || (s[0] == 0x4d
        && s[1] == 0x4d && s[2] == 0 && s[3] == 0x2a))
}

pub(crate) fn looks_like_tiff(s: &[u8]) -> (r: bool)
    ensures
        r == spec_looks_like_tiff(s@),
{
    slice_len(s) >= 8 && ((s[0] == 0x49 && s[1] == 0x49 && s[2] == 0x2a && s[3] == 0) || (s[0]
        == 0x4d && s[1] == 0x4d && s[2] == 0 && s[3] == 0x2a))
}

/// An `APP1` payload that continues the EXIF data of the segment before it: it starts with
/// the EXIF header but no TIFF header follows.
pub open spec fn spec_is_exif_continuation(p: Seq<u8>) -> bool {
    p.len() >= 6 && hdr_at(p, 0) && !spec_looks_like_tiff(p.subrange(6, p.len() as int))
}

fn is_exif_continuation(payload: &[u8]) -> (r: bool)
    ensures
        r == spec_is_exif_continuation(payload@),
{
    let n = slice_len(payload);
    if n < 6 {
        return false;
    }
    if !(payload[0] == 0x45 && payload[1] == 0x78 && payload[2] == 0x69 && payload[3] == 0x66
        && payload[4] == 0 && payload[5] == 0) {
        return false;
    }
    let after = vstd::slice::slice_subrange(payload, 6, n);
    !looks_like_tiff(after)
}

} // verus!

verus! {

/// The EXIF bytes carried by the continuation segments after segment `j`, and the index of
/// the last of them (`j` itself when none follows).
pub open spec fn exif_run(segs: Seq<Segment>, j: int) -> (Seq<u8>, int)
    decreases segs.len() - j,
{
    if 0 <= j && j + 1 < segs.len() && segs[j + 1].0 == 0xe1 && spec_is_exif_continuation(
        segs[j + 1].1,
    ) {
        let r = exif_run(segs, j + 1);
        (segs[j + 1].1.subrange(6, segs[j + 1].1.len() as int) + r.0, r.1)
    } else {
        (seq![], j)
    }
}

pub proof fn lemma_exif_run(segs: Seq<Segment>, j: int)
    requires
        0 <= j < segs.len(),
    ensures
        j <= exif_run(segs, j).1 < segs.len(),
    decreases segs.len() - j,
{
    if j + 1 < segs.len() && segs[j + 1].0 == 0xe1 && spec_is_exif_continuation(segs[j + 1].1) {
        lemma_exif_run(segs, j + 1);
    }
}

/// The tags of a `SOFn` payload.
pub open spec fn sof_tags(f: (u32, u32, u8, u8)) -> Seq<TagModel> {
    seq![
        tag("File"@, "ImageWidth"@, ValueModel::U32(f.0)),
        tag("File"@, "ImageHeight"@, ValueModel::U32(f.1)),
        tag("File"@, "BitsPerSample"@, ValueModel::U8(f.2)),
        tag("File"@, "ColorComponents"@, ValueModel::U8(f.3)),
    ]
}

/// The tags of the segments from the `i`-th on, and the outcome: an `APP1` with the EXIF
/// header is read as TIFF together with the continuation segments that follow it; a `SOFn`
/// gives the frame size.
pub open spec fn seg_tags(segs: Seq<Segment>, i: int) -> (Seq<TagModel>, Result<()>)
    decreases segs.len() - i,
{
    if i < 0 || i >= segs.len() {
        (seq![], Ok(()))
    } else {
        let m = segs[i].0;
        let p = segs[i].1;
        if m == 0xe1 && spec_exif_header_len(p) is Some {
            let run = exif_run(segs, i);
            proof {
                lemma_exif_run(segs, i);
            }
            let buf = p.subrange(spec_exif_header_len(p)->Some_0, p.len() as int) + run.0;
            let x = exif_spec(buf);
            match x.1 {
                Err(er) => (x.0, Err(er)),
                Ok(()) => {
                    let rest = seg_tags(segs, run.1 + 1);
                    (x.0 + rest.0, rest.1)
                },
            }
        } else if spec_is_sof(m) && sof_fields(p) is Some {
            let rest = seg_tags(segs, i + 1);
            (sof_tags(sof_fields(p)->Some_0) + rest.0, rest.1)
        } else {
            seg_tags(segs, i + 1)
        }
    }
}

/// The tags that reading the JPEG `d` adds, and the outcome.
pub open spec fn jpeg_spec(d: Seq<u8>) -> (Seq<TagModel>, Result<()>) {
    if d.len() < 4 || d[0] != 0xff || d[1] != 0xd8 {
        (seq![], Err(Error::BadJpeg))
    } else {
        match segments_from(d, 2) {
            Err(x) => (seq![], Err(x)),
            Ok(segs) => seg_tags(segs, 0),
        }
    }
}

/// Reads the EXIF data and the frame size of a JPEG into `meta`. Tags read before an error
/// stay in `meta`.
#[verifier::rlimit(30)]
pub fn parse(meta: &mut Metadata, data: &[u8]) -> (r: Result<()>)
    ensures
        final(meta)@ == old(meta)@ + jpeg_spec(data@).0,
        r == jpeg_spec(data@).1,
{
    let ghost meta0 = meta@;
    assert(meta0 =~= meta0 + Seq::<TagModel>::empty());
    if slice_len(data) < 4 || data[0] != 0xff || data[1] != 0xd8 {
        return Err(Error::BadJpeg);
    }
    let segs = match collect_segments_until_sos(data) {
        Ok(s) => s,
        Err(x) => return Err(x),
    };
    let ghost sv = segs.deep_view();
    let mut i: usize = 0;
    let ghost mut added: Seq<TagModel> = Seq::empty();
    assert(added + seg_tags(sv, 0).0 =~= seg_tags(sv, 0).0);
    while i < segs.len()
        invariant
            sv == segs.deep_view(),
            segments_from(data@, 2) == Ok::<Seq<Segment>, Error>(sv),
            data@.len() >= 4 && data@[0] == 0xff && data@[1] == 0xd8,
            i <= segs.len(),
            meta0 == old(meta)@,
            meta@ == meta0 + added,
            jpeg_spec(data@).0 == added + seg_tags(sv, i as int).0,
            jpeg_spec(data@).1 == seg_tags(sv, i as int).1,
        decreases segs.len() - i,
    {
        let ghost meta_i = meta@;
        let ghost added_i = added;
        let marker = segs[i].0;
        let payload = segs[i].1.as_slice();
        assert(payload@ =~= sv[i as int].1);
        if marker == 0xe1 && exif_header_len(payload).is_some() {
            proof {
                lemma_exif_run(sv, i as int);
            }
            let mut buf = match strip_exif_payload(payload) {
                Ok(b) => b,
                Err(x) => return Err(x),
            };
            let mut j = i;
            let ghost head = buf@;
            assert(head + exif_run(sv, i as int).0 =~= buf@ + exif_run(sv, j as int).0);
            while j + 1 < segs.len() && segs[j + 1].0 == 0xe1 && is_exif_continuation(
                segs[j + 1].1.as_slice(),
            )
                invariant
                    sv == segs.deep_view(),
                    i <= j < segs.len(),
                    head + exif_run(sv, i as int).0 == buf@ + exif_run(sv, j as int).0,
                    exif_run(sv, i as int).1 == exif_run(sv, j as int).1,
                decreases segs.len() - j,
            {
                j += 1;
                let next = segs[j].1.as_slice();
                assert(next@ =~= sv[j as int].1);
                let more = match strip_exif_payload(next) {
                    Ok(b) => b,
                    Err(x) => return Err(x),
                };
                assert(more@ =~= next@.subrange(6, next@.len() as int));
                let ghost before = buf@;
                push_all(&mut buf, more.as_slice());
                assert(before + (more@ + exif_run(sv, j as int).0) =~= buf@ + exif_run(sv, j as int).0);
            }
            assert(buf@ + Seq::<u8>::empty() =~= buf@);
            assert(buf@ =~= head + exif_run(sv, i as int).0);
            i = j;
            let rx = parse_exif_slice(meta, buf.as_slice());
            let ghost x = exif_spec(buf@);
            match rx {
                Ok(()) => {},
                Err(er) => {
                    assert(meta@ =~= meta0 + (added_i + x.0));
                    return Err(er);
                },
            }
            proof {
                let rest = seg_tags(sv, (j + 1) as int);
                assert(added_i + (x.0 + rest.0) =~= (added_i + x.0) + rest.0);
                added = added_i + x.0;
                assert(meta@ =~= meta0 + added);
            }
        } else if is_sof(marker) {
            if let Some((w, h, bps, comps)) = parse_sof(payload) {
                meta.push("File", "ImageWidth", Value::U32(w));
                meta.push("File", "ImageHeight", Value::U32(h));
                meta.push("File", "BitsPerSample", Value::U8(bps));
                meta.push("File", "ColorComponents", Value::U8(comps));
                proof {
                    let t = sof_tags((w, h, bps, comps));
                    let rest = seg_tags(sv, (i + 1) as int);
                    assert(meta@ =~= meta_i + t);
                    assert(added_i + (t + rest.0) =~= (added_i + t) + rest.0);
                    added = added_i + t;
                    assert(meta@ =~= meta0 + added);
                }
            }
        }
        i += 1;
    }
    assert(added + Seq::<TagModel>::empty() =~= added);
    Ok(())
}

} // verus!

verus! {

/// The walk that stripping makes from offset `p` meets no fill bytes: every marker directly
/// follows the `0xff` that starts its segment.
pub open spec fn walk_fill_free(d: Seq<u8>, p: int) -> bool
    decreases d.len() - p,
{
    if p < 0 || p + 1 >= d.len() || d[p] != 0xff {
        true
    } else if d[p + 1] == 0xff {
        false
    } else if is_standalone_marker(d[p + 1]) {
        walk_fill_free(d, p + 2)
    } else if p + 4 > d.len() {
        true
    } else {
        let seglen = be_value(d.subrange(p + 2, p + 4));
        let end = p + 2 + seglen;
        if seglen < 2 || end > d.len() || d[p + 1] == 0xda {
            true
        } else {
            walk_fill_free(d, end)
        }
    }
}

/// The segments that the options `o` keep.
pub open spec fn kept_by(o: StripOptions) -> spec_fn(Segment) -> bool {
    |g: Segment| spec_keep_marked_segment(g.0, g.1, o)
}

proof fn lemma_walk_segments(d: Seq<u8>, p: int, o: StripOptions, a: Seq<u8>)
    requires
        0 <= p,
        walk_fill_free(d, p),
        jpeg_walk(d, p, o) is Ok,
    ensures
        segments_from(d, p) matches Ok(sd) && (segments_from(a + jpeg_walk(d, p, o)->Ok_0, a.len() as int)
            == Ok::<Seq<Segment>, Error>(sd.filter(kept_by(o)))),
    decreases d.len() - p,
{
    let w = jpeg_walk(d, p, o)->Ok_0;
    let x = a + w;
    let k = a.len() as int;
    assert(d[p] == 0xff && p + 1 < d.len());
    assert(d[p + 1] != 0xff);
    assert(skip_fill(d, p + 1) == p + 1);
    assert(skip_fill(d, p) == p + 1);
    let m = d[p + 1];
    if is_standalone_marker(m) {
        lemma_walk_segments(d, p + 2, o, a);
    } else {
        let seglen = be_value(d.subrange(p + 2, p + 4));
        let end = p + 2 + seglen;
        let pl = d.subrange(p + 4, end);
        if m == 0xda || spec_keep_marked_segment(m, pl, o) {
            assert(x[k] == 0xff);
            assert(x[k + 1] == m);
            assert(skip_fill(x, k + 1) == k + 1);
            assert(skip_fill(x, k) == k + 1);
            assert(x.subrange(k + 2, k + 4) =~= d.subrange(p + 2, p + 4));
        }
        if m == 0xda {
            assert(Seq::<Segment>::empty().filter(kept_by(o)) =~= Seq::<Segment>::empty());
        } else {
            let sd2 = segments_from(d, end);
            if spec_keep_marked_segment(m, pl, o) {
                assert(x.subrange(k + 4, k + 2 + seglen) =~= pl);
                let a2 = a + d.subrange(p, end);
                lemma_walk_segments(d, end, o, a2);
                let w2 = jpeg_walk(d, end, o)->Ok_0;
                assert(x =~= a2 + w2);
                let sd = sd2->Ok_0;
                assert((seq![(m, pl)] + sd).filter(kept_by(o)) =~= seq![(m, pl)] + sd.filter(kept_by(o))) by {
                    Seq::filter_distributes_over_add(seq![(m, pl)], sd, kept_by(o));
                    reveal_with_fuel(Seq::filter, 2);
                    assert(seq![(m, pl)].drop_last() =~= Seq::<Segment>::empty());
                }
            } else {
                lemma_walk_segments(d, end, o, a);
                let sd = sd2->Ok_0;
                assert((seq![(m, pl)] + sd).filter(kept_by(o)) =~= sd.filter(kept_by(o))) by {
                    Seq::filter_distributes_over_add(seq![(m, pl)], sd, kept_by(o));
                    reveal_with_fuel(Seq::filter, 2);
                    assert(seq![(m, pl)].drop_last() =~= Seq::<Segment>::empty());
                }
            }
        }
    }
}

/// Stripping keeps exactly the marker segments that the options keep: when the walk to the
/// Start Of Scan meets no fill bytes, the segments of the stripped JPEG are those of the
/// input that `spec_keep_marked_segment` keeps, in order. So the frame header (image
/// size) stays, and without `keep_jfif` and `keep_icc` no comment or APPn segment (EXIF,
/// XMP, ICC, JFIF) is left.
pub proof fn lemma_strip_keeps_kept_segments(d: Seq<u8>, o: StripOptions)
    requires
        walk_fill_free(d, 2),
    ensures
        spec_jpeg_strip(d, o) matches Ok(s) ==> (segments_from(d, 2) matches Ok(sd) && segments_from(s, 2)
            == Ok::<Seq<Segment>, Error>(sd.filter(kept_by(o)))),
        spec_jpeg_strip(d, o) matches Ok(s) ==> (!o.keep_jfif && !o.keep_icc ==> (segments_from(s, 2) matches Ok(ss)
            && forall|i: int| 0 <= i < ss.len() ==> !(0xe0 <= #[trigger] ss[i].0 <= 0xef) && ss[i].0 != 0xfe)),
{
    if let Ok(s) = spec_jpeg_strip(d, o) {
        lemma_walk_segments(d, 2, o, seq![0xffu8, 0xd8]);
        let sd = segments_from(d, 2)->Ok_0;
        let ss = sd.filter(kept_by(o));
        assert forall|i: int| 0 <= i < ss.len() implies spec_keep_marked_segment(#[trigger] ss[i].0, ss[i].1, o) by {
            Seq::lemma_filter_pred(sd, kept_by(o), i);
        }
    }
}

} // verus!

verus! {

/// The Start Of Frame markers are `C0`..`CF` except `C4` (DHT), `C8` (JPG) and `CC` (DAC):
/// baseline, extended, progressive and lossless frames, Huffman or arithmetic coded.
pub proof fn lemma_sof_markers(m: u8)
    ensures
        spec_is_sof(m) == (0xc0 <= m <= 0xcf && m != 0xc4 && m != 0xc8 && m != 0xcc),
{
    assert(spec_is_sof(m) == (0xc0 <= m <= 0xcf && m != 0xc4 && m != 0xc8 && m != 0xcc)) by (bit_vector);
}

/// A Start Of Frame segment of any kind (baseline `C0`, progressive `C2`, ...) whose payload
/// holds the six frame-header bytes gives, first, the four `File` frame tags: the width from
/// payload bytes 3..5 and the height from bytes 1..3 (big-endian), the sample precision from
/// byte 0 and the number of components from byte 5.
pub proof fn lemma_sof_frame_tags(segs: Seq<Segment>, i: int)
    requires
        0 <= i < segs.len(),
        0xc0 <= segs[i].0 <= 0xcf,
        segs[i].0 != 0xc4 && segs[i].0 != 0xc8 && segs[i].0 != 0xcc,
        segs[i].1.len() >= 6,
    ensures
        ({
            let p = segs[i].1;
            let t = seg_tags(segs, i).0;
            &&& t.len() >= 4
            &&& t[0] == tag("File"@, "ImageWidth"@, ValueModel::U32((p[3] * 256 + p[4]) as u32))
            &&& t[1] == tag("File"@, "ImageHeight"@, ValueModel::U32((p[1] * 256 + p[2]) as u32))
            &&& t[2] == tag("File"@, "BitsPerSample"@, ValueModel::U8(p[0]))
            &&& t[3] == tag("File"@, "ColorComponents"@, ValueModel::U8(p[5]))
        }),
{
    let p = segs[i].1;
    lemma_sof_markers(segs[i].0);
    reveal_with_fuel(be_value, 3);
    assert(p.subrange(3, 5).drop_last().drop_last() =~= Seq::<u8>::empty());
    assert(p.subrange(1, 3).drop_last().drop_last() =~= Seq::<u8>::empty());
    assert(p.subrange(3, 5).drop_last() =~= seq![p[3]]);
    assert(p.subrange(1, 3).drop_last() =~= seq![p[1]]);
}

} // verus!
