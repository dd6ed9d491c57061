//! Reading ISO BMFF / QuickTime files (MOV, MP4, M4A, HEIC, ...): brands, movie header,
//! tracks, user data, item lists, HEIF image extents and embedded EXIF.
use crate::bmff::{lemma_read_box_span, read_box, spec_read_box};
use crate::byteorder::{be_u32_at, be_u64_at, be_value};
use crate::error::{Error, Result};
use crate::fourcc::{
    code, code_of, DATA, FTYP, ILST, IPCO, IPRP, ISPE, KEYS, MDHD, MDIA, META, MINF, MOOV, MVHD,
    HDLR, SOUN, STBL, STSD, STTS, TKHD, TRAK, UDTA, UUID, VIDE,
};
use crate::iso6709::{iso6709_spec, parse_iso6709};
use crate::metadata::{tag, values_named, lemma_values_named_concat, Metadata, TagModel};
use crate::qt_strip::{is_xmp, is_xmp_body};
use crate::qt_tags::{
    apple_key_spec, apple_meta_key, brand_text, brands_of, classic_udta_atom, file_mime_spec,
    ftyp_to_file_mime, ilst_atom_spec, ilst_data_atom, udta_atom_spec,
};
use crate::text::{
    from_utf8_lossy, push_signed, signed_dec, str_eq, str_from_utf8, string_of, trim_end_spec,
    trim_spec, trim_with, lossy_text, TrimSet,
};
use crate::tiff::{exif_spec, parse_exif_slice};
use crate::util::slice_len;
use crate::value::{Value, ValueModel};
use vstd::prelude::*;
use vstd::utf8::{decode_utf8, valid_utf8};

verus! {

/// Tags found, and the outcome.
pub type Outcome = (Seq<TagModel>, Result<()>);

/// The boxes of `d` from offset `p` on, each handed to `f` with its type bytes and payload;
/// the tags `f` gives, in order. The walk ends quietly where no further header fits or a box
/// runs past the end, and stops with the error of a malformed header or of `f`.
pub open spec fn fold_boxes(d: Seq<u8>, p: int, f: spec_fn(Seq<u8>, Seq<u8>) -> Outcome) -> Outcome
    decreases d.len() - p,
{
    if p < 0 || p >= d.len() {
        (seq![], Ok(()))
    } else {
        match spec_read_box(d, p) {
            Ok(None) => (seq![], Ok(())),
            Err(Error::Truncated) => (seq![], Ok(())),
            Err(x) => (seq![], Err(x)),
            Ok(Some((end, bs, k))) => {
                proof {
                    lemma_read_box_span(d, p);
                }
                let c = f(k, d.subrange(bs, end));
                match c.1 {
                    Err(x) => (c.0, Err(x)),
                    Ok(()) => {
                        let r = fold_boxes(d, end, f);
                        (c.0 + r.0, r.1)
                    },
                }
            },
        }
    }
}

/// The boxes of `d` from offset `p` on, each updating the state `s` through `f`; ends as
/// `fold_boxes` does.
pub open spec fn scan_boxes<S>(d: Seq<u8>, p: int, s: S, f: spec_fn(Seq<u8>, Seq<u8>, S) -> Result<S>) -> Result<S>
    decreases d.len() - p,
{
    if p < 0 || p >= d.len() {
        Ok(s)
    } else {
        match spec_read_box(d, p) {
            Ok(None) => Ok(s),
            Err(Error::Truncated) => Ok(s),
            Err(x) => Err(x),
            Ok(Some((end, bs, k))) => {
                proof {
                    lemma_read_box_span(d, p);
                }
                match f(k, d.subrange(bs, end), s) {
                    Err(x) => Err(x),
                    Ok(s2) => scan_boxes(d, end, s2, f),
                }
            },
        }
    }
}

/// The children of a `meta` full box: what follows its version and flags.
pub open spec fn meta_children_spec(body: Seq<u8>) -> Seq<u8> {
    if body.len() < 4 {
        seq![]
    } else {
        body.subrange(4, body.len() as int)
    }
}

/// `meta` full box: first 4 bytes are version+flags, then child boxes.
fn meta_children(body: &[u8]) -> (r: &[u8])
    ensures
        r@ == meta_children_spec(body@),
{
    let n = slice_len(body);
    if n < 4 {
        let e: &[u8] = &[];
        assert(e@ =~= Seq::<u8>::empty());
        return e;
    }
    vstd::slice::slice_subrange(body, 4, n)
}

/// A four-character code as text: decoded lossily, trimmed, trailing NULs removed.
fn fourcc_str(f: &[u8; 4]) -> (r: String)
    ensures
        r@ == brand_text(f@),
{
    let s = from_utf8_lossy(f.as_slice());
    let t = trim_with(s.as_str(), TrimSet::Whitespace, true, true);
    trim_with(t.as_str(), TrimSet::Nul, false, true)
}

/// The keys of a `keys` box from offset `p` on, at most `k` of them: a length byte, then the
/// key (decoded lossily, trailing NULs removed).
pub open spec fn keys_from(b: Seq<u8>, p: int, k: nat) -> Seq<Seq<char>>
    decreases k,
{
    if k == 0 || p < 0 || p >= b.len() {
        seq![]
    } else {
        let klen = b[p] as int;
        if p + 1 + klen > b.len() {
            seq![]
        } else {
            seq![trim_end_spec(lossy_text(b.subrange(p + 1, p + 1 + klen)), TrimSet::Nul)]
                + keys_from(b, p + 1 + klen, (k - 1) as nat)
        }
    }
}

/// The keys of a `keys` box: an entry count at offset 4, then the entries from offset 8.
pub open spec fn keys_spec(b: Seq<u8>) -> Seq<Seq<char>> {
    if b.len() < 8 {
        seq![]
    } else {
        keys_from(b, 8, be_value(b.subrange(4, 8)))
    }
}

fn parse_keys_box(body: &[u8]) -> (r: Vec<String>)
    ensures
        r.deep_view() == keys_spec(body@),
{
    let n = slice_len(body);
    let mut out: Vec<String> = Vec::new();
    if n < 8 {
        assert(out.deep_view() =~= Seq::<Seq<char>>::empty());
        return out;
    }
    let count = be_u32_at(body, 4);
    let mut p: usize = 8;
    let mut i: u32 = 0;
    assert(out.deep_view() + keys_from(body@, 8, count as nat) =~= keys_from(body@, 8, count as nat));
    while i < count
        invariant
            n == body@.len() <= isize::MAX,
            i <= count,
            count == be_value(body@.subrange(4, 8)),
            out.deep_view() + keys_from(body@, p as int, (count - i) as nat) == keys_spec(body@),
        decreases count - i,
    {
        if p >= n {
            assert(out.deep_view() + Seq::<Seq<char>>::empty() =~= out.deep_view());
            return out;
        }
        let klen = body[p] as usize;
        p += 1;
        if klen > n - p {
            assert(out.deep_view() + Seq::<Seq<char>>::empty() =~= out.deep_view());
            return out;
        }
        let s = from_utf8_lossy(vstd::slice::slice_subrange(body, p, p + klen));
        let key = trim_with(s.as_str(), TrimSet::Nul, false, true);
        let ghost before = out.deep_view();
        let ghost kv = key@;
        out.push(key);
        assert(out.deep_view() =~= before.push(kv));
        assert(before + (seq![kv] + keys_from(body@, (p + klen) as int, (count - i - 1) as nat))
            =~= out.deep_view() + keys_from(body@, (p + klen) as int, (count - i - 1) as nat));
        p += klen;
        i += 1;
    }
    assert(out.deep_view() + Seq::<Seq<char>>::empty() =~= out.deep_view());
    out
}

/// The value of a `data` box payload: type byte at offset 8, value from offset 12. Text
/// types (1-3 and unknown ones) are read lossily and trimmed; type 21 is a big-endian
/// signed integer, 23 and 24 big-endian floats (as their bits), when long enough. A payload
/// of 9 to 11 bytes carries an empty value.
pub open spec fn data_value(body: Seq<u8>) -> ValueModel {
    let typ = body[8];
    let payload = if body.len() >= 12 {
        body.subrange(12, body.len() as int)
    } else {
        seq![]
    };
    if typ == 21 && payload.len() >= 4 {
        ValueModel::Utf8(signed_dec((be_value(payload.subrange(0, 4)) as u32) as i32 as int))
    } else if typ == 23 && payload.len() >= 4 {
        ValueModel::F32Text(be_value(payload.subrange(0, 4)) as u32)
    } else if typ == 24 && payload.len() >= 8 {
        ValueModel::F64Text(be_value(payload.subrange(0, 8)) as u64)
    } else {
        ValueModel::Utf8(trim_spec(lossy_text(payload), TrimSet::Whitespace))
    }
}

/// The value of the first `data` box (payload longer than 8 bytes) among the boxes of `b`
/// from offset `p` on; none when a header does not fit or is malformed first.
pub open spec fn ilst_value_from(b: Seq<u8>, p: int) -> Option<ValueModel>
    decreases b.len() - p,
{
    if p < 0 || p >= b.len() {
        None
    } else {
        match spec_read_box(b, p) {
            Ok(Some((end, bs, k))) => {
                proof {
                    lemma_read_box_span(b, p);
                }
                if code_of(k) == DATA && end - bs > 8 {
                    Some(data_value(b.subrange(bs, end)))
                } else {
                    ilst_value_from(b, end)
                }
            },
            _ => None,
        }
    }
}

fn data_box_value(body: &[u8]) -> (r: Value)
    requires
        body@.len() > 8,
    ensures
        r@ == data_value(body@),
{
    let n = slice_len(body);
    let typ = body[8];
    let payload: &[u8] = if n >= 12 {
        vstd::slice::slice_subrange(body, 12, n)
    } else {
        let e: &[u8] = &[];
        assert(e@ =~= Seq::<u8>::empty());
        e
    };
    let pn = slice_len(payload);
    if typ == 21 && pn >= 4 {
        let v = be_u32_at(payload, 0) as i32;
        let mut s = String::new();
        push_signed(&mut s, v as i64);
        assert(s@ =~= signed_dec(v as int));
        Value::Utf8(s)
    } else if typ == 23 && pn >= 4 {
        Value::F32Text(be_u32_at(payload, 0))
    } else if typ == 24 && pn >= 8 {
        Value::F64Text(be_u64_at(payload, 0))
    } else {
        let s = from_utf8_lossy(payload);
        Value::Utf8(trim_with(s.as_str(), TrimSet::Whitespace, true, true))
    }
}

/// The value of an item-list entry: that of its first `data` box.
fn extract_ilst_data_value(b: &[u8]) -> (r: Option<Value>)
    ensures
        match ilst_value_from(b@, 0) {
            Some(v) => r matches Some(x) && x@ == v,
            None => r is None,
        },
{
    let n = slice_len(b);
    let mut p: usize = 0;
    while p < n
        invariant
            n == b@.len() <= isize::MAX,
            p <= n,
            ilst_value_from(b@, 0) == ilst_value_from(b@, p as int),
        decreases n - p,
    {
        let (end, bx) = match read_box(b, p) {
            Ok(Some(x)) => x,
            _ => return None,
        };
        proof {
            lemma_read_box_span(b@, p as int);
        }
        if code(&bx.kind) == DATA && slice_len(bx.body) > 8 {
            return Some(data_box_value(bx.body));
        }
        p = end;
    }
    None
}

/// The tags for value `v` of tag `name` in group `g`: a text `GPSCoordinates` that reads as
/// an ISO 6709 point becomes the point and its latitude, longitude and altitude.
pub open spec fn gps_or_string(g: Seq<char>, name: Seq<char>, v: ValueModel) -> Seq<TagModel> {
    match v {
        ValueModel::Utf8(s) => if name == "GPSCoordinates"@ && iso6709_spec(s) is Some {
            let (la, lo, alt) = iso6709_spec(s)->Some_0;
            seq![
                tag("QuickTime"@, "GPSCoordinates"@, ValueModel::Coordinates(la, lo)),
                tag("QuickTime"@, "GPSLatitude"@, ValueModel::Decimal(la)),
                tag("QuickTime"@, "GPSLongitude"@, ValueModel::Decimal(lo)),
            ] + match alt {
                Some(a) => seq![tag("QuickTime"@, "GPSAltitude"@, ValueModel::Decimal(a))],
                None => seq![],
            }
        } else {
            seq![tag(g, name, v)]
        },
        _ => seq![tag(g, name, v)],
    }
}

fn push_gps_or_string(meta: &mut Metadata, g: &str, name: &str, v: Value)
    ensures
        final(meta)@ == old(meta)@ + gps_or_string(g@, name@, v@),
{
    let ghost meta0 = meta@;
    let ghost vm = v@;
    if let Value::Utf8(s) = &v {
        if str_eq(name, "GPSCoordinates") {
            if let Some((la, lo, alt)) = parse_iso6709(s.as_str()) {
                let la2 = string_of(la.as_str());
                let lo2 = string_of(lo.as_str());
                meta.push("QuickTime", "GPSCoordinates", Value::Coordinates(la, lo));
                meta.push("QuickTime", "GPSLatitude", Value::Decimal(la2));
                meta.push("QuickTime", "GPSLongitude", Value::Decimal(lo2));
                if let Some(a) = alt {
                    meta.push("QuickTime", "GPSAltitude", Value::Decimal(a));
                }
                assert(meta@ =~= meta0 + gps_or_string(g@, name@, vm));
                return;
            }
        }
    }
    meta.push(g, name, v);
    assert(meta@ =~= meta0 + gps_or_string(g@, name@, vm));
}

} // verus!

verus! {

/// An iTunes item-list entry: a known item type gives a tag from its `data` value.
pub open spec fn itunes_step() -> spec_fn(Seq<u8>, Seq<u8>) -> Outcome {
    |k: Seq<u8>, b: Seq<u8>|
        match ilst_atom_spec(code_of(k)) {
            Some((g, n)) => match ilst_value_from(b, 0) {
                Some(v) => (gps_or_string(g@, n@, v), Ok(())),
                None => (seq![], Ok(())),
            },
            None => (seq![], Ok(())),
        }
}

/// An item-list entry indexed into `keys` (type code 1 is the first key): a known Apple key
/// gives a tag from its `data` value.
pub open spec fn indexed_step(keys: Seq<Seq<char>>) -> spec_fn(Seq<u8>, Seq<u8>) -> Outcome {
    |k: Seq<u8>, b: Seq<u8>|
        if 0 < code_of(k) && code_of(k) <= keys.len() {
            match apple_key_spec(keys[code_of(k) - 1]) {
                Some((g, n)) => match ilst_value_from(b, 0) {
                    Some(v) => (gps_or_string(g@, n@, v), Ok(())),
                    None => (seq![], Ok(())),
                },
                None => (seq![], Ok(())),
            }
        } else {
            (seq![], Ok(()))
        }
}

/// A `keys` box replaces the keys found so far.
pub open spec fn keys_step() -> spec_fn(Seq<u8>, Seq<u8>, Seq<Seq<char>>) -> Result<Seq<Seq<char>>> {
    |k: Seq<u8>, b: Seq<u8>, s: Seq<Seq<char>>|
        if code_of(k) == KEYS {
            Ok(keys_spec(b))
        } else {
            Ok(s)
        }
}

/// An `ilst` box, read by `keys` when there are keys, else as an iTunes list.
pub open spec fn ilst_step(keys: Seq<Seq<char>>) -> spec_fn(Seq<u8>, Seq<u8>) -> Outcome {
    |k: Seq<u8>, b: Seq<u8>|
        if code_of(k) == ILST {
            if keys.len() == 0 {
                fold_boxes(b, 0, itunes_step())
            } else {
                fold_boxes(b, 0, indexed_step(keys))
            }
        } else {
            (seq![], Ok(()))
        }
}

/// The tags of the children of a `meta` box: the last `keys` box gives the keys, then each
/// `ilst` box is read.
pub open spec fn meta_ilst_spec(inner: Seq<u8>) -> Outcome {
    match scan_boxes(inner, 0, Seq::<Seq<char>>::empty(), keys_step()) {
        Err(x) => (seq![], Err(x)),
        Ok(keys) => fold_boxes(inner, 0, ilst_step(keys)),
    }
}

/// The text of a classic `udta` string atom: after a two-byte language code (or a four-byte
/// header starting with two zero bytes), decoded lossily and trimmed of white space and NULs.
pub open spec fn udta_text(b: Seq<u8>) -> Seq<char> {
    if b.len() < 2 {
        trim_spec(lossy_text(b), TrimSet::Whitespace)
    } else {
        let s = if b.len() > 4 && b[0] == 0 && b[1] == 0 {
            lossy_text(b.subrange(4, b.len() as int))
        } else {
            lossy_text(b.subrange(2, b.len() as int))
        };
        trim_spec(trim_spec(s, TrimSet::Whitespace), TrimSet::Nul)
    }
}

/// A child of `udta`: a `meta` box with item lists, or a classic string atom.
pub open spec fn udta_step() -> spec_fn(Seq<u8>, Seq<u8>) -> Outcome {
    |k: Seq<u8>, b: Seq<u8>|
        if code_of(k) == META {
            meta_ilst_spec(meta_children_spec(b))
        } else {
            match udta_atom_spec(code_of(k)) {
                Some((g, n)) => (gps_or_string(g@, n@, ValueModel::Utf8(udta_text(b))), Ok(())),
                None => (seq![], Ok(())),
            }
        }
}

fn udta_string_lossy(b: &[u8]) -> (r: Result<String>)
    ensures
        r matches Ok(s) && s@ == udta_text(b@),
{
    let n = slice_len(b);
    if n < 2 {
        let s = from_utf8_lossy(b);
        return Ok(trim_with(s.as_str(), TrimSet::Whitespace, true, true));
    }
    let s = if n > 4 && b[0] == 0 && b[1] == 0 {
        from_utf8_lossy(vstd::slice::slice_subrange(b, 4, n))
    } else {
        from_utf8_lossy(vstd::slice::slice_subrange(b, 2, n))
    };
    let t = trim_with(s.as_str(), TrimSet::Whitespace, true, true);
    Ok(trim_with(t.as_str(), TrimSet::Nul, true, true))
}

fn parse_ilst_itunes(meta: &mut Metadata, ilst_body: &[u8]) -> (r: Result<()>)
    ensures
        final(meta)@ == old(meta)@ + fold_boxes(ilst_body@, 0, itunes_step()).0,
        r == fold_boxes(ilst_body@, 0, itunes_step()).1,
{
    let ghost meta0 = meta@;
    let ghost f = itunes_step();
    let n = slice_len(ilst_body);
    let mut p: usize = 0;
    let ghost mut added: Seq<TagModel> = Seq::empty();
    assert(added + fold_boxes(ilst_body@, 0, f).0 =~= fold_boxes(ilst_body@, 0, f).0);
    while p < n
        invariant
            n == ilst_body@.len() <= isize::MAX,
            p <= n,
            f == itunes_step(),
            meta0 == old(meta)@,
            meta@ == meta0 + added,
            fold_boxes(ilst_body@, 0, f).0 == added + fold_boxes(ilst_body@, p as int, f).0,
            fold_boxes(ilst_body@, 0, f).1 == fold_boxes(ilst_body@, p as int, f).1,
        decreases n - p,
    {
        assert(added + Seq::<TagModel>::empty() =~= added);
        let (end, bx) = match read_box(ilst_body, p) {
            Ok(Some(x)) => x,
            Ok(None) => return Ok(()),
            Err(Error::Truncated) => return Ok(()),
            Err(e) => return Err(e),
        };
        proof {
            lemma_read_box_span(ilst_body@, p as int);
        }
        let ghost meta_p = meta@;
        let ghost c = f(bx.kind@, bx.body@);
        if let Some((g, name)) = ilst_data_atom(&bx.kind) {
            if let Some(v) = extract_ilst_data_value(bx.body) {
                push_gps_or_string(meta, g, name, v);
            } else {
                assert(meta@ =~= meta_p + Seq::<TagModel>::empty());
            }
        } else {
            assert(meta@ =~= meta_p + Seq::<TagModel>::empty());
        }
        assert(meta@ == meta_p + c.0);
        proof {
            let rest = fold_boxes(ilst_body@, end as int, f);
            assert(added + (c.0 + rest.0) =~= (added + c.0) + rest.0);
            added = added + c.0;
        }
        p = end;
    }
    assert(added + Seq::<TagModel>::empty() =~= added);
    Ok(())
}

fn parse_apple_ilst_indexed(meta: &mut Metadata, ilst_body: &[u8], keys: &Vec<String>) -> (r: Result<()>)
    ensures
        final(meta)@ == old(meta)@ + fold_boxes(ilst_body@, 0, indexed_step(keys.deep_view())).0,
        r == fold_boxes(ilst_body@, 0, indexed_step(keys.deep_view())).1,
{
    let ghost meta0 = meta@;
    let ghost f = indexed_step(keys.deep_view());
    let n = slice_len(ilst_body);
    let mut p: usize = 0;
    let ghost mut added: Seq<TagModel> = Seq::empty();
    assert(added + fold_boxes(ilst_body@, 0, f).0 =~= fold_boxes(ilst_body@, 0, f).0);
    while p < n
        invariant
            n == ilst_body@.len() <= isize::MAX,
            p <= n,
            f == indexed_step(keys.deep_view()),
            meta0 == old(meta)@,
            meta@ == meta0 + added,
            fold_boxes(ilst_body@, 0, f).0 == added + fold_boxes(ilst_body@, p as int, f).0,
            fold_boxes(ilst_body@, 0, f).1 == fold_boxes(ilst_body@, p as int, f).1,
        decreases n - p,
    {
        assert(added + Seq::<TagModel>::empty() =~= added);
        let (end, bx) = match read_box(ilst_body, p) {
            Ok(Some(x)) => x,
            Ok(None) => return Ok(()),
            Err(Error::Truncated) => return Ok(()),
            Err(e) => return Err(e),
        };
        proof {
            lemma_read_box_span(ilst_body@, p as int);
        }
        let ghost meta_p = meta@;
        let ghost c = f(bx.kind@, bx.body@);
        let idx = code(&bx.kind) as usize;
        if idx > 0 && idx <= keys.len() {
            let key = keys[idx - 1].as_str();
            assert(key@ == keys.deep_view()[idx - 1]);
            if let Some((g, name)) = apple_meta_key(key) {
                if let Some(v) = extract_ilst_data_value(bx.body) {
                    push_gps_or_string(meta, g, name, v);
                } else {
                    assert(meta@ =~= meta_p + Seq::<TagModel>::empty());
                }
            } else {
                assert(meta@ =~= meta_p + Seq::<TagModel>::empty());
            }
        } else {
            assert(meta@ =~= meta_p + Seq::<TagModel>::empty());
        }
        assert(meta@ == meta_p + c.0);
        proof {
            let rest = fold_boxes(ilst_body@, end as int, f);
            assert(added + (c.0 + rest.0) =~= (added + c.0) + rest.0);
            added = added + c.0;
        }
        p = end;
    }
    assert(added + Seq::<TagModel>::empty() =~= added);
    Ok(())
}

/// The keys of the last `keys` box among the boxes of `inner`.
fn scan_keys(inner: &[u8]) -> (r: Result<Vec<String>>)
    ensures
        match scan_boxes(inner@, 0, Seq::<Seq<char>>::empty(), keys_step()) {
            Ok(ks) => r matches Ok(v) && v.deep_view() == ks,
            Err(x) => r matches Err(y) && y == x,
        },
{
    let ghost f = keys_step();
    let n = slice_len(inner);
    let mut p: usize = 0;
    let mut keys: Vec<String> = Vec::new();
    assert(keys.deep_view() =~= Seq::<Seq<char>>::empty());
    while p < n
        invariant
            n == inner@.len() <= isize::MAX,
            p <= n,
            f == keys_step(),
            scan_boxes(inner@, 0, Seq::<Seq<char>>::empty(), f) == scan_boxes(inner@, p as int, keys.deep_view(), f),
        decreases n - p,
    {
        let (end, bx) = match read_box(inner, p) {
            Ok(Some(x)) => x,
            Ok(None) => return Ok(keys),
            Err(Error::Truncated) => return Ok(keys),
            Err(e) => return Err(e),
        };
        proof {
            lemma_read_box_span(inner@, p as int);
        }
        if code(&bx.kind) == KEYS {
            keys = parse_keys_box(bx.body);
        }
        p = end;
    }
    Ok(keys)
}

/// Reads the item lists among the children `inner` of a `meta` box.
fn parse_moov_meta(meta: &mut Metadata, inner: &[u8]) -> (r: Result<()>)
    ensures
        final(meta)@ == old(meta)@ + meta_ilst_spec(inner@).0,
        r == meta_ilst_spec(inner@).1,
{
    let ghost meta0 = meta@;
    let keys = match scan_keys(inner) {
        Ok(k) => k,
        Err(x) => {
            assert(meta@ =~= meta0 + Seq::<TagModel>::empty());
            return Err(x);
        },
    };
    let ghost f = ilst_step(keys.deep_view());
    assert(meta_ilst_spec(inner@) == fold_boxes(inner@, 0, f));
    let n = slice_len(inner);
    let mut p: usize = 0;
    let ghost mut added: Seq<TagModel> = Seq::empty();
    assert(added + fold_boxes(inner@, 0, f).0 =~= fold_boxes(inner@, 0, f).0);
    while p < n
        invariant
            n == inner@.len() <= isize::MAX,
            p <= n,
            f == ilst_step(keys.deep_view()),
            meta_ilst_spec(inner@) == fold_boxes(inner@, 0, f),
            meta0 == old(meta)@,
            meta@ == meta0 + added,
            fold_boxes(inner@, 0, f).0 == added + fold_boxes(inner@, p as int, f).0,
            fold_boxes(inner@, 0, f).1 == fold_boxes(inner@, p as int, f).1,
        decreases n - p,
    {
        assert(added + Seq::<TagModel>::empty() =~= added);
        let (end, bx) = match read_box(inner, p) {
            Ok(Some(x)) => x,
            Ok(None) => return Ok(()),
            Err(Error::Truncated) => return Ok(()),
            Err(e) => return Err(e),
        };
        proof {
            lemma_read_box_span(inner@, p as int);
        }
        let ghost meta_p = meta@;
        let ghost c = f(bx.kind@, bx.body@);
        if code(&bx.kind) == ILST {
            let rc = if keys.len() == 0 {
                parse_ilst_itunes(meta, bx.body)
            } else {
                parse_apple_ilst_indexed(meta, bx.body, &keys)
            };
            assert(meta@ == meta_p + c.0);
            if let Err(x) = rc {
                assert(meta@ =~= meta0 + (added + c.0));
                return Err(x);
            }
        } else {
            assert(meta@ =~= meta_p + Seq::<TagModel>::empty());
        }
        proof {
            let rest = fold_boxes(inner@, end as int, f);
            assert(added + (c.0 + rest.0) =~= (added + c.0) + rest.0);
            added = added + c.0;
        }
        p = end;
    }
    assert(added + Seq::<TagModel>::empty() =~= added);
    Ok(())
}

fn parse_udta(meta: &mut Metadata, body: &[u8]) -> (r: Result<()>)
    ensures
        final(meta)@ == old(meta)@ + fold_boxes(body@, 0, udta_step()).0,
        r == fold_boxes(body@, 0, udta_step()).1,
{
    let ghost meta0 = meta@;
    let ghost f = udta_step();
    let n = slice_len(body);
    let mut p: usize = 0;
    let ghost mut added: Seq<TagModel> = Seq::empty();
    assert(added + fold_boxes(body@, 0, f).0 =~= fold_boxes(body@, 0, f).0);
    while p < n
        invariant
            n == body@.len() <= isize::MAX,
            p <= n,
            f == udta_step(),
            meta0 == old(meta)@,
            meta@ == meta0 + added,
            fold_boxes(body@, 0, f).0 == added + fold_boxes(body@, p as int, f).0,
            fold_boxes(body@, 0, f).1 == fold_boxes(body@, p as int, f).1,
        decreases n - p,
    {
        assert(added + Seq::<TagModel>::empty() =~= added);
        let (end, bx) = match read_box(body, p) {
            Ok(Some(x)) => x,
            Ok(None) => return Ok(()),
            Err(Error::Truncated) => return Ok(()),
            Err(e) => return Err(e),
        };
        proof {
            lemma_read_box_span(body@, p as int);
        }
        let ghost meta_p = meta@;
        let ghost c = f(bx.kind@, bx.body@);
        if code(&bx.kind) == META {
            let rc = parse_moov_meta(meta, meta_children(bx.body));
            if let Err(x) = rc {
                assert(meta@ =~= meta0 + (added + c.0));
                return Err(x);
            }
        } else if let Some((g, name)) = classic_udta_atom(&bx.kind) {
            let s = match udta_string_lossy(bx.body) {
                Ok(s) => s,
                Err(x) => return Err(x),
            };
            push_gps_or_string(meta, g, name, Value::Utf8(s));
        } else {
            assert(meta@ =~= meta_p + Seq::<TagModel>::empty());
        }
        assert(meta@ == meta_p + c.0);
        proof {
            let rest = fold_boxes(body@, end as int, f);
            assert(added + (c.0 + rest.0) =~= (added + c.0) + rest.0);
            added = added + c.0;
        }
        p = end;
    }
    assert(added + Seq::<TagModel>::empty() =~= added);
    Ok(())
}

} // verus!

verus! {

/// The image extent tags of an `ispe` payload: width and height at offsets 4 and 8, when
/// both are non-zero.
pub open spec fn ispe_dims(b: Seq<u8>) -> Seq<TagModel> {
    if b.len() >= 12 {
        let w = be_value(b.subrange(4, 8)) as u32;
        let h = be_value(b.subrange(8, 12)) as u32;
        if w > 0 && h > 0 {
            seq![
                tag("File"@, "ImageWidth"@, ValueModel::U32(w)),
                tag("File"@, "ImageHeight"@, ValueModel::U32(h)),
            ]
        } else {
            seq![]
        }
    } else {
        seq![]
    }
}

/// The image extents found in the boxes of `buf` from `p` on, looking inside `iprp` and
/// `ipco` boxes.
pub open spec fn ispe_tags(buf: Seq<u8>, p: int) -> Outcome
    decreases buf.len(), buf.len() - p,
{
    if p < 0 || p >= buf.len() {
        (seq![], Ok(()))
    } else {
        match spec_read_box(buf, p) {
            Ok(None) => (seq![], Ok(())),
            Err(Error::Truncated) => (seq![], Ok(())),
            Err(x) => (seq![], Err(x)),
            Ok(Some((end, bs, k))) => {
                proof {
                    lemma_read_box_span(buf, p);
                }
                let b = buf.subrange(bs, end);
                let c: Outcome = if code_of(k) == ISPE {
                    (ispe_dims(b), Ok(()))
                } else if code_of(k) == IPRP || code_of(k) == IPCO {
                    ispe_tags(b, 0)
                } else {
                    (seq![], Ok(()))
                };
                match c.1 {
                    Err(x) => (c.0, Err(x)),
                    Ok(()) => {
                        let r = ispe_tags(buf, end);
                        (c.0 + r.0, r.1)
                    },
                }
            },
        }
    }
}

/// Find `ispe` (HEIF spatial extent) anywhere under a `meta` tree.
fn walk_ispe_for_dims(meta: &mut Metadata, buf: &[u8]) -> (r: Result<()>)
    ensures
        final(meta)@ == old(meta)@ + ispe_tags(buf@, 0).0,
        r == ispe_tags(buf@, 0).1,
    decreases buf@.len(),
{
    let ghost meta0 = meta@;
    let n = slice_len(buf);
    let mut p: usize = 0;
    let ghost mut added: Seq<TagModel> = Seq::empty();
    assert(added + ispe_tags(buf@, 0).0 =~= ispe_tags(buf@, 0).0);
    while p < n
        invariant
            n == buf@.len() <= isize::MAX,
            p <= n,
            meta0 == old(meta)@,
            meta@ == meta0 + added,
            ispe_tags(buf@, 0).0 == added + ispe_tags(buf@, p as int).0,
            ispe_tags(buf@, 0).1 == ispe_tags(buf@, p as int).1,
        decreases n - p,
    {
        assert(added + Seq::<TagModel>::empty() =~= added);
        let (end, bx) = match read_box(buf, p) {
            Ok(Some(x)) => x,
            Ok(None) => return Ok(()),
            Err(Error::Truncated) => return Ok(()),
            Err(e) => return Err(e),
        };
        proof {
            lemma_read_box_span(buf@, p as int);
        }
        let ghost meta_p = meta@;
        let c = code(&bx.kind);
        let b = bx.body;
        if c == ISPE {
            if slice_len(b) >= 12 {
                let w = be_u32_at(b, 4);
                let h = be_u32_at(b, 8);
                if w > 0 && h > 0 {
                    meta.push("File", "ImageWidth", Value::U32(w));
                    meta.push("File", "ImageHeight", Value::U32(h));
                }
            }
            assert(meta@ =~= meta_p + ispe_dims(b@));
        } else if c == IPRP || c == IPCO {
            let rc = walk_ispe_for_dims(meta, b);
            if let Err(x) = rc {
                assert(meta@ =~= meta0 + (added + ispe_tags(b@, 0).0));
                return Err(x);
            }
        } else {
            assert(meta@ =~= meta_p + Seq::<TagModel>::empty());
        }
        proof {
            let cs: Outcome = if c == ISPE {
                (ispe_dims(b@), Ok(()))
            } else if c == IPRP || c == IPCO {
                ispe_tags(b@, 0)
            } else {
                (seq![], Ok(()))
            };
            let rest = ispe_tags(buf@, end as int);
            assert(meta@ == meta_p + cs.0);
            assert(added + (cs.0 + rest.0) =~= (added + cs.0) + rest.0);
            added = added + cs.0;
        }
        p = end;
    }
    assert(added + Seq::<TagModel>::empty() =~= added);
    Ok(())
}

/// A TIFF header (`II*\0` or `MM\0*`) starts at `i`.
pub open spec fn tiff_at(f: Seq<u8>, i: int) -> bool {
    (f[i] == 0x49 && f[i + 1] == 0x49 && f[i + 2] == 0x2a && f[i + 3] == 0) || (f[i] == 0x4d
        && f[i + 1] == 0x4d && f[i + 2] == 0 && f[i + 3] == 0x2a)
}

/// The tags of the EXIF data embedded in `file`: from offset `i` on, each TIFF header (with
/// eight bytes left) is read as TIFF data running to the end of the file, until one reads
/// without error. Tags read before an error are kept.
pub open spec fn heic_scan(file: Seq<u8>, i: int) -> Seq<TagModel>
    decreases file.len() - i,
{
    if i < 0 || i + 8 > file.len() {
        seq![]
    } else if tiff_at(file, i) {
        let x = exif_spec(file.subrange(i, file.len() as int));
        if x.1 is Ok {
            x.0
        } else {
            x.0 + heic_scan(file, i + 1)
        }
    } else {
        heic_scan(file, i + 1)
    }
}

/// Scan for a TIFF/EXIF payload (some HEIC files embed EXIF in `mdat` without a matching iloc in tests).
fn heic_embedded_tiff_exif(meta: &mut Metadata, file: &[u8]) -> (r: Result<()>)
    ensures
        final(meta)@ == old(meta)@ + heic_scan(file@, 0),
        r is Ok,
{
    let ghost meta0 = meta@;
    let n = slice_len(file);
    if n < 8 {
        assert(meta@ =~= meta0 + Seq::<TagModel>::empty());
        return Ok(());
    }
    let mut i: usize = 0;
    let ghost mut added: Seq<TagModel> = Seq::empty();
    assert(added + heic_scan(file@, 0) =~= heic_scan(file@, 0));
    while i <= n - 8
        invariant
            n == file@.len() <= isize::MAX,
            n >= 8,
            i <= n - 7,
            meta0 == old(meta)@,
            meta@ == meta0 + added,
            heic_scan(file@, 0) == added + heic_scan(file@, i as int),
        decreases n - i,
    {
        if (file[i] == 0x49 && file[i + 1] == 0x49 && file[i + 2] == 0x2a && file[i + 3] == 0) || (
        file[i] == 0x4d && file[i + 1] == 0x4d && file[i + 2] == 0 && file[i + 3] == 0x2a) {
            let ghost meta_i = meta@;
            let tail = vstd::slice::slice_subrange(file, i, n);
            let rx = parse_exif_slice(meta, tail);
            let ghost x = exif_spec(tail@);
            if rx.is_ok() {
                assert(meta@ =~= meta0 + (added + x.0));
                return Ok(());
            }
            proof {
                let rest = heic_scan(file@, i + 1);
                assert(added + (x.0 + rest) =~= (added + x.0) + rest);
                added = added + x.0;
                assert(meta@ =~= meta0 + added);
            }
        }
        i += 1;
    }
    assert(added + Seq::<TagModel>::empty() =~= added);
    Ok(())
}

/// The tags of a top-level `meta` box with children `inner`: its image extents, then the
/// EXIF data embedded in the file.
pub open spec fn top_meta_spec(file: Seq<u8>, inner: Seq<u8>) -> Outcome {
    let w = ispe_tags(inner, 0);
    match w.1 {
        Err(x) => (w.0, Err(x)),
        Ok(()) => (w.0 + heic_scan(file, 0), Ok(())),
    }
}

fn parse_top_level_meta(meta: &mut Metadata, file: &[u8], inner: &[u8]) -> (r: Result<()>)
    ensures
        final(meta)@ == old(meta)@ + top_meta_spec(file@, inner@).0,
        r == top_meta_spec(file@, inner@).1,
{
    let ghost meta0 = meta@;
    match walk_ispe_for_dims(meta, inner) {
        Ok(()) => {},
        Err(x) => return Err(x),
    }
    let ghost meta1 = meta@;
    let _ = heic_embedded_tiff_exif(meta, file);
    assert(meta@ =~= meta0 + (ispe_tags(inner@, 0).0 + heic_scan(file@, 0)));
    Ok(())
}

} // verus!

verus! {

/// Seconds from the Mac epoch (1904) to the Unix epoch (1970).
pub const MAC_EPOCH_TO_UNIX: u64 = 2_082_844_800;

/// Leap years of the Gregorian calendar.
pub open spec fn spec_is_leap_year(y: int) -> bool {
    (y % 4 == 0 && y % 100 != 0) || y % 400 == 0
}

/// Days in year `y`.
pub open spec fn spec_year_len(y: int) -> nat {
    if spec_is_leap_year(y) {
        366
    } else {
        365
    }
}

/// Days in month `m` (1-12) of year `y`.
pub open spec fn spec_days_in_month(y: int, m: nat) -> nat {
    if m == 2 {
        if spec_is_leap_year(y) {
            29
        } else {
            28
        }
    } else if m == 4 || m == 6 || m == 9 || m == 11 {
        30
    } else {
        31
    }
}

/// The year, and the day within it (from 0), of the day `rem` days after January 1 of `y`.
pub open spec fn year_and_day(rem: nat, y: int) -> (int, nat)
    decreases rem,
{
    if rem < spec_year_len(y) {
        (y, rem)
    } else {
        year_and_day((rem - spec_year_len(y)) as nat, y + 1)
    }
}

/// The month (1-12), and the day within it (from 0), of day `d` counted from the first day
/// of month `m` of year `y`.
pub open spec fn month_and_day(y: int, d: nat, m: nat) -> (nat, nat)
    decreases 13 - m,
{
    if m > 12 {
        (1, d)
    } else if d < spec_days_in_month(y, m) {
        (m, d)
    } else {
        month_and_day(y, (d - spec_days_in_month(y, m)) as nat, m + 1)
    }
}

proof fn lemma_month_and_day(y: int, d: nat, m: nat)
    ensures
        month_and_day(y, d, m).1 <= d,
    decreases 13 - m,
{
    if m <= 12 && d >= spec_days_in_month(y, m) {
        lemma_month_and_day(y, (d - spec_days_in_month(y, m)) as nat, m + 1);
    }
}

/// `v` in decimal, zero-padded to `w` digits.
pub open spec fn padded(v: int, w: nat) -> Seq<char> {
    crate::text::pad_left(crate::text::dec_digits(v as nat), w, '0')
}

/// `unix` seconds as `YYYY:MM:DD HH:MM:SS` (UTC).
pub open spec fn utc_text(unix: nat) -> Seq<char> {
    let f = utc_fields(unix);
    padded(f.0, 4) + ":"@ + padded(f.1 as int, 2) + ":"@ + padded(f.2 as int, 2) + " "@ + padded(
        f.3 as int,
        2,
    ) + ":"@ + padded(f.4 as int, 2) + ":"@ + padded(f.5 as int, 2)
}

/// Year, month, day, hour, minute and second (UTC) of `unix` seconds.
pub open spec fn utc_fields(unix: nat) -> (int, nat, nat, nat, nat, nat) {
    let secs = unix % 86400;
    let (y, doy) = year_and_day(unix / 86400, 1970);
    let (m, d) = month_and_day(y, doy, 1);
    (y, m, d + 1, secs / 3600, (secs % 3600) / 60, secs % 60)
}

/// The days of year `y` from month `m` on.
pub open spec fn days_from_month(y: int, m: nat) -> nat
    decreases 13 - m,
{
    if m > 12 {
        0
    } else {
        spec_days_in_month(y, m) + days_from_month(y, m + 1)
    }
}

proof fn lemma_year_and_day(rem: nat, y: int)
    ensures
        year_and_day(rem, y).0 >= y,
        year_and_day(rem, y).1 < spec_year_len(year_and_day(rem, y).0),
    decreases rem,
{
    if rem >= spec_year_len(y) {
        lemma_year_and_day((rem - spec_year_len(y)) as nat, y + 1);
    }
}

proof fn lemma_month_in_range(y: int, d: nat, m: nat)
    requires
        1 <= m <= 12,
        d < days_from_month(y, m),
    ensures
        m <= month_and_day(y, d, m).0 <= 12,
        month_and_day(y, d, m).1 < spec_days_in_month(y, month_and_day(y, d, m).0),
    decreases 13 - m,
{
    assert(days_from_month(y, 13) == 0);
    if d >= spec_days_in_month(y, m) {
        lemma_month_in_range(y, (d - spec_days_in_month(y, m)) as nat, m + 1);
    }
}

/// Every formatted time is a valid date and time: a year from 1970 on, a month from 1 to 12,
/// a day within that month, an hour below 24 and a minute and second below 60.
pub proof fn lemma_utc_fields_valid(unix: nat)
    ensures
        utc_fields(unix).0 >= 1970,
        1 <= utc_fields(unix).1 <= 12,
        1 <= utc_fields(unix).2 <= spec_days_in_month(utc_fields(unix).0, utc_fields(unix).1),
        utc_fields(unix).3 < 24,
        utc_fields(unix).4 < 60,
        utc_fields(unix).5 < 60,
{
    let (y, doy) = year_and_day(unix / 86400, 1970);
    lemma_year_and_day(unix / 86400, 1970);
    reveal_with_fuel(days_from_month, 13);
    assert(days_from_month(y, 1) == spec_year_len(y));
    lemma_month_in_range(y, doy, 1);
}

fn is_leap_year(y: i64) -> (r: bool)
    requires
        y >= 0,
    ensures
        r == spec_is_leap_year(y as int),
{
    (y % 4 == 0 && y % 100 != 0) || (y % 400 == 0)
}

fn year_len(y: i64) -> (r: u64)
    requires
        y >= 0,
    ensures
        r == spec_year_len(y as int),
{
    if is_leap_year(y) {
        366
    } else {
        365
    }
}

fn days_in_month(y: i64, m: u32) -> (r: u64)
    requires
        y >= 0,
    ensures
        r == spec_days_in_month(y as int, m as nat),
{
    if m == 2 && is_leap_year(y) {
        29
    } else if m == 2 {
        28
    } else if m == 4 || m == 6 || m == 9 || m == 11 {
        30
    } else {
        31
    }
}

/// The month (1-12) and day within it (from 0) of day `doy` (from 0) of year `y`.
fn month_of_day(y: i64, doy: u64) -> (r: (u32, u64))
    requires
        y >= 0,
    ensures
        (r.0 as nat, r.1 as nat) == month_and_day(y as int, doy as nat, 1),
{
    let mut d = doy;
    let mut month: u32 = 1;
    while month <= 12
        invariant
            1 <= month <= 13,
            y >= 0,
            month_and_day(y as int, doy as nat, 1) == month_and_day(y as int, d as nat, month as nat),
        decreases 13 - month,
    {
        let dim = days_in_month(y, month);
        if d < dim {
            return (month, d);
        }
        d -= dim;
        month += 1;
    }
    (1, d)
}

/// Format `unix` seconds as `YYYY:MM:DD HH:MM:SS` (UTC).
fn format_unix_utc(unix: u64) -> (r: String)
    ensures
        r@ == utc_text(unix as nat),
{
    let secs = unix % 86400;
    let days = unix / 86400;
    let mut rem = days;
    let mut y: i64 = 1970;
    while rem >= year_len(y)
        invariant
            rem <= days,
            days <= 0x1_0000_0000_0000,
            1970 <= y <= 1970 + (days - rem),
            year_and_day(days as nat, 1970) == year_and_day(rem as nat, y as int),
        decreases rem,
    {
        rem -= year_len(y);
        y += 1;
    }
    let (m, d) = month_of_day(y, rem);
    proof {
        lemma_month_and_day(y as int, rem as nat, 1);
    }
    let day = d + 1;
    let hh = secs / 3600;
    let mm = (secs % 3600) / 60;
    let ss = secs % 60;
    let mut s = String::new();
    crate::text::push_padded(&mut s, y as u64, 4);
    crate::text::push_str(&mut s, ":");
    crate::text::push_padded(&mut s, m as u64, 2);
    crate::text::push_str(&mut s, ":");
    crate::text::push_padded(&mut s, day, 2);
    crate::text::push_str(&mut s, " ");
    crate::text::push_padded(&mut s, hh, 2);
    crate::text::push_str(&mut s, ":");
    crate::text::push_padded(&mut s, mm, 2);
    crate::text::push_str(&mut s, ":");
    crate::text::push_padded(&mut s, ss, 2);
    s
}

/// The date of a Mac timestamp (seconds since 1904): none for 0, for values that do not fit
/// an `i64`, and for dates before 1970.
pub open spec fn mac_time_spec(t: u64) -> Option<Seq<char>> {
    if t == 0 || t > i64::MAX || t < MAC_EPOCH_TO_UNIX {
        None
    } else {
        Some(utc_text((t - MAC_EPOCH_TO_UNIX) as nat))
    }
}

fn mac_time_to_exif_string(t: u64) -> (r: Option<String>)
    ensures
        match mac_time_spec(t) {
            Some(s) => r matches Some(x) && x@ == s,
            None => r is None,
        },
{
    if t == 0 || t > 0x7fff_ffff_ffff_ffff || t < MAC_EPOCH_TO_UNIX {
        return None;
    }
    Some(format_unix_utc(t - MAC_EPOCH_TO_UNIX))
}

} // verus!

verus! {

/// A sum that sticks at `u64::MAX`.
pub open spec fn sat(x: int) -> u64 {
    if x > u64::MAX {
        u64::MAX
    } else {
        x as u64
    }
}

/// The tags of an `mvhd` payload: time scale, duration (in seconds, as the quotient of the
/// duration by the time scale), creation and modification dates. Version 1 has 64-bit
/// times at offsets 4 and 12, the time scale at 20 and a 64-bit duration at 24; otherwise
/// 32-bit fields at 4, 8, 12 and 16.
pub open spec fn mvhd_tags(b: Seq<u8>) -> Seq<TagModel> {
    if b.len() < 4 || (!(b[0] == 1 && b.len() >= 32) && b.len() < 20) {
        seq![]
    } else {
        let v1 = b[0] == 1 && b.len() >= 32;
        let c: u64 = if v1 { be_value(b.subrange(4, 12)) as u64 } else { be_value(b.subrange(4, 8)) as u64 };
        let m: u64 = if v1 { be_value(b.subrange(12, 20)) as u64 } else { be_value(b.subrange(8, 12)) as u64 };
        let ts: u32 = if v1 { be_value(b.subrange(20, 24)) as u32 } else { be_value(b.subrange(12, 16)) as u32 };
        let dur: u64 = if v1 { be_value(b.subrange(24, 32)) as u64 } else { be_value(b.subrange(16, 20)) as u64 };
        seq![tag("QuickTime"@, "TimeScale"@, ValueModel::U32(ts))] + (if ts > 0 {
            seq![tag("QuickTime"@, "Duration"@, ValueModel::Quotient { num: dur, scale: 1, den: ts as u64 })]
        } else {
            seq![]
        }) + (match mac_time_spec(c) {
            Some(s) => seq![tag("QuickTime"@, "CreateDate"@, ValueModel::Utf8(s))],
            None => seq![],
        }) + (match mac_time_spec(m) {
            Some(s) => seq![tag("QuickTime"@, "ModifyDate"@, ValueModel::Utf8(s))],
            None => seq![],
        })
    }
}

fn parse_mvhd(meta: &mut Metadata, b: &[u8]) -> (r: Result<()>)
    ensures
        final(meta)@ == old(meta)@ + mvhd_tags(b@),
        r is Ok,
{
    let ghost meta0 = meta@;
    let n = slice_len(b);
    if n < 4 {
        assert(meta@ =~= meta0 + Seq::<TagModel>::empty());
        return Ok(());
    }
    let ver = b[0];
    let (ts, dur, c, m) = if ver == 1 && n >= 32 {
        (be_u32_at(b, 20), be_u64_at(b, 24), be_u64_at(b, 4), be_u64_at(b, 12))
    } else if n >= 20 {
        (be_u32_at(b, 12), be_u32_at(b, 16) as u64, be_u32_at(b, 4) as u64, be_u32_at(b, 8) as u64)
    } else {
        assert(meta@ =~= meta0 + Seq::<TagModel>::empty());
        return Ok(());
    };
    meta.push("QuickTime", "TimeScale", Value::U32(ts));
    if ts > 0 {
        meta.push("QuickTime", "Duration", Value::Quotient { num: dur, scale: 1, den: ts as u64 });
    }
    if let Some(s) = mac_time_to_exif_string(c) {
        meta.push("QuickTime", "CreateDate", Value::Utf8(s));
    }
    if let Some(s) = mac_time_to_exif_string(m) {
        meta.push("QuickTime", "ModifyDate", Value::Utf8(s));
    }
    assert(meta@ =~= meta0 + mvhd_tags(b@));
    Ok(())
}

/// The display size in a version-0 `tkhd` payload: 16.16 fixed-point width and height at
/// offsets 76 and 80, whole part taken; none below 1.
pub open spec fn tkhd_dims(b: Seq<u8>) -> Option<(u32, u32)> {
    if b.len() == 0 || b[0] != 0 || b.len() < 84 {
        None
    } else {
        let w = be_value(b.subrange(76, 80));
        let h = be_value(b.subrange(80, 84));
        if w < 0x10000 || h < 0x10000 {
            None
        } else {
            Some(((w / 0x10000) as u32, (h / 0x10000) as u32))
        }
    }
}

fn parse_tkhd_dims(b: &[u8]) -> (r: Option<(u32, u32)>)
    ensures
        r == tkhd_dims(b@),
{
    let n = slice_len(b);
    if n == 0 {
        return None;
    }
    if b[0] != 0 {
        return None;
    }
    let woff: usize = 76;
    if n < woff + 8 {
        return None;
    }
    let w = be_u32_at(b, woff);
    let h = be_u32_at(b, woff + 4);
    if w < 0x10000 || h < 0x10000 {
        return None;
    }
    Some((w / 0x10000, h / 0x10000))
}

/// The first codec of an `stsd` payload: when the entry count is at least 1, the four
/// bytes at offset 12, decoded lossily.
pub open spec fn stsd_codec(b: Seq<u8>) -> Option<Seq<char>> {
    if b.len() < 16 || be_value(b.subrange(4, 8)) < 1 {
        None
    } else {
        Some(lossy_text(b.subrange(12, 16)))
    }
}

fn stsd_first_codec(b: &[u8]) -> (r: Option<String>)
    ensures
        match stsd_codec(b@) {
            Some(s) => r matches Some(x) && x@ == s,
            None => r is None,
        },
{
    if slice_len(b) < 16 {
        return None;
    }
    let c = be_u32_at(b, 4);
    if c < 1 {
        return None;
    }
    Some(from_utf8_lossy(vstd::slice::slice_subrange(b, 12, 16)))
}

/// The sample count and total duration after the `k` entries of an `stts` payload from
/// offset `p` on (each a count and a duration), added to `cnt` and `sum`, saturating.
pub open spec fn stts_from(b: Seq<u8>, p: int, k: nat, cnt: u64, sum: u64) -> (u64, u64)
    decreases k,
{
    if k == 0 || p < 0 || p + 8 > b.len() {
        (cnt, sum)
    } else {
        let c = be_value(b.subrange(p, p + 4));
        let d = be_value(b.subrange(p + 4, p + 8));
        stts_from(b, p + 8, (k - 1) as nat, sat(cnt + c), sat(sum + c * d))
    }
}

/// The sample count and total duration of an `stts` payload, added to `cnt` and `sum`.
pub open spec fn stts_summary(b: Seq<u8>, cnt: u64, sum: u64) -> (u64, u64) {
    if b.len() < 8 {
        (cnt, sum)
    } else {
        stts_from(b, 8, be_value(b.subrange(4, 8)), cnt, sum)
    }
}

fn stts_parse_summary(b: &[u8], cnt: &mut u64, sum: &mut u64) -> (r: Result<()>)
    ensures
        (*final(cnt), *final(sum)) == stts_summary(b@, *old(cnt), *old(sum)),
        r is Ok,
{
    let n = slice_len(b);
    if n < 8 {
        return Ok(());
    }
    let count = be_u32_at(b, 4);
    let mut p: usize = 8;
    let mut i: u32 = 0;
    while i < count
        invariant
            n == b@.len() <= isize::MAX,
            8 <= p,
            i <= count,
            count == be_value(b@.subrange(4, 8)),
            stts_summary(b@, *old(cnt), *old(sum)) == stts_from(b@, p as int, (count - i) as nat, *cnt, *sum),
        decreases count - i,
    {
        if p > n || n - p < 8 {
            return Ok(());
        }
        let c = be_u32_at(b, p) as u64;
        let d = be_u32_at(b, p + 4) as u64;
        proof {
            lemma_u32_product(c, d);
        }
        p += 8;
        *sum = sum.saturating_add(c * d);
        *cnt = cnt.saturating_add(c);
        i += 1;
    }
    Ok(())
}

proof fn lemma_u32_product(c: u64, d: u64)
    requires
        c < 0x1_0000_0000,
        d < 0x1_0000_0000,
    ensures
        c * d < 0x1_0000_0000_0000_0000,
{
    assert(c * d <= 0xffff_ffff * 0xffff_ffff) by (nonlinear_arith)
        requires
            c < 0x1_0000_0000,
            d < 0x1_0000_0000,
    ;
}

} // verus!

verus! {

/// What the boxes of a track say about it: handler type, display size, media time scale,
/// sample count and total sample duration, first codec.
pub struct TrakInfo {
    pub kind: Option<[u8; 4]>,
    pub dim: Option<(u32, u32)>,
    pub scale: u32,
    pub cnt: u64,
    pub sum: u64,
    pub codec: Option<String>,
}

/// What a `TrakInfo` holds.
pub struct TrakModel {
    pub kind: Option<Seq<u8>>,
    pub dim: Option<(u32, u32)>,
    pub scale: u32,
    pub cnt: u64,
    pub sum: u64,
    pub codec: Option<Seq<char>>,
}

impl View for TrakInfo {
    type V = TrakModel;

    open spec fn view(&self) -> TrakModel {
        TrakModel {
            kind: match self.kind {
                Some(k) => Some(k@),
                None => None,
            },
            dim: self.dim,
            scale: self.scale,
            cnt: self.cnt,
            sum: self.sum,
            codec: match self.codec {
                Some(c) => Some(c@),
                None => None,
            },
        }
    }
}

/// A track before any of its boxes is read.
pub open spec fn trak_init() -> TrakModel {
    TrakModel { kind: None, dim: None, scale: 0, cnt: 0, sum: 0, codec: None }
}

/// A child of `stbl`: `stts` adds to the sample count and duration, `stsd` gives the codec.
pub open spec fn stbl_step() -> spec_fn(Seq<u8>, Seq<u8>, TrakModel) -> Result<TrakModel> {
    |k: Seq<u8>, b: Seq<u8>, s: TrakModel|
        if code_of(k) == STTS {
            let t = stts_summary(b, s.cnt, s.sum);
            Ok(TrakModel { kind: s.kind, dim: s.dim, scale: s.scale, cnt: t.0, sum: t.1, codec: s.codec })
        } else if code_of(k) == STSD && b.len() >= 16 && stsd_codec(b) is Some {
            Ok(TrakModel { kind: s.kind, dim: s.dim, scale: s.scale, cnt: s.cnt, sum: s.sum, codec: stsd_codec(b) })
        } else {
            Ok(s)
        }
}

/// A child of `minf`: `stbl` is read.
pub open spec fn minf_step() -> spec_fn(Seq<u8>, Seq<u8>, TrakModel) -> Result<TrakModel> {
    |k: Seq<u8>, b: Seq<u8>, s: TrakModel|
        if code_of(k) == STBL {
            scan_boxes(b, 0, s, stbl_step())
        } else {
            Ok(s)
        }
}

/// The media time scale of an `mdhd` payload (offset 20 in version 1, else 12), or `s`.
pub open spec fn mdhd_scale(b: Seq<u8>, s: u32) -> u32 {
    if b.len() < 4 {
        s
    } else if b[0] == 1 && b.len() >= 32 {
        be_value(b.subrange(20, 24)) as u32
    } else if b.len() >= 20 {
        be_value(b.subrange(12, 16)) as u32
    } else {
        s
    }
}

/// A child of `mdia`: `mdhd` gives the time scale, `hdlr` the handler type, `minf` is read.
pub open spec fn mdia_step() -> spec_fn(Seq<u8>, Seq<u8>, TrakModel) -> Result<TrakModel> {
    |k: Seq<u8>, b: Seq<u8>, s: TrakModel|
        if code_of(k) == MDHD {
            Ok(TrakModel { kind: s.kind, dim: s.dim, scale: mdhd_scale(b, s.scale), cnt: s.cnt, sum: s.sum, codec: s.codec })
        } else if code_of(k) == HDLR {
            if b.len() >= 16 {
                Ok(TrakModel { kind: Some(b.subrange(12, 16)), dim: s.dim, scale: s.scale, cnt: s.cnt, sum: s.sum, codec: s.codec })
            } else {
                Ok(s)
            }
        } else if code_of(k) == MINF {
            scan_boxes(b, 0, s, minf_step())
        } else {
            Ok(s)
        }
}

/// A child of `trak`: `tkhd` gives the display size, `mdia` is read.
pub open spec fn trak_step() -> spec_fn(Seq<u8>, Seq<u8>, TrakModel) -> Result<TrakModel> {
    |k: Seq<u8>, b: Seq<u8>, s: TrakModel|
        if code_of(k) == TKHD {
            Ok(TrakModel { kind: s.kind, dim: tkhd_dims(b), scale: s.scale, cnt: s.cnt, sum: s.sum, codec: s.codec })
        } else if code_of(k) == MDIA {
            scan_boxes(b, 0, s, mdia_step())
        } else {
            Ok(s)
        }
}

/// `r` is the outcome of a scan that the spec describes by `s`, with the final state `st`.
pub open spec fn scan_matches(r: Result<()>, st: TrakModel, s: Result<TrakModel>) -> bool {
    match s {
        Ok(m) => r is Ok && st == m,
        Err(x) => r == Err::<(), Error>(x),
    }
}

fn scan_stbl(b: &[u8], st: &mut TrakInfo) -> (r: Result<()>)
    ensures
        scan_matches(r, final(st)@, scan_boxes(b@, 0, old(st)@, stbl_step())),
{
    let ghost f = stbl_step();
    let n = slice_len(b);
    let mut p: usize = 0;
    while p < n
        invariant
            n == b@.len() <= isize::MAX,
            p <= n,
            f == stbl_step(),
            scan_boxes(b@, 0, old(st)@, f) == scan_boxes(b@, p as int, st@, f),
        decreases n - p,
    {
        let (end, bx) = match read_box(b, p) {
            Ok(Some(x)) => x,
            Ok(None) => return Ok(()),
            Err(Error::Truncated) => return Ok(()),
            Err(e) => return Err(e),
        };
        proof {
            lemma_read_box_span(b@, p as int);
        }
        let c = code(&bx.kind);
        if c == STTS {
            let _ = stts_parse_summary(bx.body, &mut st.cnt, &mut st.sum);
        } else if c == STSD && slice_len(bx.body) >= 16 {
            if let Some(cc) = stsd_first_codec(bx.body) {
                st.codec = Some(cc);
            }
        }
        p = end;
    }
    Ok(())
}

fn scan_minf(b: &[u8], st: &mut TrakInfo) -> (r: Result<()>)
    ensures
        scan_matches(r, final(st)@, scan_boxes(b@, 0, old(st)@, minf_step())),
{
    let ghost f = minf_step();
    let n = slice_len(b);
    let mut p: usize = 0;
    while p < n
        invariant
            n == b@.len() <= isize::MAX,
            p <= n,
            f == minf_step(),
            scan_boxes(b@, 0, old(st)@, f) == scan_boxes(b@, p as int, st@, f),
        decreases n - p,
    {
        let (end, bx) = match read_box(b, p) {
            Ok(Some(x)) => x,
            Ok(None) => return Ok(()),
            Err(Error::Truncated) => return Ok(()),
            Err(e) => return Err(e),
        };
        proof {
            lemma_read_box_span(b@, p as int);
        }
        if code(&bx.kind) == STBL {
            match scan_stbl(bx.body, st) {
                Ok(()) => {},
                Err(x) => return Err(x),
            }
        }
        p = end;
    }
    Ok(())
}

fn scan_mdia(b: &[u8], st: &mut TrakInfo) -> (r: Result<()>)
    ensures
        scan_matches(r, final(st)@, scan_boxes(b@, 0, old(st)@, mdia_step())),
{
    let ghost f = mdia_step();
    let n = slice_len(b);
    let mut p: usize = 0;
    while p < n
        invariant
            n == b@.len() <= isize::MAX,
            p <= n,
            f == mdia_step(),
            scan_boxes(b@, 0, old(st)@, f) == scan_boxes(b@, p as int, st@, f),
        decreases n - p,
    {
        let (end, bx) = match read_box(b, p) {
            Ok(Some(x)) => x,
            Ok(None) => return Ok(()),
            Err(Error::Truncated) => return Ok(()),
            Err(e) => return Err(e),
        };
        proof {
            lemma_read_box_span(b@, p as int);
        }
        let c = code(&bx.kind);
        let b2 = bx.body;
        let n2 = slice_len(b2);
        if c == MDHD {
            if n2 >= 4 {
                let v = b2[0];
                if v == 1 && n2 >= 32 {
                    st.scale = be_u32_at(b2, 20);
                } else if n2 >= 20 {
                    st.scale = be_u32_at(b2, 12);
                }
            }
        } else if c == HDLR {
            if n2 >= 16 {
                let s: [u8; 4] = [b2[12], b2[13], b2[14], b2[15]];
                assert(s@ =~= b2@.subrange(12, 16));
                st.kind = Some(s);
            }
        } else if c == MINF {
            match scan_minf(b2, st) {
                Ok(()) => {},
                Err(x) => return Err(x),
            }
        }
        p = end;
    }
    Ok(())
}

fn scan_trak(b: &[u8], st: &mut TrakInfo) -> (r: Result<()>)
    ensures
        scan_matches(r, final(st)@, scan_boxes(b@, 0, old(st)@, trak_step())),
{
    let ghost f = trak_step();
    let n = slice_len(b);
    let mut p: usize = 0;
    while p < n
        invariant
            n == b@.len() <= isize::MAX,
            p <= n,
            f == trak_step(),
            scan_boxes(b@, 0, old(st)@, f) == scan_boxes(b@, p as int, st@, f),
        decreases n - p,
    {
        let (end, bx) = match read_box(b, p) {
            Ok(Some(x)) => x,
            Ok(None) => return Ok(()),
            Err(Error::Truncated) => return Ok(()),
            Err(e) => return Err(e),
        };
        proof {
            lemma_read_box_span(b@, p as int);
        }
        let c = code(&bx.kind);
        if c == TKHD {
            st.dim = parse_tkhd_dims(bx.body);
        } else if c == MDIA {
            match scan_mdia(bx.body, st) {
                Ok(()) => {},
                Err(x) => return Err(x),
            }
        }
        p = end;
    }
    Ok(())
}

} // verus!

verus! {

/// The tags of a track: a video track (handler `vide`, or a display size without a `soun`
/// handler) gives its size, its frame rate (samples times time scale over total duration)
/// and its codec; a sound track with a time scale gives its format and sample rate.
pub open spec fn trak_tags(s: TrakModel) -> Seq<TagModel> {
    let is_audio = s.kind matches Some(k) && code_of(k) == SOUN;
    let is_video = s.kind matches Some(k) && code_of(k) == VIDE;
    let videoish = is_video || (s.dim is Some && !is_audio);
    let v: Seq<TagModel> = if videoish {
        (match s.dim {
            Some((w, h)) => seq![
                tag("File"@, "ImageWidth"@, ValueModel::U32(w)),
                tag("File"@, "ImageHeight"@, ValueModel::U32(h)),
            ],
            None => seq![],
        }) + (if s.scale > 0 && s.cnt > 0 && s.sum > 0 {
            seq![tag("Track1"@, "VideoFrameRate"@, ValueModel::Quotient { num: s.cnt, scale: s.scale, den: s.sum })]
        } else {
            seq![]
        }) + (match s.codec {
            Some(c) => seq![tag("Track1"@, "VideoCodec"@, ValueModel::Utf8(c))],
            None => seq![],
        })
    } else {
        seq![]
    };
    let a: Seq<TagModel> = if is_audio && s.scale > 0 {
        seq![
            tag("Track0"@, "AudioFormat"@, ValueModel::Utf8("soun"@)),
            tag("Track0"@, "AudioSampleRate"@, ValueModel::Quotient { num: s.scale as u64, scale: 1, den: 1 }),
        ]
    } else {
        seq![]
    };
    v + a
}

/// The tags of a `trak` payload, or the error of a malformed box header within it.
pub open spec fn trak_spec(b: Seq<u8>) -> Outcome {
    match scan_boxes(b, 0, trak_init(), trak_step()) {
        Err(x) => (seq![], Err(x)),
        Ok(s) => (trak_tags(s), Ok(())),
    }
}

fn parse_trak(meta: &mut Metadata, trak: &[u8]) -> (r: Result<()>)
    ensures
        final(meta)@ == old(meta)@ + trak_spec(trak@).0,
        r == trak_spec(trak@).1,
{
    let ghost meta0 = meta@;
    let mut st = TrakInfo { kind: None, dim: None, scale: 0, cnt: 0, sum: 0, codec: None };
    assert(st@ == trak_init());
    match scan_trak(trak, &mut st) {
        Ok(()) => {},
        Err(x) => {
            assert(meta@ =~= meta0 + Seq::<TagModel>::empty());
            return Err(x);
        },
    }
    let ghost s = st@;
    let is_audio = match st.kind {
        Some(k) => code(&k) == SOUN,
        None => false,
    };
    let is_video = match st.kind {
        Some(k) => code(&k) == VIDE,
        None => false,
    };
    let is_videoish = is_video || (st.dim.is_some() && !is_audio);
    if is_videoish {
        if let Some((w, h)) = st.dim {
            meta.push("File", "ImageWidth", Value::U32(w));
            meta.push("File", "ImageHeight", Value::U32(h));
        }
        if st.scale > 0 && st.cnt > 0 && st.sum > 0 {
            meta.push(
                "Track1",
                "VideoFrameRate",
                Value::Quotient { num: st.cnt, scale: st.scale, den: st.sum },
            );
        }
        if let Some(c) = st.codec {
            meta.push("Track1", "VideoCodec", Value::Utf8(c));
        }
    }
    if is_audio && st.scale > 0 {
        meta.push("Track0", "AudioFormat", Value::Utf8(string_of("soun")));
        meta.push(
            "Track0",
            "AudioSampleRate",
            Value::Quotient { num: st.scale as u64, scale: 1, den: 1 },
        );
    }
    assert(meta@ =~= meta0 + trak_tags(s));
    Ok(())
}

/// The XMP tag of a `uuid` payload: the text after the UUID, trimmed.
pub open spec fn xmp_tag(b: Seq<u8>) -> TagModel {
    tag("XMP"@, "XMP"@, ValueModel::Utf8(trim_spec(decode_utf8(b.subrange(16, b.len() as int)), TrimSet::Whitespace)))
}

/// The XMP tags of a `uuid` payload: one when it carries the XMP UUID and valid UTF-8 text.
pub open spec fn xmp_tags(b: Seq<u8>) -> Seq<TagModel> {
    if is_xmp_body(b) && valid_utf8(b.subrange(16, b.len() as int)) {
        seq![xmp_tag(b)]
    } else {
        seq![]
    }
}

fn push_xmp(meta: &mut Metadata, b: &[u8])
    ensures
        final(meta)@ == old(meta)@ + xmp_tags(b@),
{
    let ghost meta0 = meta@;
    if is_xmp(b) {
        if let Some(s) = str_from_utf8(vstd::slice::slice_subrange(b, 16, slice_len(b))) {
            meta.push("XMP", "XMP", Value::Utf8(trim_with(s, TrimSet::Whitespace, true, true)));
            assert(meta@ =~= meta0 + xmp_tags(b@));
            return;
        }
    }
    assert(meta@ =~= meta0 + xmp_tags(b@));
}

/// A child of `moov`: movie header, tracks, user data, item lists and XMP.
pub open spec fn moov_step() -> spec_fn(Seq<u8>, Seq<u8>) -> Outcome {
    |k: Seq<u8>, b: Seq<u8>|
        if code_of(k) == MVHD {
            (mvhd_tags(b), Ok(()))
        } else if code_of(k) == TRAK {
            trak_spec(b)
        } else if code_of(k) == UDTA {
            fold_boxes(b, 0, udta_step())
        } else if code_of(k) == META {
            meta_ilst_spec(meta_children_spec(b))
        } else if code_of(k) == UUID {
            (xmp_tags(b), Ok(()))
        } else {
            (seq![], Ok(()))
        }
}

/// Walk `moov` box content (not including outer size/type), parse tracks and user `meta`.
fn parse_moov(meta: &mut Metadata, moov_body: &[u8]) -> (r: Result<()>)
    ensures
        final(meta)@ == old(meta)@ + fold_boxes(moov_body@, 0, moov_step()).0,
        r == fold_boxes(moov_body@, 0, moov_step()).1,
{
    let ghost meta0 = meta@;
    let ghost f = moov_step();
    let n = slice_len(moov_body);
    let mut p: usize = 0;
    let ghost mut added: Seq<TagModel> = Seq::empty();
    assert(added + fold_boxes(moov_body@, 0, f).0 =~= fold_boxes(moov_body@, 0, f).0);
    while p < n
        invariant
            n == moov_body@.len() <= isize::MAX,
            p <= n,
            f == moov_step(),
            meta0 == old(meta)@,
            meta@ == meta0 + added,
            fold_boxes(moov_body@, 0, f).0 == added + fold_boxes(moov_body@, p as int, f).0,
            fold_boxes(moov_body@, 0, f).1 == fold_boxes(moov_body@, p as int, f).1,
        decreases n - p,
    {
        assert(added + Seq::<TagModel>::empty() =~= added);
        let (end, bx) = match read_box(moov_body, p) {
            Ok(Some(x)) => x,
            Ok(None) => return Ok(()),
            Err(Error::Truncated) => return Ok(()),
            Err(e) => return Err(e),
        };
        proof {
            lemma_read_box_span(moov_body@, p as int);
        }
        let ghost meta_p = meta@;
        let ghost c = f(bx.kind@, bx.body@);
        let k = code(&bx.kind);
        let b = bx.body;
        let rc = if k == MVHD {
            parse_mvhd(meta, b)
        } else if k == TRAK {
            parse_trak(meta, b)
        } else if k == UDTA {
            parse_udta(meta, b)
        } else if k == META {
            parse_moov_meta(meta, meta_children(b))
        } else if k == UUID {
            push_xmp(meta, b);
            Ok(())
        } else {
            assert(meta@ =~= meta_p + Seq::<TagModel>::empty());
            Ok(())
        };
        assert(meta@ == meta_p + c.0);
        if let Err(x) = rc {
            assert(meta@ =~= meta0 + (added + c.0));
            return Err(x);
        }
        proof {
            let rest = fold_boxes(moov_body@, end as int, f);
            assert(added + (c.0 + rest.0) =~= (added + c.0) + rest.0);
            added = added + c.0;
        }
        p = end;
    }
    assert(added + Seq::<TagModel>::empty() =~= added);
    Ok(())
}

} // verus!

verus! {

/// What the top-level boxes say about the file type: the major brand and minor version of
/// the last `ftyp` that had them, the compatible brands of all `ftyp` boxes, and whether a
/// `moov` box was seen.
pub struct TopModel {
    pub major: Option<Seq<u8>>,
    pub minor: u32,
    pub compat: Seq<Seq<u8>>,
    pub saw_moov: bool,
}

/// The compatible brands of an `ftyp` payload from offset `cp` on.
pub open spec fn compat_brands(b: Seq<u8>, cp: int) -> Seq<Seq<u8>>
    decreases b.len() - cp,
{
    if cp < 0 || cp + 4 > b.len() {
        seq![]
    } else {
        seq![b.subrange(cp, cp + 4)] + compat_brands(b, cp + 4)
    }
}

/// `st` after an `ftyp` payload `b`.
pub open spec fn ftyp_update(st: TopModel, b: Seq<u8>) -> TopModel {
    TopModel {
        major: if b.len() >= 4 {
            Some(b.subrange(0, 4))
        } else {
            st.major
        },
        minor: if b.len() >= 8 {
            be_value(b.subrange(4, 8)) as u32
        } else {
            st.minor
        },
        compat: st.compat + compat_brands(b, 8),
        saw_moov: st.saw_moov,
    }
}

/// The tags of the top-level boxes from `p` on, and the file-type state after them.
pub open spec fn top_spec(d: Seq<u8>, p: int, st: TopModel) -> (Seq<TagModel>, Result<TopModel>)
    decreases d.len() - p,
{
    if p < 0 || p >= d.len() {
        (seq![], Ok(st))
    } else {
        match spec_read_box(d, p) {
            Ok(None) => (seq![], Ok(st)),
            Err(Error::Truncated) => (seq![], Ok(st)),
            Err(x) => (seq![], Err(x)),
            Ok(Some((end, bs, k))) => {
                proof {
                    lemma_read_box_span(d, p);
                }
                let b = d.subrange(bs, end);
                let c = code_of(k);
                if c == FTYP {
                    top_spec(d, end, ftyp_update(st, b))
                } else {
                    let o: Outcome = if c == MOOV {
                        fold_boxes(b, 0, moov_step())
                    } else if c == META {
                        top_meta_spec(d, meta_children_spec(b))
                    } else if c == UUID && b.len() >= 16 {
                        (xmp_tags(b), Ok(()))
                    } else {
                        (seq![], Ok(()))
                    };
                    let st2 = TopModel {
                        major: st.major,
                        minor: st.minor,
                        compat: st.compat,
                        saw_moov: st.saw_moov || c == MOOV,
                    };
                    match o.1 {
                        Err(x) => (o.0, Err(x)),
                        Ok(()) => {
                            let r = top_spec(d, end, st2);
                            (o.0 + r.0, r.1)
                        },
                    }
                }
            },
        }
    }
}

/// The brands as text, separated by `, `.
pub open spec fn join_brands(c: Seq<Seq<u8>>) -> Seq<char>
    decreases c.len(),
{
    if c.len() == 0 {
        seq![]
    } else if c.len() == 1 {
        brand_text(c[0])
    } else {
        join_brands(c.drop_last()) + ", "@ + brand_text(c.last())
    }
}

/// The file-type tags: file type and MIME type (from the brands; else `MOV` when a `moov`
/// box was seen, else `HEIF`), major brand and minor version, compatible brands.
pub open spec fn file_tags(st: TopModel) -> Seq<TagModel> {
    let fm: (Seq<char>, Seq<char>) = match st.major {
        Some(m) => file_mime_spec(m, st.compat),
        None => if st.saw_moov {
            ("MOV"@, "video/quicktime"@)
        } else {
            ("HEIF"@, "image/heif"@)
        },
    };
    seq![
        tag("File"@, "FileType"@, ValueModel::Utf8(fm.0)),
        tag("File"@, "MIMEType"@, ValueModel::Utf8(fm.1)),
    ] + (match st.major {
        Some(m) => seq![
            tag("File"@, "MajorBrand"@, ValueModel::Utf8(brand_text(m))),
            tag("File"@, "MinorVersion"@, ValueModel::U32(st.minor)),
        ],
        None => seq![],
    }) + (if st.compat.len() > 0 {
        seq![tag("File"@, "CompatibleBrands"@, ValueModel::Utf8(join_brands(st.compat)))]
    } else {
        seq![]
    })
}

/// The tags that reading the ISO BMFF file `d` adds, and the outcome.
pub open spec fn qt_spec(d: Seq<u8>) -> Outcome {
    let w = top_spec(d, 0, TopModel { major: None, minor: 0, compat: seq![], saw_moov: false });
    match w.1 {
        Err(x) => (w.0, Err(x)),
        Ok(st) => (w.0 + file_tags(st), Ok(())),
    }
}

/// The brands joined by `, `.
fn join_brand_list(compat: &Vec<[u8; 4]>) -> (r: String)
    ensures
        r@ == join_brands(brands_of(compat@)),
{
    let mut s = String::new();
    let mut i: usize = 0;
    assert(brands_of(compat@).take(0) =~= Seq::<Seq<u8>>::empty());
    while i < compat.len()
        invariant
            i <= compat@.len(),
            s@ == join_brands(brands_of(compat@).take(i as int)),
        decreases compat@.len() - i,
    {
        let ghost before = s@;
        if i > 0 {
            crate::text::push_str(&mut s, ", ");
        }
        let t = fourcc_str(&compat[i]);
        crate::text::push_str(&mut s, t.as_str());
        proof {
            let c = brands_of(compat@).take(i + 1);
            assert(c.drop_last() =~= brands_of(compat@).take(i as int));
            assert(c.last() == compat@[i as int]@);
            if i == 0 {
                assert(s@ =~= brand_text(c[0]));
            } else {
                assert(s@ =~= before + ", "@ + brand_text(c.last()));
            }
        }
        i += 1;
    }
    assert(brands_of(compat@).take(i as int) =~= brands_of(compat@));
    s
}

/// The file-type state of the top-level walk.
struct TopInfo {
    major: Option<[u8; 4]>,
    minor: u32,
    compat: Vec<[u8; 4]>,
    saw_moov: bool,
}

impl View for TopInfo {
    type V = TopModel;

    closed spec fn view(&self) -> TopModel {
        TopModel {
            major: match self.major {
                Some(m) => Some(m@),
                None => None,
            },
            minor: self.minor,
            compat: brands_of(self.compat@),
            saw_moov: self.saw_moov,
        }
    }
}

fn read_ftyp(st: &mut TopInfo, body: &[u8])
    ensures
        final(st)@.major == ftyp_update(old(st)@, body@).major,
        final(st)@.minor == ftyp_update(old(st)@, body@).minor,
        final(st)@.compat == ftyp_update(old(st)@, body@).compat,
        final(st)@.saw_moov == ftyp_update(old(st)@, body@).saw_moov,
{
    let bn = slice_len(body);
    if bn >= 4 {
        let m: [u8; 4] = [body[0], body[1], body[2], body[3]];
        assert(m@ =~= body@.subrange(0, 4));
        st.major = Some(m);
    }
    if bn >= 8 {
        st.minor = be_u32_at(body, 4);
    }
    let mut cp: usize = 8;
    let ghost c0 = brands_of(st.compat@);
    let ghost maj = st.major;
    let ghost min = st.minor;
    let ghost moov = st.saw_moov;
    assert(c0 + compat_brands(body@, 8) =~= brands_of(st.compat@) + compat_brands(body@, cp as int));
    while cp <= bn && bn - cp >= 4
        invariant
            bn == body@.len() <= isize::MAX,
            8 <= cp,
            c0 + compat_brands(body@, 8) == brands_of(st.compat@) + compat_brands(body@, cp as int),
            st.major == maj,
            st.minor == min,
            st.saw_moov == moov,
        decreases bn - cp,
    {
        let e: [u8; 4] = [body[cp], body[cp + 1], body[cp + 2], body[cp + 3]];
        assert(e@ =~= body@.subrange(cp as int, cp + 4));
        let ghost before = brands_of(st.compat@);
        st.compat.push(e);
        assert(brands_of(st.compat@) =~= before.push(e@));
        assert(before + (seq![e@] + compat_brands(body@, cp + 4)) =~= brands_of(st.compat@)
            + compat_brands(body@, cp + 4));
        cp += 4;
    }
    assert(brands_of(st.compat@) + Seq::<Seq<u8>>::empty() =~= brands_of(st.compat@));
    assert(final(st)@.compat =~= old(st)@.compat + compat_brands(body@, 8));
}

/// The tags of a top-level box other than `ftyp`, and the outcome.
pub open spec fn top_box_spec(file: Seq<u8>, c: nat, b: Seq<u8>) -> Outcome {
    if c == MOOV {
        fold_boxes(b, 0, moov_step())
    } else if c == META {
        top_meta_spec(file, meta_children_spec(b))
    } else if c == UUID && b.len() >= 16 {
        (xmp_tags(b), Ok(()))
    } else {
        (seq![], Ok(()))
    }
}

fn read_top_box(output: &mut Metadata, data: &[u8], c: u32, body: &[u8]) -> (r: Result<()>)
    ensures
        final(output)@ == old(output)@ + top_box_spec(data@, c as nat, body@).0,
        r == top_box_spec(data@, c as nat, body@).1,
{
    let ghost meta0 = output@;
    if c == MOOV {
        parse_moov(output, body)
    } else if c == META {
        parse_top_level_meta(output, data, meta_children(body))
    } else if c == UUID && slice_len(body) >= 16 {
        push_xmp(output, body);
        Ok(())
    } else {
        assert(output@ =~= meta0 + Seq::<TagModel>::empty());
        Ok(())
    }
}

fn push_file_tags(output: &mut Metadata, st: &TopInfo)
    ensures
        final(output)@ == old(output)@ + file_tags(st@),
{
    let ghost meta_e = output@;
    let (ft, mime) = if let Some(m) = st.major {
        ftyp_to_file_mime(&m, st.compat.as_slice())
    } else if st.saw_moov {
        (string_of("MOV"), string_of("video/quicktime"))
    } else {
        (string_of("HEIF"), string_of("image/heif"))
    };
    output.push("File", "FileType", Value::Utf8(ft));
    output.push("File", "MIMEType", Value::Utf8(mime));
    if let Some(m) = st.major {
        output.push("File", "MajorBrand", Value::Utf8(fourcc_str(&m)));
        output.push("File", "MinorVersion", Value::U32(st.minor));
    }
    if st.compat.len() > 0 {
        let s = join_brand_list(&st.compat);
        output.push("File", "CompatibleBrands", Value::Utf8(s));
    }
    assert(output@ =~= meta_e + file_tags(st@));
}

/// Reads an ISO BMFF / QuickTime file into `output`: the brands of `ftyp`, the movie
/// (`moov`), a top-level `meta` (image extents and embedded EXIF) and XMP `uuid` boxes, then
/// the file type. Tags read before an error stay in `output`.
pub fn parse(output: &mut Metadata, data: &[u8]) -> (r: Result<()>)
    ensures
        final(output)@ == old(output)@ + qt_spec(data@).0,
        r == qt_spec(data@).1,
{
    let ghost meta0 = output@;
    let mut st = TopInfo { major: None, minor: 0, compat: Vec::new(), saw_moov: false };
    let n = slice_len(data);
    let mut p: usize = 0;
    let ghost mut added: Seq<TagModel> = Seq::empty();
    let ghost init = st@;
    assert(brands_of(st.compat@) =~= Seq::<Seq<u8>>::empty());
    assert(init == TopModel { major: None, minor: 0, compat: seq![], saw_moov: false });
    assert(added + top_spec(data@, 0, init).0 =~= top_spec(data@, 0, init).0);
    loop
        invariant
            n == data@.len() <= isize::MAX,
            p <= n,
            init == (TopModel { major: None, minor: 0, compat: seq![], saw_moov: false }),
            meta0 == old(output)@,
            output@ == meta0 + added,
            top_spec(data@, 0, init).0 == added + top_spec(data@, p as int, st@).0,
            top_spec(data@, 0, init).1 == top_spec(data@, p as int, st@).1,
        decreases n - p,
    {
        let ghost meta_p = output@;
        let ghost st_p = st@;
        assert(added + Seq::<TagModel>::empty() =~= added);
        let (end, b) = if p >= n {
            push_file_tags(output, &st);
            assert(output@ =~= meta0 + (added + file_tags(st_p)));
            return Ok(());
        } else {
            match read_box(data, p) {
                Ok(Some(x)) => x,
                Ok(None) => {
                    push_file_tags(output, &st);
                    assert(output@ =~= meta0 + (added + file_tags(st_p)));
                    return Ok(());
                },
                Err(Error::Truncated) => {
                    push_file_tags(output, &st);
                    assert(output@ =~= meta0 + (added + file_tags(st_p)));
                    return Ok(());
                },
                Err(e) => return Err(e),
            }
        };
        proof {
            lemma_read_box_span(data@, p as int);
        }
        let c = code(&b.kind);
        if c == FTYP {
            read_ftyp(&mut st, b.body);
            assert(st@ == ftyp_update(st_p, b.body@));
        } else {
            let rc = read_top_box(output, data, c, b.body);
            let ghost o = top_box_spec(data@, c as nat, b.body@);
            if let Err(x) = rc {
                assert(output@ =~= meta0 + (added + o.0));
                return Err(x);
            }
            if c == MOOV {
                st.saw_moov = true;
            }
            proof {
                let rest = top_spec(data@, end as int, st@);
                assert(added + (o.0 + rest.0) =~= (added + o.0) + rest.0);
                added = added + o.0;
            }
        }
        p = end;
    }
}

} // verus!

verus! {

/// The 32-bit big-endian integer in bytes `o..o + 4` of `b`.
pub open spec fn be_word32(b: Seq<u8>, o: int) -> u64 {
    (b[o] * 16777216 + b[o + 1] * 65536 + b[o + 2] * 256 + b[o + 3]) as u64
}

proof fn lemma_be_word32(b: Seq<u8>, o: int)
    requires
        0 <= o,
        o + 4 <= b.len(),
    ensures
        be_value(b.subrange(o, o + 4)) == be_word32(b, o) as int,
        be_word32(b, o) < 0x1_0000_0000,
{
    let s = b.subrange(o, o + 4);
    reveal_with_fuel(be_value, 5);
    assert(s.drop_last() =~= seq![s[0], s[1], s[2]]);
    assert(s.drop_last().drop_last() =~= seq![s[0], s[1]]);
    assert(s.drop_last().drop_last().drop_last() =~= seq![s[0]]);
    assert(s.drop_last().drop_last().drop_last().drop_last() =~= Seq::<u8>::empty());
}

/// The date tag `n` for the Mac time `t`: one value when the time is representable, none
/// otherwise.
pub open spec fn date_values(t: u64) -> Seq<ValueModel> {
    match mac_time_spec(t) {
        Some(s) => seq![ValueModel::Utf8(s)],
        None => seq![],
    }
}

/// In a version-0 movie header the creation time is the big-endian 32-bit Mac time at
/// payload offset 4 and the modification time the one at offset 8; the time scale is at 12
/// and the duration at 16. `CreateDate` and `ModifyDate` are those two times as dates (each
/// given once, when it is a valid date), and `TimeScale` is the scale.
#[verifier::spinoff_prover]
pub proof fn lemma_mvhd_v0_fields(b: Seq<u8>)
    requires
        b.len() >= 20,
        !(b[0] == 1 && b.len() >= 32),
    ensures
        values_named(mvhd_tags(b), "CreateDate"@) == date_values(be_word32(b, 4)),
        values_named(mvhd_tags(b), "ModifyDate"@) == date_values(be_word32(b, 8)),
        values_named(mvhd_tags(b), "TimeScale"@) == seq![ValueModel::U32(be_word32(b, 12) as u32)],
{
    lemma_be_word32(b, 4);
    lemma_be_word32(b, 8);
    lemma_be_word32(b, 12);
    let dur: u64 = be_value(b.subrange(16, 20)) as u64;
    assert(mvhd_tags(b) == mvhd_parts(be_word32(b, 4), be_word32(b, 8), be_word32(b, 12) as u32, dur));
    lemma_mvhd_parts(be_word32(b, 4), be_word32(b, 8), be_word32(b, 12) as u32, dur);
}

/// The 64-bit big-endian integer in bytes `o..o + 8` of `b`.
pub open spec fn be_word64(b: Seq<u8>, o: int) -> u64 {
    (be_word32(b, o) * 0x1_0000_0000 + be_word32(b, o + 4)) as u64
}

proof fn lemma_be_value_concat(a: Seq<u8>, c: Seq<u8>)
    ensures
        be_value(a + c) == be_value(a) * crate::byteorder::pow256(c.len()) + be_value(c),
    decreases c.len(),
{
    if c.len() == 0 {
        assert(a + c =~= a);
        assert(crate::byteorder::pow256(0) == 1);
        assert(be_value(c) == 0);
        assert(be_value(a) * 1 == be_value(a));
    } else {
        lemma_be_value_concat(a, c.drop_last());
        assert(be_value(a + c.drop_last()) == be_value(a) * crate::byteorder::pow256((c.len() - 1) as nat) + be_value(c.drop_last()));
        assert((a + c).drop_last() =~= a + c.drop_last());
        let x = be_value(a);
        let p = crate::byteorder::pow256((c.len() - 1) as nat);
        let y = be_value(c.drop_last());
        assert((x * p + y) * 256 + c.last() == x * (256 * p) + (y * 256 + c.last())) by (nonlinear_arith);
        assert((a + c).last() == c.last());
        assert(be_value(a + c) == be_value(a + c.drop_last()) * 256 + c.last());
        assert(be_value(c) == y * 256 + c.last());
        assert(crate::byteorder::pow256(c.len()) == 256 * p);
    }
}

proof fn lemma_be_word64(b: Seq<u8>, o: int)
    requires
        0 <= o,
        o + 8 <= b.len(),
    ensures
        be_value(b.subrange(o, o + 8)) == be_word64(b, o) as int,
{
    lemma_be_word32(b, o);
    lemma_be_word32(b, o + 4);
    assert(b.subrange(o, o + 8) =~= b.subrange(o, o + 4) + b.subrange(o + 4, o + 8));
    lemma_be_value_concat(b.subrange(o, o + 4), b.subrange(o + 4, o + 8));
    reveal_with_fuel(crate::byteorder::pow256, 5);
}

/// In a version-1 movie header the creation time is the big-endian 64-bit Mac time at
/// payload offset 4 and the modification time the one at offset 12; the time scale is the
/// 32-bit field at 20 and the duration the 64-bit one at 24.
#[verifier::spinoff_prover]
pub proof fn lemma_mvhd_v1_fields(b: Seq<u8>)
    requires
        b.len() >= 32,
        b[0] == 1,
    ensures
        values_named(mvhd_tags(b), "CreateDate"@) == date_values(be_word64(b, 4)),
        values_named(mvhd_tags(b), "ModifyDate"@) == date_values(be_word64(b, 12)),
        values_named(mvhd_tags(b), "TimeScale"@) == seq![ValueModel::U32(be_word32(b, 20) as u32)],
{
    lemma_be_word64(b, 4);
    lemma_be_word64(b, 12);
    lemma_be_word32(b, 20);
    let dur: u64 = be_value(b.subrange(24, 32)) as u64;
    assert(mvhd_tags(b) == mvhd_parts(be_word64(b, 4), be_word64(b, 12), be_word32(b, 20) as u32, dur));
    lemma_mvhd_parts(be_word64(b, 4), be_word64(b, 12), be_word32(b, 20) as u32, dur);
}

/// The movie-header tags for creation time `c`, modification time `m`, scale `ts` and
/// duration `dur`.
pub open spec fn mvhd_parts(c: u64, m: u64, ts: u32, dur: u64) -> Seq<TagModel> {
    seq![tag("QuickTime"@, "TimeScale"@, ValueModel::U32(ts))] + (if ts > 0 {
        seq![tag("QuickTime"@, "Duration"@, ValueModel::Quotient { num: dur, scale: 1, den: ts as u64 })]
    } else {
        seq![]
    }) + (match mac_time_spec(c) {
        Some(s) => seq![tag("QuickTime"@, "CreateDate"@, ValueModel::Utf8(s))],
        None => seq![],
    }) + (match mac_time_spec(m) {
        Some(s) => seq![tag("QuickTime"@, "ModifyDate"@, ValueModel::Utf8(s))],
        None => seq![],
    })
}

proof fn lemma_mvhd_parts(c: u64, m: u64, ts: u32, dur: u64)
    ensures
        values_named(mvhd_parts(c, m, ts, dur), "CreateDate"@) == date_values(c),
        values_named(mvhd_parts(c, m, ts, dur), "ModifyDate"@) == date_values(m),
        values_named(mvhd_parts(c, m, ts, dur), "TimeScale"@) == seq![ValueModel::U32(ts)],
{
    reveal_strlit("CreateDate");
    reveal_strlit("ModifyDate");
    reveal_strlit("TimeScale");
    reveal_strlit("Duration");
    let t0 = seq![tag("QuickTime"@, "TimeScale"@, ValueModel::U32(ts))];
    let t1 = if ts > 0 {
        seq![tag("QuickTime"@, "Duration"@, ValueModel::Quotient { num: dur, scale: 1, den: ts as u64 })]
    } else {
        seq![]
    };
    let t2 = match mac_time_spec(c) {
        Some(s) => seq![tag("QuickTime"@, "CreateDate"@, ValueModel::Utf8(s))],
        None => seq![],
    };
    let t3 = match mac_time_spec(m) {
        Some(s) => seq![tag("QuickTime"@, "ModifyDate"@, ValueModel::Utf8(s))],
        None => seq![],
    };
    assert(mvhd_parts(c, m, ts, dur) == t0 + t1 + t2 + t3);
    assert("CreateDate"@[0] == 'C' && "ModifyDate"@[0] == 'M' && "TimeScale"@[0] == 'T' && "Duration"@[0] == 'D');
    lemma_named_parts(t0, t1, t2, t3, "CreateDate"@);
    lemma_named_parts(t0, t1, t2, t3, "ModifyDate"@);
    lemma_named_parts(t0, t1, t2, t3, "TimeScale"@);
    lemma_named_single(t0, "CreateDate"@);
    lemma_named_single(t1, "CreateDate"@);
    lemma_named_single(t2, "CreateDate"@);
    lemma_named_single(t3, "CreateDate"@);
    lemma_named_single(t0, "ModifyDate"@);
    lemma_named_single(t1, "ModifyDate"@);
    lemma_named_single(t2, "ModifyDate"@);
    lemma_named_single(t3, "ModifyDate"@);
    lemma_named_single(t0, "TimeScale"@);
    lemma_named_single(t1, "TimeScale"@);
    lemma_named_single(t2, "TimeScale"@);
    lemma_named_single(t3, "TimeScale"@);
    assert(values_named(t2, "CreateDate"@) =~= date_values(c));
    assert(values_named(t3, "CreateDate"@) =~= Seq::<ValueModel>::empty());
    assert(values_named(t0, "CreateDate"@) =~= Seq::<ValueModel>::empty());
    assert(values_named(t1, "CreateDate"@) =~= Seq::<ValueModel>::empty());
    assert(values_named(t3, "ModifyDate"@) =~= date_values(m));
    assert(values_named(t2, "ModifyDate"@) =~= Seq::<ValueModel>::empty());
    assert(values_named(t0, "ModifyDate"@) =~= Seq::<ValueModel>::empty());
    assert(values_named(t1, "ModifyDate"@) =~= Seq::<ValueModel>::empty());
    assert(values_named(t0, "TimeScale"@) =~= seq![ValueModel::U32(ts)]);
    assert(values_named(t1, "TimeScale"@) =~= Seq::<ValueModel>::empty());
    assert(values_named(t2, "TimeScale"@) =~= Seq::<ValueModel>::empty());
    assert(values_named(t3, "TimeScale"@) =~= Seq::<ValueModel>::empty());
}

proof fn lemma_named_single(t: Seq<TagModel>, n: Seq<char>)
    requires
        t.len() <= 1,
    ensures
        values_named(t, n) == (if t.len() == 1 && t[0].name == n { seq![t[0].value] } else { Seq::<ValueModel>::empty() }),
{
    reveal_with_fuel(values_named, 2);
    if t.len() == 1 {
        assert(t.drop_first().len() == 0);
    }
}

proof fn lemma_named_parts(t0: Seq<TagModel>, t1: Seq<TagModel>, t2: Seq<TagModel>, t3: Seq<TagModel>, n: Seq<char>)
    requires
        t0.len() <= 1,
        t1.len() <= 1,
        t2.len() <= 1,
        t3.len() <= 1,
    ensures
        values_named(t0 + t1 + t2 + t3, n) == values_named(t0, n) + values_named(t1, n) + values_named(t2, n)
            + values_named(t3, n),
{
    lemma_values_named_concat(t0 + t1 + t2, t3, n);
    lemma_values_named_concat(t0 + t1, t2, n);
    lemma_values_named_concat(t0, t1, n);
    lemma_named_single(t0, n);
    lemma_named_single(t1, n);
    lemma_named_single(t2, n);
    lemma_named_single(t3, n);
}

} // verus!
