//! Reading PNG files: the `IHDR` header, EXIF chunks (`eXIf`, `zxIf`) and textual chunks
//! (`tEXt`, `zTXt`, `iTXt`).
use crate::byteorder::{be_u32_at, be_value};
use crate::detect::{has_prefix, png_signature, starts_with};
use crate::error::{done_as, fails_as, lift, Error, Failure, Result};
use crate::fourcc::{code, code_of};
use crate::jpeg::{hdr_at, spec_looks_like_tiff};
use crate::metadata::{tag, Metadata, TagModel};
use crate::png_strip::{
    crc32, is_metadata_chunk, lemma_png_walk_len, png_walk, spec_keep_chunk, spec_png_strip, EXIF, IEND,
    IHDR, ITXT, TEXT, ZTXT, ZXIF,
};
use crate::StripOptions;
use crate::tables::{first_key, lookup_png_text, png_text_table};
use crate::text::{from_utf8_lossy, str_from_utf8, lossy_text};
use crate::tiff::{exif_spec, parse_exif_slice};
use crate::util::slice_len;
use crate::value::{Value, ValueModel};
use vstd::prelude::*;
use vstd::utf8::{decode_utf8, valid_utf8};

verus! {

/// What inflating the zlib stream `data` gives: the bytes, or the message of the error that
/// stops it.
pub uninterp spec fn zlib_inflate(data: Seq<u8>) -> core::result::Result<Seq<u8>, Seq<char>>;

/// `flate2::read::ZlibDecoder` over `raw`, read to the end with `std::io::Read::read_to_end`;
/// an I/O error becomes `Error::Decompress` with its message. What the decoder gives depends
/// on the input bytes alone, and the contract names it.
#[verifier::external_body]
fn zlib_decompress(raw: &[u8]) -> (r: Result<Vec<u8>>)
    ensures
        match zlib_inflate(raw@) {
            Ok(b) => r is Ok && r->Ok_0@ == b,
            Err(m) => r is Err && fails_as(r->Err_0, Failure::Inflate(m)),
        },
{
    let mut dec = flate2::read::ZlibDecoder::new(raw);
    let mut out = Vec::new();
    match std::io::Read::read_to_end(&mut dec, &mut out) {
        Ok(_) => Ok(out),
        Err(e) => Err(Error::Decompress(e.to_string())),
    }
}

/// The text of `b` when it is valid UTF-8, else the empty text.
pub open spec fn utf8_or_empty(b: Seq<u8>) -> Seq<char> {
    if valid_utf8(b) {
        decode_utf8(b)
    } else {
        seq![]
    }
}

fn text_or_empty(b: &[u8]) -> (r: String)
    ensures
        r@ == utf8_or_empty(b@),
{
    match str_from_utf8(b) {
        Some(s) => crate::text::string_of(s),
        None => String::new(),
    }
}

/// The index of the first NUL byte of `d` at or after `s`.
pub open spec fn first_nul(d: Seq<u8>, s: int) -> Option<int>
    decreases d.len() - s,
{
    if s < 0 || s >= d.len() {
        None
    } else if d[s] == 0 {
        Some(s)
    } else {
        first_nul(d, s + 1)
    }
}

pub proof fn lemma_first_nul(d: Seq<u8>, s: int)
    requires
        0 <= s,
    ensures
        first_nul(d, s) matches Some(i) ==> s <= i < d.len() && d[i] == 0,
    decreases d.len() - s,
{
    if s < d.len() && d[s] != 0 {
        lemma_first_nul(d, s + 1);
    }
}

fn find_nul(d: &[u8], s: usize) -> (r: Option<usize>)
    ensures
        match first_nul(d@, s as int) {
            Some(i) => r == Some(i as usize),
            None => r is None,
        },
{
    let n = slice_len(d);
    let mut i = s;
    while i < n
        invariant
            n == d@.len(),
            s <= i,
            first_nul(d@, s as int) == first_nul(d@, i as int),
        decreases n - i,
    {
        if d[i] == 0 {
            return Some(i);
        }
        i += 1;
    }
    None
}

/// The tag of the textual keyword `kw` with text `val`: named and grouped by the keyword's
/// table entry, else in group `PNG` under the keyword itself.
pub open spec fn png_text_tag(kw: Seq<char>, val: Seq<char>) -> TagModel {
    match first_key(png_text_table(), kw, 0) {
        Some(i) => tag(png_text_table()[i].1.group1@, png_text_table()[i].1.name@, ValueModel::Utf8(val)),
        None => tag("PNG"@, kw, ValueModel::Utf8(val)),
    }
}

fn push_png_text(meta: &mut Metadata, kw: &str, val: &str)
    ensures
        final(meta)@ == old(meta)@.push(png_text_tag(kw@, val@)),
{
    let v = crate::text::string_of(val);
    match lookup_png_text(kw) {
        Some(d) => meta.push(d.group1, d.name, Value::Utf8(v)),
        None => meta.push("PNG", kw, Value::Utf8(v)),
    }
}

/// The tags of an `IHDR` chunk, or `BadPng` when it is shorter than 13 bytes.
pub open spec fn ihdr_spec(d: Seq<u8>) -> (Seq<TagModel>, core::result::Result<(), Failure>) {
    if d.len() < 13 {
        (seq![], Err(Failure::Error(Error::BadPng)))
    } else {
        (
            seq![
                tag("PNG"@, "ImageWidth"@, ValueModel::U32(be_value(d.subrange(0, 4)) as u32)),
                tag("PNG"@, "ImageHeight"@, ValueModel::U32(be_value(d.subrange(4, 8)) as u32)),
                tag("PNG"@, "BitsPerSample"@, ValueModel::U8(d[8])),
                tag("PNG"@, "ColorType"@, ValueModel::U8(d[9])),
            ],
            Ok(()),
        )
    }
}

fn parse_ihdr(meta: &mut Metadata, d: &[u8]) -> (r: Result<()>)
    ensures
        final(meta)@ == old(meta)@ + ihdr_spec(d@).0,
        done_as(r, ihdr_spec(d@).1),
{
    let ghost meta0 = meta@;
    if slice_len(d) < 13 {
        assert(meta@ =~= meta0 + Seq::<TagModel>::empty());
        return Err(Error::BadPng);
    }
    let w = be_u32_at(d, 0);
    let h = be_u32_at(d, 4);
    meta.push("PNG", "ImageWidth", Value::U32(w));
    meta.push("PNG", "ImageHeight", Value::U32(h));
    meta.push("PNG", "BitsPerSample", Value::U8(d[8]));
    meta.push("PNG", "ColorType", Value::U8(d[9]));
    assert(meta@ =~= meta0 + ihdr_spec(d@).0);
    Ok(())
}

/// The bytes of an EXIF chunk after an optional `Exif\0\0` header.
pub open spec fn exif_chunk_body(d: Seq<u8>) -> Seq<u8> {
    if d.len() >= 6 && hdr_at(d, 0) {
        d.subrange(6, d.len() as int)
    } else {
        d
    }
}

/// The tags of an EXIF chunk: its TIFF data (inflated first when the chunk body starts with
/// a zero byte and is longer than five bytes) is read when it looks like TIFF.
pub open spec fn exif_chunk_spec(d: Seq<u8>) -> (Seq<TagModel>, core::result::Result<(), Failure>) {
    let b = exif_chunk_body(d);
    if b.len() == 0 {
        (seq![], Ok(()))
    } else {
        let t: core::result::Result<Seq<u8>, Seq<char>> = if b[0] == 0 && b.len() > 5 {
            zlib_inflate(b.subrange(5, b.len() as int))
        } else {
            Ok(b)
        };
        match t {
            Err(m) => (seq![], Err(Failure::Inflate(m))),
            Ok(tb) => if spec_looks_like_tiff(tb) {
                let x = exif_spec(tb);
                (x.0, lift(x.1))
            } else {
                (seq![], Ok(()))
            },
        }
    }
}

fn parse_exif_chunk(meta: &mut Metadata, d: &[u8]) -> (r: Result<()>)
    ensures
        final(meta)@ == old(meta)@ + exif_chunk_spec(d@).0,
        done_as(r, exif_chunk_spec(d@).1),
{
    let ghost meta0 = meta@;
    assert(meta0 =~= meta0 + Seq::<TagModel>::empty());
    let n = slice_len(d);
    let body = if n >= 6 && d[0] == 0x45 && d[1] == 0x78 && d[2] == 0x69 && d[3] == 0x66 && d[4]
        == 0 && d[5] == 0 {
        vstd::slice::slice_subrange(d, 6, n)
    } else {
        d
    };
    assert(body@ == exif_chunk_body(d@));
    let bn = slice_len(body);
    if bn == 0 {
        return Ok(());
    }
    if body[0] == 0 && bn > 5 {
        let inflated = match zlib_decompress(vstd::slice::slice_subrange(body, 5, bn)) {
            Ok(b) => b,
            Err(x) => return Err(x),
        };
        if crate::jpeg::looks_like_tiff(inflated.as_slice()) {
            let rx = parse_exif_slice(meta, inflated.as_slice());
            return match rx {
                Ok(()) => Ok(()),
                Err(x) => Err(x),
            };
        }
        return Ok(());
    }
    if crate::jpeg::looks_like_tiff(body) {
        return parse_exif_slice(meta, body);
    }
    Ok(())
}

/// The tags of a `tEXt` chunk: keyword, NUL, text (each read as UTF-8, empty when invalid).
pub open spec fn text_spec(d: Seq<u8>) -> Seq<TagModel> {
    match first_nul(d, 0) {
        None => seq![],
        Some(i) => seq![
            png_text_tag(
                utf8_or_empty(d.subrange(0, i)),
                utf8_or_empty(d.subrange(i + 1, d.len() as int)),
            ),
        ],
    }
}

fn parse_text(meta: &mut Metadata, d: &[u8]) -> (r: Result<()>)
    ensures
        final(meta)@ == old(meta)@ + text_spec(d@),
        r is Ok,
{
    let ghost meta0 = meta@;
    proof {
        lemma_first_nul(d@, 0);
    }
    let i = match find_nul(d, 0) {
        Some(i) => i,
        None => {
            assert(meta@ =~= meta0 + Seq::<TagModel>::empty());
            return Ok(());
        },
    };
    let n = slice_len(d);
    let kw = text_or_empty(vstd::slice::slice_subrange(d, 0, i));
    let val = text_or_empty(vstd::slice::slice_subrange(d, i + 1, n));
    push_png_text(meta, kw.as_str(), val.as_str());
    assert(meta@ =~= meta0 + text_spec(d@));
    Ok(())
}

/// The tags of a `zTXt` chunk: keyword, NUL, compression method (0: zlib), compressed text
/// (read lossily as UTF-8).
pub open spec fn ztxt_spec(d: Seq<u8>) -> (Seq<TagModel>, core::result::Result<(), Failure>) {
    match first_nul(d, 0) {
        None => (seq![], Ok(())),
        Some(i) => if i + 1 >= d.len() {
            (seq![], Ok(()))
        } else if d[i + 1] != 0 {
            (seq![], Err(Failure::Error(Error::Unsupported("zTXt compression"))))
        } else {
            match zlib_inflate(d.subrange(i + 2, d.len() as int)) {
                Err(m) => (seq![], Err(Failure::Inflate(m))),
                Ok(t) => (seq![png_text_tag(utf8_or_empty(d.subrange(0, i)), lossy_text(t))], Ok(())),
            }
        },
    }
}

fn parse_ztxt(meta: &mut Metadata, d: &[u8]) -> (r: Result<()>)
    ensures
        final(meta)@ == old(meta)@ + ztxt_spec(d@).0,
        done_as(r, ztxt_spec(d@).1),
{
    let ghost meta0 = meta@;
    assert(meta0 =~= meta0 + Seq::<TagModel>::empty());
    proof {
        lemma_first_nul(d@, 0);
    }
    let i = match find_nul(d, 0) {
        Some(i) => i,
        None => return Ok(()),
    };
    let n = slice_len(d);
    let kw = text_or_empty(vstd::slice::slice_subrange(d, 0, i));
    if i + 1 >= n {
        return Ok(());
    }
    if d[i + 1] != 0 {
        return Err(Error::Unsupported("zTXt compression"));
    }
    let text = match zlib_decompress(vstd::slice::slice_subrange(d, i + 2, n)) {
        Ok(t) => t,
        Err(x) => return Err(x),
    };
    let val = from_utf8_lossy(text.as_slice());
    push_png_text(meta, kw.as_str(), val.as_str());
    assert(meta@ =~= meta0 + ztxt_spec(d@).0);
    Ok(())
}

/// The tags of an `iTXt` chunk: keyword, NUL, compression flag, method, language tag, NUL,
/// translated keyword, NUL, text (inflated when the flag is set; read lossily as UTF-8).
pub open spec fn itxt_spec(d: Seq<u8>) -> (Seq<TagModel>, core::result::Result<(), Failure>) {
    match first_nul(d, 0) {
        None => (seq![], Ok(())),
        Some(i) => if d.len() - (i + 1) < 4 {
            (seq![], Ok(()))
        } else {
            match first_nul(d, i + 3) {
                None => (seq![], Ok(())),
                Some(j) => match first_nul(d, j + 1) {
                    None => (seq![], Ok(())),
                    Some(k) => {
                        let raw = d.subrange(k + 1, d.len() as int);
                        let kw = utf8_or_empty(d.subrange(0, i));
                        if d[i + 1] == 0 {
                            (seq![png_text_tag(kw, lossy_text(raw))], Ok(()))
                        } else {
                            match zlib_inflate(raw) {
                                Err(m) => (seq![], Err(Failure::Inflate(m))),
                                Ok(t) => (seq![png_text_tag(kw, lossy_text(t))], Ok(())),
                            }
                        }
                    },
                },
            }
        },
    }
}

fn parse_itxt(meta: &mut Metadata, d: &[u8]) -> (r: Result<()>)
    ensures
        final(meta)@ == old(meta)@ + itxt_spec(d@).0,
        done_as(r, itxt_spec(d@).1),
{
    let ghost meta0 = meta@;
    assert(meta0 =~= meta0 + Seq::<TagModel>::empty());
    proof {
        lemma_first_nul(d@, 0);
    }
    let i = match find_nul(d, 0) {
        Some(i) => i,
        None => return Ok(()),
    };
    let n = slice_len(d);
    let kw = text_or_empty(vstd::slice::slice_subrange(d, 0, i));
    if n - (i + 1) < 4 {
        return Ok(());
    }
    let compressed = d[i + 1];
    proof {
        lemma_first_nul(d@, i + 3);
    }
    let j = match find_nul(d, i + 3) {
        Some(j) => j,
        None => return Ok(()),
    };
    proof {
        lemma_first_nul(d@, j + 1);
    }
    let k = match find_nul(d, j + 1) {
        Some(k) => k,
        None => return Ok(()),
    };
    let raw = vstd::slice::slice_subrange(d, k + 1, n);
    let val = if compressed == 0 {
        from_utf8_lossy(raw)
    } else {
        let t = match zlib_decompress(raw) {
            Ok(t) => t,
            Err(x) => return Err(x),
        };
        from_utf8_lossy(t.as_slice())
    };
    push_png_text(meta, kw.as_str(), val.as_str());
    assert(meta@ =~= meta0 + itxt_spec(d@).0);
    Ok(())
}

} // verus!

verus! {

/// The tags of a chunk of type `t` with data `d`, and the outcome.
pub open spec fn chunk_spec(t: Seq<u8>, d: Seq<u8>) -> (Seq<TagModel>, core::result::Result<(), Failure>) {
    let c = code_of(t);
    if c == IHDR {
        ihdr_spec(d)
    } else if c == EXIF || c == ZXIF {
        exif_chunk_spec(d)
    } else if c == TEXT {
        (text_spec(d), Ok(()))
    } else if c == ZTXT {
        ztxt_spec(d)
    } else if c == ITXT {
        itxt_spec(d)
    } else {
        (seq![], Ok(()))
    }
}

/// The tags of the chunks from offset `p` on, up to `IEND`, and the outcome.
pub open spec fn png_tags(d: Seq<u8>, p: int) -> (Seq<TagModel>, core::result::Result<(), Failure>)
    decreases d.len() - p,
{
    if p < 0 || p + 8 > d.len() {
        (seq![], Ok(()))
    } else {
        let clen = be_value(d.subrange(p, p + 4));
        let t = d.subrange(p + 4, p + 8);
        let dend = p + 8 + clen;
        if dend > usize::MAX {
            (seq![], Err(Failure::Error(Error::BadPng)))
        } else if dend + 4 > d.len() {
            (seq![], Err(Failure::Error(Error::Truncated)))
        } else {
            let c = chunk_spec(t, d.subrange(p + 8, dend));
            match c.1 {
                Err(f) => (c.0, Err(f)),
                Ok(()) => if code_of(t) == IEND {
                    (c.0, Ok(()))
                } else {
                    let rest = png_tags(d, dend + 4);
                    (c.0 + rest.0, rest.1)
                },
            }
        }
    }
}

/// The tags that reading the PNG `d` adds, and the outcome.
pub open spec fn png_spec(d: Seq<u8>) -> (Seq<TagModel>, core::result::Result<(), Failure>) {
    if !starts_with(d, png_signature()) {
        (seq![], Err(Failure::Error(Error::BadPng)))
    } else {
        png_tags(d, 8)
    }
}

/// Reads the header, EXIF and textual chunks of a PNG into `meta`. Tags read before an error
/// stay in `meta`.
pub fn parse(meta: &mut Metadata, data: &[u8]) -> (r: Result<()>)
    ensures
        final(meta)@ == old(meta)@ + png_spec(data@).0,
        done_as(r, png_spec(data@).1),
{
    let ghost meta0 = meta@;
    assert(meta0 =~= meta0 + Seq::<TagModel>::empty());
    let n = slice_len(data);
    let sig: [u8; 8] = [0x89, 0x50, 0x4e, 0x47, 0x0d, 0x0a, 0x1a, 0x0a];
    assert(sig@ =~= png_signature());
    if n < 8 || !has_prefix(data, &sig) {
        return Err(Error::BadPng);
    }
    let mut p: usize = 8;
    let ghost mut added: Seq<TagModel> = Seq::empty();
    assert(added + png_tags(data@, 8).0 =~= png_tags(data@, 8).0);
    while p + 8 <= n
        invariant
            n == data@.len() <= isize::MAX,
            8 <= p <= n,
            starts_with(data@, png_signature()),
            meta0 == old(meta)@,
            meta@ == meta0 + added,
            png_spec(data@).0 == added + png_tags(data@, p as int).0,
            png_spec(data@).1 == png_tags(data@, p as int).1,
        decreases n - p,
    {
        let ghost added_p = added;
        let ghost meta_p = meta@;
        let len = be_u32_at(data, p) as usize;
        let typ: [u8; 4] = [data[p + 4], data[p + 5], data[p + 6], data[p + 7]];
        assert(typ@ =~= data@.subrange(p + 4, p + 8));
        let dstart = p + 8;
        let dend = match dstart.checked_add(len) {
            Some(x) => x,
            None => {
                assert(meta@ =~= meta0 + (added_p + Seq::<TagModel>::empty()));
                return Err(Error::BadPng);
            },
        };
        if dend > n || n - dend < 4 {
            assert(meta@ =~= meta0 + (added_p + Seq::<TagModel>::empty()));
            return Err(Error::Truncated);
        }
        let chunk_data = vstd::slice::slice_subrange(data, dstart, dend);
        let c = code(&typ);
        let rc = if c == IHDR {
            parse_ihdr(meta, chunk_data)
        } else if c == EXIF || c == ZXIF {
            parse_exif_chunk(meta, chunk_data)
        } else if c == TEXT {
            parse_text(meta, chunk_data)
        } else if c == ZTXT {
            parse_ztxt(meta, chunk_data)
        } else if c == ITXT {
            parse_itxt(meta, chunk_data)
        } else {
            assert(meta@ =~= meta_p + Seq::<TagModel>::empty());
            Ok(())
        };
        let ghost cs = chunk_spec(typ@, chunk_data@);
        assert(meta@ == meta_p + cs.0);
        assert(done_as(rc, cs.1));
        match rc {
            Ok(()) => {},
            Err(x) => {
                assert(meta@ =~= meta0 + (added_p + cs.0));
                return Err(x);
            },
        }
        p = dend + 4;
        if c == IEND {
            assert(meta@ =~= meta0 + (added_p + cs.0));
            return Ok(());
        }
        proof {
            let rest = png_tags(data@, p as int);
            assert(added_p + (cs.0 + rest.0) =~= (added_p + cs.0) + rest.0);
            added = added_p + cs.0;
            assert(meta@ =~= meta0 + added);
        }
    }
    assert(added + Seq::<TagModel>::empty() =~= added);
    Ok(())
}

} // verus!

verus! {

/// A chunk: its type and its data.
pub type Chunk = (Seq<u8>, Seq<u8>);

/// The chunks of a PNG from offset `p` on, each with a matching CRC; the walk ends where no
/// further chunk header fits.
pub open spec fn png_chunks(d: Seq<u8>, p: int) -> Result<Seq<Chunk>>
    decreases d.len() - p,
{
    if p < 0 || p + 8 > d.len() {
        Ok(seq![])
    } else {
        let clen = be_value(d.subrange(p, p + 4));
        let t = d.subrange(p + 4, p + 8);
        let dend = p + 8 + clen;
        if dend > usize::MAX {
            Err(Error::BadPng)
        } else if dend + 4 > d.len() {
            Err(Error::Truncated)
        } else if crc32(t + d.subrange(p + 8, dend)) != be_value(d.subrange(dend, dend + 4)) {
            Err(Error::BadPng)
        } else {
            match png_chunks(d, dend + 4) {
                Ok(r) => Ok(seq![(t, d.subrange(p + 8, dend))] + r),
                Err(x) => Err(x),
            }
        }
    }
}

/// The chunks that the options `o` keep.
pub open spec fn chunk_kept_by(o: StripOptions) -> spec_fn(Chunk) -> bool {
    |c: Chunk| spec_keep_chunk(c.0, o)
}

proof fn lemma_walk_chunks(d: Seq<u8>, p: int, o: StripOptions, a: Seq<u8>)
    requires
        0 <= p <= d.len(),
        a.len() + (d.len() - p) <= usize::MAX,
        png_walk(d, p, o) is Ok,
    ensures
        png_chunks(d, p) matches Ok(cs) && (png_chunks(a + png_walk(d, p, o)->Ok_0.0, a.len() as int)
            == Ok::<Seq<Chunk>, Error>(cs.filter(chunk_kept_by(o)))),
    decreases d.len() - p,
{
    let s = png_walk(d, p, o)->Ok_0.0;
    let x = a + s;
    let k = a.len() as int;
    if p + 8 > d.len() {
        assert(x =~= a);
        assert(Seq::<Chunk>::empty().filter(chunk_kept_by(o)) =~= Seq::<Chunk>::empty());
    } else {
        let clen = be_value(d.subrange(p, p + 4));
        let t = d.subrange(p + 4, p + 8);
        let dend = p + 8 + clen;
        let c: Chunk = (t, d.subrange(p + 8, dend));
        lemma_png_walk_len(d, dend + 4, o);
        let rest = png_chunks(d, dend + 4)->Ok_0;
        if spec_keep_chunk(t, o) {
            let a2 = a + d.subrange(p, dend + 4);
            lemma_walk_chunks(d, dend + 4, o, a2);
            let s2 = png_walk(d, dend + 4, o)->Ok_0.0;
            assert(x =~= a2 + s2);
            assert(x.subrange(k, k + 4) =~= d.subrange(p, p + 4));
            assert(x.subrange(k + 4, k + 8) =~= t);
            assert(x.subrange(k + 8, k + 8 + clen) =~= d.subrange(p + 8, dend));
            assert(x.subrange(k + 8 + clen, k + 12 + clen) =~= d.subrange(dend, dend + 4));
            assert((seq![c] + rest).filter(chunk_kept_by(o)) =~= seq![c] + rest.filter(chunk_kept_by(o))) by {
                Seq::filter_distributes_over_add(seq![c], rest, chunk_kept_by(o));
                reveal_with_fuel(Seq::filter, 2);
                assert(seq![c].drop_last() =~= Seq::<Chunk>::empty());
            }
        } else {
            lemma_walk_chunks(d, dend + 4, o, a);
            assert((seq![c] + rest).filter(chunk_kept_by(o)) =~= rest.filter(chunk_kept_by(o))) by {
                Seq::filter_distributes_over_add(seq![c], rest, chunk_kept_by(o));
                reveal_with_fuel(Seq::filter, 2);
                assert(seq![c].drop_last() =~= Seq::<Chunk>::empty());
            }
        }
    }
}

/// Stripping keeps exactly the chunks that the options keep: the chunks of the stripped PNG
/// are those of the input that `spec_keep_chunk` keeps, in order, with their data (and
/// `IHDR` among them). No EXIF, textual, time or other metadata chunk is left.
pub proof fn lemma_strip_keeps_kept_chunks(d: Seq<u8>, o: StripOptions)
    requires
        d.len() <= usize::MAX,
    ensures
        spec_png_strip(d, o) matches Ok(s) ==> (png_chunks(d, 8) matches Ok(cs) && png_chunks(s, 8)
            == Ok::<Seq<Chunk>, Error>(cs.filter(chunk_kept_by(o)))),
        spec_png_strip(d, o) matches Ok(s) ==> (png_chunks(s, 8) matches Ok(ss) && forall|i: int|
            0 <= i < ss.len() ==> !is_metadata_chunk(code_of(#[trigger] ss[i].0))),
{
    if let Ok(s) = spec_png_strip(d, o) {
        lemma_walk_chunks(d, 8, o, d.subrange(0, 8));
        let cs = png_chunks(d, 8)->Ok_0;
        let ss = cs.filter(chunk_kept_by(o));
        assert forall|i: int| 0 <= i < ss.len() implies !is_metadata_chunk(code_of(#[trigger] ss[i].0)) by {
            Seq::lemma_filter_pred(cs, chunk_kept_by(o), i);
        }
    }
}

} // verus!
