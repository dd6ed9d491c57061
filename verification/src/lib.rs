//! Read-only metadata extraction and metadata stripping for JPEG, TIFF, PNG and
//! ISO BMFF (QuickTime / MP4 / HEIC) files.
pub mod bebytes;
pub mod bmff;
pub mod byteorder;
pub mod detect;
pub mod error;
pub mod format;
pub mod fourcc;
pub mod gps;
pub mod iso6709;
pub mod jpeg;
pub mod jpeg_strip;
pub mod metadata;
pub mod png;
pub mod png_strip;
pub mod printconv;
pub mod qt;
pub mod qt_strip;
pub mod qt_tags;
pub mod tables;
pub mod tag_def;
pub mod text;
pub mod tiff;
pub mod util;
pub mod value;

pub use bmff::{read_box, BmffBox};
pub use byteorder::{read_i16, read_i32, read_i64, read_u16, read_u32, read_u64, Endian};
pub use detect::{detect, FileType};
pub use error::{Error, Failure, Result};
pub use metadata::{Metadata, TagRecord};
pub use value::Value;
pub use format::Format;


use vstd::prelude::*;

verus! {

/// Options for `strip_metadata`, mirroring a subset of `exiftool -all=` and common keep-flags.
#[derive(Debug, Clone, Copy)]
pub struct StripOptions {
    /// Keep ICC profile: JPEG `APP2` ICC, PNG `iCCP`, and HEIC `colr` in `ipco` when set.
    pub keep_icc: bool,
    /// Keep color-related ancillaries: PNG `gAMA`, `cHRM`, `sRGB`, `tRNS`, `bKGD`, …
    pub keep_color_info: bool,
    /// Keep JPEG JFIF `APP0` segment.
    pub keep_jfif: bool,
    /// When set, do not write a sidecar `*_original` when stripping a file in place.
    pub overwrite_original: bool,
}

impl Default for StripOptions {
    /// Match aggressive `exiftool -all=` (strip ICC, JFIF, and color aux).
    fn default() -> (r: Self)
        ensures
            !r.keep_icc,
            !r.keep_color_info,
            !r.keep_jfif,
            !r.overwrite_original,
    {
        StripOptions {
            keep_icc: false,
            keep_color_info: false,
            keep_jfif: false,
            overwrite_original: false,
        }
    }
}

/// Every keep-option set in `o1` is set in `o2` too.
pub open spec fn keeps_at_most(o1: StripOptions, o2: StripOptions) -> bool {
    &&& o1.keep_icc ==> o2.keep_icc
    &&& o1.keep_color_info ==> o2.keep_color_info
    &&& o1.keep_jfif ==> o2.keep_jfif
}

/// What `strip_metadata` gives for `bytes`: the stripper of the detected format; TIFF is
/// not supported.
pub open spec fn spec_strip_metadata(bytes: Seq<u8>, opts: StripOptions) -> Result<Seq<u8>> {
    match detect::spec_detect(bytes) {
        Err(x) => Err(x),
        Ok(FileType::Jpeg) => jpeg_strip::spec_jpeg_strip(bytes, opts),
        Ok(FileType::Png) => png_strip::spec_png_strip(bytes, opts),
        Ok(FileType::Qt) => qt_strip::spec_qt_strip(bytes, opts),
        Ok(FileType::Tiff) => Err(Error::Unsupported("TIFF strip")),
    }
}

/// Stripping never makes a file longer. For an ISO BMFF file this holds when the boxes that
/// the HEIF `meta` filter keeps lie within their parent boxes.
pub proof fn lemma_strip_never_grows(d: Seq<u8>, o: StripOptions)
    requires
        detect::spec_detect(d) matches Ok(FileType::Qt) && qt_strip::ftyp_scan(d, 0).0
            ==> qt_strip::heif_meta_fits(d, 0, o),
    ensures
        spec_strip_metadata(d, o) matches Ok(s) ==> s.len() <= d.len(),
{
    jpeg_strip::lemma_jpeg_strip_shrinks(d, o);
    png_strip::lemma_png_strip_shrinks(d, o);
    if detect::spec_detect(d) matches Ok(FileType::Qt) {
        qt_strip::lemma_qt_strip_shrinks(d, o);
    }
}

/// Stripping a stripped file again with the same options changes nothing.
/// - For a JPEG this holds when the walk to the Start Of Scan meets no fill bytes (with fill
///   bytes a kept segment is cut short).
/// - For an ISO BMFF file it holds when the stripped file is again detected as one, the
///   boxes kept inside a HEIF `meta` lie within their parent boxes (a kept child whose size
///   field is 0 reaches past its parent and takes in more on each pass), and the first strip
///   did not move the first `mdat`, so that it patched no offsets.
pub proof fn lemma_strip_idempotent(d: Seq<u8>, o: StripOptions)
    requires
        d.len() <= usize::MAX,
        spec_strip_metadata(d, o) is Ok,
        detect::spec_detect(d) matches Ok(FileType::Jpeg) ==> jpeg::walk_fill_free(d, 2),
        detect::spec_detect(d) matches Ok(FileType::Qt) ==> {
            let heic = qt_strip::ftyp_scan(d, 0).0;
            &&& heic ==> qt_strip::heif_meta_fits(d, 0, o)
            &&& qt_strip::filter_top_spec(d, heic, o) is Ok
            &&& qt_strip::mdat_shift(
                qt_strip::mdat_scan(d, 0),
                qt_strip::mdat_scan(qt_strip::filter_top_spec(d, heic, o)->Ok_0, 0),
            ) == 0
            &&& detect::spec_detect(spec_strip_metadata(d, o)->Ok_0) matches Ok(FileType::Qt)
        },
    ensures
        spec_strip_metadata(spec_strip_metadata(d, o)->Ok_0, o) == spec_strip_metadata(d, o),
{
    if detect::spec_detect(d) matches Ok(FileType::Jpeg) {
        let s = jpeg_strip::spec_jpeg_strip(d, o)->Ok_0;
        jpeg_strip::lemma_jpeg_strip_idempotent(d, o);
        jpeg_strip::lemma_jpeg_strip_redetects(d, o);
        assert(spec_strip_metadata(s, o) == jpeg_strip::spec_jpeg_strip(s, o));
    } else if detect::spec_detect(d) matches Ok(FileType::Png) {
        let s = png_strip::spec_png_strip(d, o)->Ok_0;
        png_strip::lemma_png_strip_idempotent(d, o);
        png_strip::lemma_png_strip_redetects(d, o);
        assert(spec_strip_metadata(s, o) == png_strip::spec_png_strip(s, o));
    } else if detect::spec_detect(d) matches Ok(FileType::Qt) {
        let s = qt_strip::spec_qt_strip(d, o)->Ok_0;
        qt_strip::lemma_qt_strip_idempotent_unmoved(d, o);
        assert(spec_strip_metadata(s, o) == qt_strip::spec_qt_strip(s, o));
    }
}

/// Setting more keep-options keeps more: the file stripped with `o1` is never longer than
/// the one stripped with `o2`, and for a JPEG or a PNG it is a subsequence of it (every
/// segment or chunk kept under `o1` is kept under `o2`, in the same order).
pub proof fn lemma_strip_keeps_more(d: Seq<u8>, o1: StripOptions, o2: StripOptions)
    requires
        keeps_at_most(o1, o2),
        spec_strip_metadata(d, o1) is Ok,
        spec_strip_metadata(d, o2) is Ok,
    ensures
        spec_strip_metadata(d, o1)->Ok_0.len() <= spec_strip_metadata(d, o2)->Ok_0.len(),
        (detect::spec_detect(d) matches Ok(FileType::Jpeg) || detect::spec_detect(d) matches Ok(FileType::Png))
            ==> util::is_subseq(spec_strip_metadata(d, o1)->Ok_0, spec_strip_metadata(d, o2)->Ok_0),
{
    match detect::spec_detect(d) {
        Ok(FileType::Jpeg) => {
            jpeg_strip::lemma_jpeg_strip_keeps_more(d, o1, o2);
            util::lemma_subseq_len(spec_strip_metadata(d, o1)->Ok_0, spec_strip_metadata(d, o2)->Ok_0);
        },
        Ok(FileType::Png) => {
            png_strip::lemma_png_strip_keeps_more(d, o1, o2);
            util::lemma_subseq_len(spec_strip_metadata(d, o1)->Ok_0, spec_strip_metadata(d, o2)->Ok_0);
        },
        Ok(FileType::Qt) => {
            qt_strip::lemma_qt_strip_keeps_more(d, o1, o2);
        },
        _ => {},
    }
}

/// The tags of a reader's outcome when it succeeded, or its error.
pub open spec fn outcome_tags(o: (Seq<metadata::TagModel>, Result<()>)) -> core::result::Result<Seq<metadata::TagModel>, Failure> {
    match o.1 {
        Ok(()) => Ok(o.0),
        Err(x) => Err(Failure::Error(x)),
    }
}

/// What `extract` gives for `bytes`: the tags of the reader of the detected format, or how
/// it failed.
pub open spec fn spec_extract(bytes: Seq<u8>) -> core::result::Result<Seq<metadata::TagModel>, Failure> {
    match detect::spec_detect(bytes) {
        Err(x) => Err(Failure::Error(x)),
        Ok(FileType::Jpeg) => outcome_tags(jpeg::jpeg_spec(bytes)),
        Ok(FileType::Tiff) => outcome_tags(tiff::exif_spec(bytes)),
        Ok(FileType::Png) => {
            let p = png::png_spec(bytes);
            match p.1 {
                Ok(()) => Ok(p.0),
                Err(f) => Err(f),
            }
        },
        Ok(FileType::Qt) => outcome_tags(qt::qt_spec(bytes)),
    }
}

/// Reads the metadata of a JPEG, TIFF, PNG or ISO BMFF file.
pub fn extract(bytes: &[u8]) -> (r: Result<Metadata>)
    ensures
        match spec_extract(bytes@) {
            Ok(t) => r matches Ok(m) && m@ == t,
            Err(f) => r matches Err(e) && error::fails_as(e, f),
        },
{
    let mut meta = Metadata::default();
    let ghost m0 = meta@;
    let rc = match detect::detect(bytes) {
        Err(x) => return Err(x),
        Ok(FileType::Jpeg) => jpeg::parse(&mut meta, bytes),
        Ok(FileType::Tiff) => tiff::parse_exif_slice(&mut meta, bytes),
        Ok(FileType::Png) => png::parse(&mut meta, bytes),
        Ok(FileType::Qt) => qt::parse(&mut meta, bytes),
    };
    assert(meta@ =~= m0 + meta@);
    match rc {
        Ok(()) => Ok(meta),
        Err(x) => Err(x),
    }
}

/// Remove metadata; returns new bytes. TIFF is not supported in this version.
pub fn strip_metadata(bytes: &[u8], opts: &StripOptions) -> (r: Result<Vec<u8>>)
    ensures
        util::res_bytes(r) == spec_strip_metadata(bytes@, *opts),
{
    match detect::detect(bytes) {
        Err(x) => Err(x),
        Ok(FileType::Jpeg) => jpeg_strip::strip(bytes, opts),
        Ok(FileType::Png) => png_strip::strip(bytes, opts),
        Ok(FileType::Qt) => qt_strip::strip(bytes, opts),
        Ok(FileType::Tiff) => Err(Error::Unsupported("TIFF strip")),
    }
}

} // verus!
