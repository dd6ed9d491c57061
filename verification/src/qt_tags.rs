//! Tables for ISO BMFF / QuickTime: file type from brands, and tag names of `udta`, `ilst`
//! and Apple `keys` entries (a subset of ExifTool's).
use crate::fourcc::{code, code_of};
use crate::text::{chars_of, from_utf8_lossy, str_eq, string_of, trim_end_spec, trim_spec, trim_with, lossy_text, TrimSet};
use vstd::prelude::*;

verus! {

pub const NAM: u32 = 0xa96e616d;
pub const NAM2: u32 = 0x6e616d20;
pub const ART: u32 = 0xa9415254;
pub const AUT: u32 = 0xa9617574;
pub const ARTS: u32 = 0x41525420;
pub const WRT: u32 = 0xa9777274;
pub const ALB: u32 = 0xa9616c62;
pub const ALBM: u32 = 0x616c626d;
pub const DAY: u32 = 0xa9646179;
pub const CMT: u32 = 0xa9636d74;
pub const DESC: u32 = 0x64657363;
pub const CPY: u32 = 0xa9637079;
pub const CPY2: u32 = 0x63707920;
pub const COPY: u32 = 0x636f7079;
pub const XYZ: u32 = 0xa978797a;
pub const XYZ2: u32 = 0x78797a20;
pub const MAK: u32 = 0xa96d616b;
pub const MOD: u32 = 0xa96d6f64;
pub const SWR: u32 = 0xa9737772;
pub const TOOL: u32 = 0x746f6f6c;
pub const TOO: u32 = 0x746f6f20;
pub const ATOO: u32 = 0xa9746f6f;
pub const SOFT: u32 = 0x736f6674;
pub const GEN: u32 = 0xa967656e;
pub const AART: u32 = 0x61415254;
pub const CPRT: u32 = 0x63707274;
pub const ARTS2: u32 = 0x61727473;
pub const PERF: u32 = 0x70657266;

/// Group and name of a classic `udta` atom, by its code.
pub open spec fn udta_atom_spec(c: nat) -> Option<(&'static str, &'static str)> {
    if c == NAM || c == NAM2 {
        Some(("QuickTime", "Title"))
    } else if c == ART || c == AUT || c == ARTS || c == ARTS2 || c == PERF {
        Some(("QuickTime", "Artist"))
    } else if c == WRT {
        Some(("QuickTime", "Composer"))
    } else if c == ALB || c == ALBM {
        Some(("QuickTime", "Album"))
    } else if c == DAY {
        Some(("QuickTime", "DateTimeOriginal"))
    } else if c == CMT || c == DESC {
        Some(("QuickTime", "Comment"))
    } else if c == CPY || c == CPY2 || c == COPY {
        Some(("QuickTime", "Copyright"))
    } else if c == XYZ || c == XYZ2 {
        Some(("QuickTime", "GPSCoordinates"))
    } else if c == MAK {
        Some(("IFD0", "Make"))
    } else if c == MOD {
        Some(("IFD0", "Model"))
    } else if c == SWR || c == TOOL || c == TOO || c == ATOO || c == SOFT {
        Some(("IFD0", "Software"))
    } else if c == GEN {
        Some(("QuickTime", "Genre"))
    } else {
        None
    }
}

/// Map classic `udta` 4cc to (group, name).
pub fn classic_udta_atom(kind: &[u8; 4]) -> (r: Option<(&'static str, &'static str)>)
    ensures
        r == udta_atom_spec(code_of(kind@)),
{
    let c = code(kind);
    if c == NAM || c == NAM2 {
        Some(("QuickTime", "Title"))
    } else if c == ART || c == AUT || c == ARTS || c == ARTS2 || c == PERF {
        Some(("QuickTime", "Artist"))
    } else if c == WRT {
        Some(("QuickTime", "Composer"))
    } else if c == ALB || c == ALBM {
        Some(("QuickTime", "Album"))
    } else if c == DAY {
        Some(("QuickTime", "DateTimeOriginal"))
    } else if c == CMT || c == DESC {
        Some(("QuickTime", "Comment"))
    } else if c == CPY || c == CPY2 || c == COPY {
        Some(("QuickTime", "Copyright"))
    } else if c == XYZ || c == XYZ2 {
        Some(("QuickTime", "GPSCoordinates"))
    } else if c == MAK {
        Some(("IFD0", "Make"))
    } else if c == MOD {
        Some(("IFD0", "Model"))
    } else if c == SWR || c == TOOL || c == TOO || c == ATOO || c == SOFT {
        Some(("IFD0", "Software"))
    } else if c == GEN {
        Some(("QuickTime", "Genre"))
    } else {
        None
    }
}

/// Group and name of an iTunes `ilst` item, by its code.
pub open spec fn ilst_atom_spec(c: nat) -> Option<(&'static str, &'static str)> {
    if c == NAM || c == NAM2 {
        Some(("QuickTime", "Title"))
    } else if c == ART || c == AART || c == ARTS {
        Some(("QuickTime", "Artist"))
    } else if c == ALB || c == ALBM {
        Some(("QuickTime", "Album"))
    } else if c == DAY {
        Some(("QuickTime", "DateTimeOriginal"))
    } else if c == CMT || c == DESC {
        Some(("QuickTime", "Comment"))
    } else if c == CPY || c == CPRT || c == COPY {
        Some(("QuickTime", "Copyright"))
    } else if c == WRT {
        Some(("QuickTime", "Composer"))
    } else if c == MAK {
        Some(("IFD0", "Make"))
    } else if c == MOD {
        Some(("IFD0", "Model"))
    } else if c == TOO || c == TOOL || c == SWR {
        Some(("IFD0", "Software"))
    } else if c == GEN {
        Some(("QuickTime", "Genre"))
    } else {
        None
    }
}

/// iTunes/ilst sub-box 4cc → (group, name) for `data` value.
pub fn ilst_data_atom(kind: &[u8; 4]) -> (r: Option<(&'static str, &'static str)>)
    ensures
        r == ilst_atom_spec(code_of(kind@)),
{
    let c = code(kind);
    if c == NAM || c == NAM2 {
        Some(("QuickTime", "Title"))
    } else if c == ART || c == AART || c == ARTS {
        Some(("QuickTime", "Artist"))
    } else if c == ALB || c == ALBM {
        Some(("QuickTime", "Album"))
    } else if c == DAY {
        Some(("QuickTime", "DateTimeOriginal"))
    } else if c == CMT || c == DESC {
        Some(("QuickTime", "Comment"))
    } else if c == CPY || c == CPRT || c == COPY {
        Some(("QuickTime", "Copyright"))
    } else if c == WRT {
        Some(("QuickTime", "Composer"))
    } else if c == MAK {
        Some(("IFD0", "Make"))
    } else if c == MOD {
        Some(("IFD0", "Model"))
    } else if c == TOO || c == TOOL || c == SWR {
        Some(("IFD0", "Software"))
    } else if c == GEN {
        Some(("QuickTime", "Genre"))
    } else {
        None
    }
}

/// Group and name of an Apple `meta/keys` reverse-DNS key.
pub open spec fn apple_key_spec(key: Seq<char>) -> Option<(&'static str, &'static str)> {
    if key == "com.apple.quicktime.make"@ {
        Some(("IFD0", "Make"))
    } else if key == "com.apple.quicktime.model"@ {
        Some(("IFD0", "Model"))
    } else if key == "com.apple.quicktime.software"@ {
        Some(("IFD0", "Software"))
    } else if key == "com.apple.quicktime.creationdate"@ {
        Some(("QuickTime", "CreateDate"))
    } else if key == "com.apple.quicktime.location.name"@ {
        Some(("QuickTime", "LocationName"))
    } else if key == "com.apple.quicktime.location.body"@ {
        Some(("QuickTime", "LocationBody"))
    } else if key == "com.apple.quicktime.location.note"@ {
        Some(("QuickTime", "LocationNote"))
    } else if key == "com.apple.quicktime.location.ISO6709"@ {
        Some(("QuickTime", "GPSCoordinates"))
    } else if key == "com.apple.quicktime.description"@ {
        Some(("QuickTime", "Description"))
    } else if key == "com.apple.quicktime.title"@ {
        Some(("QuickTime", "Title"))
    } else if key == "com.apple.quicktime.artist"@ {
        Some(("QuickTime", "Artist"))
    } else if key == "com.apple.quicktime.album"@ {
        Some(("QuickTime", "Album"))
    } else if key == "com.apple.quicktime.copyright"@ {
        Some(("QuickTime", "Copyright"))
    } else if key == "com.apple.quicktime.owner"@ {
        Some(("QuickTime", "Owner"))
    } else if key == "com.apple.quicktime.author"@ {
        Some(("QuickTime", "Author"))
    } else if key == "com.apple.quicktime.displayname"@ {
        Some(("QuickTime", "DisplayName"))
    } else if key == "com.apple.quicktime.category"@ {
        Some(("QuickTime", "Category"))
    } else if key == "com.apple.quicktime.keywords"@ {
        Some(("QuickTime", "KeywordList"))
    } else {
        None
    }
}

/// Apple `meta/keys` reverse-DNS key → (group, name).
pub fn apple_meta_key(key: &str) -> (r: Option<(&'static str, &'static str)>)
    ensures
        r == apple_key_spec(key@),
{
    if str_eq(key, "com.apple.quicktime.make") {
        Some(("IFD0", "Make"))
    } else if str_eq(key, "com.apple.quicktime.model") {
        Some(("IFD0", "Model"))
    } else if str_eq(key, "com.apple.quicktime.software") {
        Some(("IFD0", "Software"))
    } else if str_eq(key, "com.apple.quicktime.creationdate") {
        Some(("QuickTime", "CreateDate"))
    } else if str_eq(key, "com.apple.quicktime.location.name") {
        Some(("QuickTime", "LocationName"))
    } else if str_eq(key, "com.apple.quicktime.location.body") {
        Some(("QuickTime", "LocationBody"))
    } else if str_eq(key, "com.apple.quicktime.location.note") {
        Some(("QuickTime", "LocationNote"))
    } else if str_eq(key, "com.apple.quicktime.location.ISO6709") {
        Some(("QuickTime", "GPSCoordinates"))
    } else if str_eq(key, "com.apple.quicktime.description") {
        Some(("QuickTime", "Description"))
    } else if str_eq(key, "com.apple.quicktime.title") {
        Some(("QuickTime", "Title"))
    } else if str_eq(key, "com.apple.quicktime.artist") {
        Some(("QuickTime", "Artist"))
    } else if str_eq(key, "com.apple.quicktime.album") {
        Some(("QuickTime", "Album"))
    } else if str_eq(key, "com.apple.quicktime.copyright") {
        Some(("QuickTime", "Copyright"))
    } else if str_eq(key, "com.apple.quicktime.owner") {
        Some(("QuickTime", "Owner"))
    } else if str_eq(key, "com.apple.quicktime.author") {
        Some(("QuickTime", "Author"))
    } else if str_eq(key, "com.apple.quicktime.displayname") {
        Some(("QuickTime", "DisplayName"))
    } else if str_eq(key, "com.apple.quicktime.category") {
        Some(("QuickTime", "Category"))
    } else if str_eq(key, "com.apple.quicktime.keywords") {
        Some(("QuickTime", "KeywordList"))
    } else {
        None
    }
}

/// File type and MIME type of a brand given as text, when the brand is known.
pub open spec fn brand_spec(s: Seq<char>, byte_len: nat) -> Option<(Seq<char>, Seq<char>)> {
    if s == "qt"@ || s == "MOV"@ {
        Some(("MOV"@, "video/quicktime"@))
    } else if s == "M4A"@ || s == "M4B"@ || s == "F4A"@ || s == "F4B"@ || s == "M4P"@ || s == "F4P"@ || s == "isom"@ || s == "iso2"@ || s == "mp41"@ || s == "mp42"@ || s == "avc1"@ || s == "dash"@ || s == "dsms"@ || s == "dby1"@ || s == "Cdmv"@ || s == "Cmov"@ {
        Some(("MP4"@, "video/mp4"@))
    } else if s == "M4V"@ || s == "F4V"@ || s == "mmp4"@ {
        Some(("M4V"@, "video/x-m4v"@))
    } else if s == "heic"@ || s == "mif1"@ || s == "heix"@ || s == "heis"@ || s == "hevm"@ || s == "mif0"@ || s == "heio"@ || s == "msf0"@ || s == "ihev"@ {
        Some(("HEIC"@, "image/heic"@))
    } else if s == "3gp"@ || s == "3g2"@ || s == "3G2"@ || s == "3G6"@ || s == "3ge"@ || s == "3gg"@ || s == "3gr"@ || s == "3gs"@ || s == "3gh"@ || s == "3gp1"@ || s == "3gp2"@ || s == "3gp4"@ || s == "3gp5"@ || s == "3gp6"@ || s == "3g24"@ || s == "3gg6"@ || s == "3gs7"@ || s == "3gs8"@ || s == "3gs9"@ || s == "3gdd"@ || s == "3g2a"@ {
        Some(("3GPP"@, "video/3gpp"@))
    } else if s == "jp2"@ || s == "jpx"@ || s == "jpm"@ {
        Some(("JP2"@, "image/jp2"@))
    } else if byte_len == 4 && s.len() > 0 && s[0] == '3' {
        Some(("3GPP"@, "video/3gpp"@))
    } else {
        None
    }
}

/// File type and MIME type of a known brand text.
fn brand_of(s: &str) -> (r: Option<(&'static str, &'static str)>)
    ensures
        match brand_spec(s@, utf8_len(s@)) {
            Some((t, m)) => r matches Some((a, b)) && a@ == t && b@ == m,
            None => r is None,
        },
{
    if str_eq(s, "qt") || str_eq(s, "MOV") {
        Some(("MOV", "video/quicktime"))
    } else if str_eq(s, "M4A") || str_eq(s, "M4B") || str_eq(s, "F4A") || str_eq(s, "F4B") || str_eq(s, "M4P") || str_eq(s, "F4P") || str_eq(s, "isom") || str_eq(s, "iso2") || str_eq(s, "mp41") || str_eq(s, "mp42") || str_eq(s, "avc1") || str_eq(s, "dash") || str_eq(s, "dsms") || str_eq(s, "dby1") || str_eq(s, "Cdmv") || str_eq(s, "Cmov") {
        Some(("MP4", "video/mp4"))
    } else if str_eq(s, "M4V") || str_eq(s, "F4V") || str_eq(s, "mmp4") {
        Some(("M4V", "video/x-m4v"))
    } else if str_eq(s, "heic") || str_eq(s, "mif1") || str_eq(s, "heix") || str_eq(s, "heis") || str_eq(s, "hevm") || str_eq(s, "mif0") || str_eq(s, "heio") || str_eq(s, "msf0") || str_eq(s, "ihev") {
        Some(("HEIC", "image/heic"))
    } else if str_eq(s, "3gp") || str_eq(s, "3g2") || str_eq(s, "3G2") || str_eq(s, "3G6") || str_eq(s, "3ge") || str_eq(s, "3gg") || str_eq(s, "3gr") || str_eq(s, "3gs") || str_eq(s, "3gh") || str_eq(s, "3gp1") || str_eq(s, "3gp2") || str_eq(s, "3gp4") || str_eq(s, "3gp5") || str_eq(s, "3gp6") || str_eq(s, "3g24") || str_eq(s, "3gg6") || str_eq(s, "3gs7") || str_eq(s, "3gs8") || str_eq(s, "3gs9") || str_eq(s, "3gdd") || str_eq(s, "3g2a") {
        Some(("3GPP", "video/3gpp"))
    } else if str_eq(s, "jp2") || str_eq(s, "jpx") || str_eq(s, "jpm") {
        Some(("JP2", "image/jp2"))
    } else if starts_with_3_and_four_bytes(s) {
        Some(("3GPP", "video/3gpp"))
    } else {
        None
    }
}

/// Bytes that `c` takes in UTF-8.
pub open spec fn char_utf8_len(c: char) -> nat {
    let u = c as u32;
    if u < 0x80 {
        1
    } else if u < 0x800 {
        2
    } else if u < 0x10000 {
        3
    } else {
        4
    }
}

/// Bytes that `s` takes in UTF-8 (`str::len`).
pub open spec fn utf8_len(s: Seq<char>) -> nat
    decreases s.len(),
{
    if s.len() == 0 {
        0
    } else {
        utf8_len(s.drop_last()) + char_utf8_len(s.last())
    }
}

proof fn lemma_utf8_len_prefix(s: Seq<char>, i: int)
    requires
        0 <= i <= s.len(),
    ensures
        utf8_len(s.take(i)) <= utf8_len(s),
    decreases s.len(),
{
    if i < s.len() {
        assert(s.drop_last().take(i) =~= s.take(i));
        lemma_utf8_len_prefix(s.drop_last(), i);
    } else {
        assert(s.take(i) =~= s);
    }
}

/// `s` takes four bytes in UTF-8 and starts with `3`.
fn starts_with_3_and_four_bytes(s: &str) -> (r: bool)
    ensures
        r == (utf8_len(s@) == 4 && s@.len() > 0 && s@[0] == '3'),
{
    let cs = chars_of(s);
    let mut sum: usize = 0;
    let mut i: usize = 0;
    assert(s@.take(0) =~= Seq::<char>::empty());
    while i < cs.len()
        invariant
            cs@ == s@,
            i <= cs@.len(),
            sum == utf8_len(s@.take(i as int)),
            sum <= 4,
        decreases cs@.len() - i,
    {
        let u = cs[i] as u32;
        let l: usize = if u < 0x80 {
            1
        } else if u < 0x800 {
            2
        } else if u < 0x10000 {
            3
        } else {
            4
        };
        assert(s@.take(i + 1).drop_last() =~= s@.take(i as int));
        if sum + l > 4 {
            proof {
                lemma_utf8_len_prefix(s@, i + 1);
            }
            return false;
        }
        sum = sum + l;
        i += 1;
    }
    assert(s@.take(i as int) =~= s@);
    sum == 4 && cs.len() > 0 && cs[0] == '3'
}

/// The text of a brand: decoded lossily, trimmed, trailing NULs removed.
pub open spec fn brand_text(b: Seq<u8>) -> Seq<char> {
    trim_end_spec(trim_spec(lossy_text(b), TrimSet::Whitespace), TrimSet::Nul)
}

/// The brand bytes as text: decoded lossily, trimmed, trailing NULs removed.
fn as_brand_str(brand: &[u8; 4]) -> (r: String)
    ensures
        r@ == brand_text(brand@),
{
    let s = from_utf8_lossy(brand.as_slice());
    let t = trim_with(s.as_str(), TrimSet::Whitespace, true, true);
    trim_with(t.as_str(), TrimSet::Nul, false, true)
}

/// File type and MIME type of a brand, when it is known.
pub open spec fn brand_tuple_spec(b: Seq<u8>) -> Option<(Seq<char>, Seq<char>)> {
    brand_spec(brand_text(b), utf8_len(brand_text(b)))
}

fn brand_tuple(brand: &[u8; 4]) -> (r: Option<(String, String)>)
    ensures
        match brand_tuple_spec(brand@) {
            Some((t, m)) => r matches Some((a, b)) && a@ == t && b@ == m,
            None => r is None,
        },
{
    let s = as_brand_str(brand);
    match brand_of(s.as_str()) {
        Some((t, m)) => Some((string_of(t), string_of(m))),
        None => None,
    }
}

/// The first of `compat` from `i` on with a known brand.
pub open spec fn first_known_brand(compat: Seq<Seq<u8>>, i: int) -> Option<(Seq<char>, Seq<char>)>
    decreases compat.len() - i,
{
    if i < 0 || i >= compat.len() {
        None
    } else {
        match brand_tuple_spec(compat[i]) {
            Some(x) => Some(x),
            None => first_known_brand(compat, i + 1),
        }
    }
}

/// The bytes of each brand.
pub open spec fn brands_of(c: Seq<[u8; 4]>) -> Seq<Seq<u8>> {
    c.map_values(|a: [u8; 4]| a@)
}

/// File type and MIME type from the major brand, else the first known compatible brand,
/// else MP4.
pub open spec fn file_mime_spec(major: Seq<u8>, compat: Seq<Seq<u8>>) -> (Seq<char>, Seq<char>) {
    match brand_tuple_spec(major) {
        Some(x) => x,
        None => match first_known_brand(compat, 0) {
            Some(x) => x,
            None => ("MP4"@, "video/mp4"@),
        },
    }
}

/// (friendly `File:FileType` string, MIME type) from major ftyp brand and compatible list.
pub fn ftyp_to_file_mime(major: &[u8; 4], compat: &[[u8; 4]]) -> (r: (String, String))
    ensures
        r.0@ == file_mime_spec(major@, brands_of(compat@)).0,
        r.1@ == file_mime_spec(major@, brands_of(compat@)).1,
{
    if let Some((t, m)) = brand_tuple(major) {
        return (t, m);
    }
    let mut i: usize = 0;
    while i < compat.len()
        invariant
            i <= compat@.len(),
            brand_tuple_spec(major@) is None,
            first_known_brand(brands_of(compat@), 0) == first_known_brand(brands_of(compat@), i as int),
        decreases compat@.len() - i,
    {
        if let Some((t, m)) = brand_tuple(&compat[i]) {
            return (t, m);
        }
        i += 1;
    }
    (string_of("MP4"), string_of("video/mp4"))
}

} // verus!
