use crate::error::{Error, Result};
use crate::fourcc::{code, code_of, FREE, FTYP, MDAT, METX, MOOF, MOOV, SIDX, SKIP, STYP, WIDE};
use vstd::prelude::*;

verus! {

/// The container family of a file, told from its first bytes.
#[derive(Clone, Copy, Debug, PartialEq, Eq, Structural)]
pub enum FileType {
    Jpeg,
    Tiff,
    Png,
    /// ISO base media / QuickTime (MOV, MP4, M4A, M4V, HEIC, 3GP, etc.)
    Qt,
}

/// The eight-byte PNG signature.
pub open spec fn png_signature() -> Seq<u8> {
    seq![0x89u8, 0x50, 0x4e, 0x47, 0x0d, 0x0a, 0x1a, 0x0a]
}

/// `data` begins with `prefix`.
pub open spec fn starts_with(data: Seq<u8>, prefix: Seq<u8>) -> bool {
    prefix.len() <= data.len() && data.subrange(0, prefix.len() as int) == prefix
}

/// Top-level box types that mark a QuickTime / MP4 family file.
pub open spec fn is_bmff_top_code(c: nat) -> bool {
    c == FTYP || c == MOOV || c == MDAT || c == WIDE || c == FREE || c == SKIP || c == METX
        || c == STYP || c == SIDX || c == MOOF
}

/// The file type that the first bytes of `data` announce.
pub open spec fn spec_detect(data: Seq<u8>) -> Result<FileType> {
    if starts_with(data, seq![0xffu8, 0xd8, 0xff]) {
        Ok(FileType::Jpeg)
    } else if starts_with(data, seq![0x49u8, 0x49, 0x2a, 0x00]) || starts_with(
        data,
        seq![0x4du8, 0x4d, 0x00, 0x2a],
    ) {
        Ok(FileType::Tiff)
    } else if starts_with(data, png_signature()) {
        Ok(FileType::Png)
    } else if data.len() >= 8 && is_bmff_top_code(code_of(data.subrange(4, 8))) {
        Ok(FileType::Qt)
    } else {
        Err(Error::BadMagic)
    }
}

fn is_bmff_top_type(t: &[u8; 4]) -> (r: bool)
    ensures
        r == is_bmff_top_code(code_of(t@)),
{
    let c = code(t);
    c == FTYP || c == MOOV || c == MDAT || c == WIDE || c == FREE || c == SKIP || c == METX || c
        == STYP || c == SIDX || c == MOOF
}

/// `data` begins with the bytes of `prefix`.
pub fn has_prefix(data: &[u8], prefix: &[u8]) -> (r: bool)
    ensures
        r == starts_with(data@, prefix@),
{
    if prefix.len() > data.len() {
        return false;
    }
    let mut i: usize = 0;
    while i < prefix.len()
        invariant
            i <= prefix.len() <= data.len(),
            forall|j: int| 0 <= j < i ==> data@[j] == prefix@[j],
        decreases prefix.len() - i,
    {
        if data[i] != prefix[i] {
            return false;
        }
        i += 1;
    }
    assert(data@.subrange(0, prefix@.len() as int) =~= prefix@);
    true
}

/// Tells the container family from the signature at the start of `data`.
pub fn detect(data: &[u8]) -> (r: Result<FileType>)
    ensures
        r == spec_detect(data@),
{
    let jpeg: [u8; 3] = [0xff, 0xd8, 0xff];
    if has_prefix(data, &jpeg) {
        assert(jpeg@ =~= seq![0xffu8, 0xd8, 0xff]);
        return Ok(FileType::Jpeg);
    }
    assert(jpeg@ =~= seq![0xffu8, 0xd8, 0xff]);
    let ii: [u8; 4] = [0x49, 0x49, 0x2a, 0x00];
    let mm: [u8; 4] = [0x4d, 0x4d, 0x00, 0x2a];
    assert(ii@ =~= seq![0x49u8, 0x49, 0x2a, 0x00]);
    assert(mm@ =~= seq![0x4du8, 0x4d, 0x00, 0x2a]);
    if has_prefix(data, &ii) || has_prefix(data, &mm) {
        return Ok(FileType::Tiff);
    }
    let sig: [u8; 8] = [0x89, 0x50, 0x4e, 0x47, 0x0d, 0x0a, 0x1a, 0x0a];
    assert(sig@ =~= png_signature());
    if has_prefix(data, &sig) {
        return Ok(FileType::Png);
    }
    if data.len() >= 8 {
        let typ: [u8; 4] = [data[4], data[5], data[6], data[7]];
        assert(typ@ =~= data@.subrange(4, 8));
        if is_bmff_top_type(&typ) {
            return Ok(FileType::Qt);
        }
    }
    Err(Error::BadMagic)
}

} // verus!

verus! {

/// The file type follows from the first bytes alone: `FF D8 FF` is a JPEG; `II*\0` (Intel
/// order) and `MM\0*` (Motorola order) are TIFF; the PNG signature is a PNG; and a known
/// top-level box type at bytes 4..8 is an ISO BMFF file.
pub proof fn lemma_detect_by_magic(data: Seq<u8>)
    ensures
        data.len() >= 3 && data[0] == 0xff && data[1] == 0xd8 && data[2] == 0xff
            ==> spec_detect(data) == Ok::<FileType, Error>(FileType::Jpeg),
        data.len() >= 4 && data[0] == 0x49 && data[1] == 0x49 && data[2] == 0x2a && data[3] == 0x00
            ==> spec_detect(data) == Ok::<FileType, Error>(FileType::Tiff),
        data.len() >= 4 && data[0] == 0x4d && data[1] == 0x4d && data[2] == 0x00 && data[3] == 0x2a
            ==> spec_detect(data) == Ok::<FileType, Error>(FileType::Tiff),
        data.len() >= 8 && data[0] == 0x89 && data[1] == 0x50 && data[2] == 0x4e && data[3] == 0x47
            && data[4] == 0x0d && data[5] == 0x0a && data[6] == 0x1a && data[7] == 0x0a
            ==> spec_detect(data) == Ok::<FileType, Error>(FileType::Png),
{
    if data.len() >= 3 {
        assert(data.subrange(0, 3) =~= seq![data[0], data[1], data[2]]);
    }
    if data.len() >= 4 {
        assert(data.subrange(0, 3) =~= seq![data[0], data[1], data[2]]);
        assert(data.subrange(0, 4) =~= seq![data[0], data[1], data[2], data[3]]);
    }
    if data.len() >= 8 {
        assert(data.subrange(0, 8) =~= seq![data[0], data[1], data[2], data[3], data[4], data[5], data[6], data[7]]);
    }
}

} // verus!
