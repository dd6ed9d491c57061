use vstd::prelude::*;

verus! {

/// EXIF/TIFF field types (TIFF spec + ExifTool extras), numbered as in the files.
#[derive(Clone, Copy, Debug, PartialEq, Eq, Structural)]
pub enum Format {
    Int8u,
    String,
    Int16u,
    Int32u,
    Rational64u,
    Int8s,
    Undef,
    Int16s,
    Int32s,
    Rational64s,
    Float,
    Double,
    Ifd,
    Unicode,
    Complex,
    Int64u,
    Int64s,
    Ifd64,
    Utf8,
}

impl Format {
    /// Bytes per component.
    pub open spec fn spec_size(self) -> nat {
        match self {
            Format::Int8u | Format::String | Format::Int8s | Format::Undef | Format::Utf8 => 1,
            Format::Int16u | Format::Int16s => 2,
            Format::Int32u | Format::Int32s | Format::Float | Format::Ifd | Format::Unicode
            | Format::Complex => 4,
            Format::Rational64u | Format::Rational64s | Format::Double | Format::Int64u
            | Format::Int64s | Format::Ifd64 => 8,
        }
    }

    /// The type number that a file writes for this format.
    pub open spec fn number(self) -> u16 {
        match self {
            Format::Int8u => 1,
            Format::String => 2,
            Format::Int16u => 3,
            Format::Int32u => 4,
            Format::Rational64u => 5,
            Format::Int8s => 6,
            Format::Undef => 7,
            Format::Int16s => 8,
            Format::Int32s => 9,
            Format::Rational64s => 10,
            Format::Float => 11,
            Format::Double => 12,
            Format::Ifd => 13,
            Format::Unicode => 14,
            Format::Complex => 15,
            Format::Int64u => 16,
            Format::Int64s => 17,
            Format::Ifd64 => 18,
            Format::Utf8 => 129,
        }
    }

    /// Bytes per component.
    pub fn size(self) -> (r: usize)
        ensures
            r == self.spec_size(),
    {
        match self {
            Format::Int8u | Format::String | Format::Int8s | Format::Undef | Format::Utf8 => 1,
            Format::Int16u | Format::Int16s => 2,
            Format::Int32u | Format::Int32s | Format::Float | Format::Ifd | Format::Unicode
            | Format::Complex => 4,
            Format::Rational64u | Format::Rational64s => 8,
            Format::Double | Format::Int64u | Format::Int64s | Format::Ifd64 => 8,
        }
    }

    /// The format with type number `n`, if any.
    pub open spec fn spec_from_u16(n: u16) -> Option<Format> {
        if n == 1 { Some(Format::Int8u) }
        else if n == 2 { Some(Format::String) }
        else if n == 3 { Some(Format::Int16u) }
        else if n == 4 { Some(Format::Int32u) }
        else if n == 5 { Some(Format::Rational64u) }
        else if n == 6 { Some(Format::Int8s) }
        else if n == 7 { Some(Format::Undef) }
        else if n == 8 { Some(Format::Int16s) }
        else if n == 9 { Some(Format::Int32s) }
        else if n == 10 { Some(Format::Rational64s) }
        else if n == 11 { Some(Format::Float) }
        else if n == 12 { Some(Format::Double) }
        else if n == 13 { Some(Format::Ifd) }
        else if n == 14 { Some(Format::Unicode) }
        else if n == 15 { Some(Format::Complex) }
        else if n == 16 { Some(Format::Int64u) }
        else if n == 17 { Some(Format::Int64s) }
        else if n == 18 { Some(Format::Ifd64) }
        else if n == 129 { Some(Format::Utf8) }
        else { None }
    }

    /// The format with type number `n`, if any.
    pub fn from_u16(n: u16) -> (r: Option<Format>)
        ensures
            r == Self::spec_from_u16(n),
            r matches Some(f) ==> f.number() == n,
            r is None ==> forall|f: Format| f.number() != n,
    {
        let r = match n {
            1 => Format::Int8u,
            2 => Format::String,
            3 => Format::Int16u,
            4 => Format::Int32u,
            5 => Format::Rational64u,
            6 => Format::Int8s,
            7 => Format::Undef,
            8 => Format::Int16s,
            9 => Format::Int32s,
            10 => Format::Rational64s,
            11 => Format::Float,
            12 => Format::Double,
            13 => Format::Ifd,
            14 => Format::Unicode,
            15 => Format::Complex,
            16 => Format::Int64u,
            17 => Format::Int64s,
            18 => Format::Ifd64,
            129 => Format::Utf8,
            _ => return None,
        };
        Some(r)
    }
}

/// Every format reads back from its type number.
pub proof fn lemma_from_number(f: Format)
    ensures
        Format::spec_from_u16(f.number()) == Some(f),
{
}

} // verus!
