use crate::text::{push_str, string_of};
use vstd::prelude::*;

verus! {

#[verifier::external_type_specification]
#[verifier::external_body]
pub struct ExIoError(std::io::Error);

/// Errors reported while reading or stripping metadata.
#[derive(Debug)]
pub enum Error {
    Io(std::io::Error),
    UnknownFormat,
    Truncated,
    BadMagic,
    BadTiff,
    BadPng,
    BadJpeg,
    BadQt,
    /// A file offset would move below zero or no longer fits its field.
    OffsetOverflow,
    Decompress(String),
    Unsupported(&'static str),
}

pub type Result<T> = core::result::Result<T, Error>;

/// How a reader failed, as contracts describe it: with an error, or with a decompression
/// error whose message has the given characters.
pub enum Failure {
    Error(Error),
    Inflate(Seq<char>),
}

/// The error `e` is the failure `f`.
pub open spec fn fails_as(e: Error, f: Failure) -> bool {
    match f {
        Failure::Error(x) => e == x,
        Failure::Inflate(m) => e is Decompress && e->Decompress_0@ == m,
    }
}

/// `r` has the outcome `s`.
pub open spec fn done_as(r: Result<()>, s: core::result::Result<(), Failure>) -> bool {
    match s {
        Ok(()) => r is Ok,
        Err(f) => r is Err && fails_as(r->Err_0, f),
    }
}

/// The outcome `r`, its error lifted to a failure.
pub open spec fn lift(r: Result<()>) -> core::result::Result<(), Failure> {
    match r {
        Ok(()) => Ok(()),
        Err(x) => Err(Failure::Error(x)),
    }
}

} // verus!

verus! {

/// The text of an I/O error, through its `Display`; what it says comes from the system and
/// is not stated.
#[verifier::external_body]
fn io_error_text(e: &std::io::Error) -> String {
    e.to_string()
}

/// The message of an error other than an I/O error.
pub open spec fn error_text(e: Error) -> Seq<char> {
    match e {
        Error::Io(_) => seq![],
        Error::UnknownFormat => "unknown image format"@,
        Error::Truncated => "truncated data"@,
        Error::BadMagic => "invalid file signature"@,
        Error::BadTiff => "invalid TIFF structure"@,
        Error::BadPng => "invalid PNG structure"@,
        Error::BadJpeg => "invalid JPEG structure"@,
        Error::BadQt => "invalid QuickTime/MP4 (ISO BMFF) structure"@,
        Error::OffsetOverflow => "offset overflow"@,
        Error::Decompress(s) => "decompression failed: "@ + s@,
        Error::Unsupported(s) => "unsupported: "@ + s@,
    }
}

impl Error {
    /// The message of the error, as it is shown to a user.
    pub fn message(&self) -> (r: String)
        ensures
            !(self is Io) ==> r@ == error_text(*self),
    {
        match self {
            Error::Io(e) => io_error_text(e),
            Error::UnknownFormat => string_of("unknown image format"),
            Error::Truncated => string_of("truncated data"),
            Error::BadMagic => string_of("invalid file signature"),
            Error::BadTiff => string_of("invalid TIFF structure"),
            Error::BadPng => string_of("invalid PNG structure"),
            Error::BadJpeg => string_of("invalid JPEG structure"),
            Error::BadQt => string_of("invalid QuickTime/MP4 (ISO BMFF) structure"),
            Error::OffsetOverflow => string_of("offset overflow"),
            Error::Decompress(s) => {
                let mut t = string_of("decompression failed: ");
                push_str(&mut t, s.as_str());
                t
            },
            Error::Unsupported(s) => {
                let mut t = string_of("unsupported: ");
                push_str(&mut t, s);
                t
            },
        }
    }
}

} // verus!
