//! Definitions that the tag tables hold.
use crate::format::Format;
use vstd::prelude::*;

verus! {

/// How a tag's value is shown: as it is, or through a table of names.
#[derive(Clone, Copy, Debug, PartialEq, Eq)]
pub enum PrintConv {
    /// No conversion.
    Plain,
    /// Integer value to name, sorted by value.
    IntMap(&'static [(i64, &'static str)]),
    /// Text value to name, sorted by text.
    StrMap(&'static [(&'static str, &'static str)]),
}

/// The sub-directory that a tag's value points to.
#[derive(Clone, Copy, Debug, PartialEq, Eq, Structural)]
pub enum SubDir {
    /// The tag points to no sub-directory.
    Plain,
    ExifIfd,
    GpsIfd,
    InteropIfd,
    SubIfd,
    MakerNotes,
}

/// A TIFF/EXIF tag definition.
#[derive(Clone, Copy, Debug)]
pub struct TagDef {
    pub name: &'static str,
    pub format: Option<Format>,
    pub print_conv: PrintConv,
    pub sub_dir: SubDir,
    pub group1: &'static str,
}

/// A PNG chunk definition.
#[derive(Clone, Copy, Debug)]
pub struct PngChunkDef {
    pub chunk_name: &'static str,
    pub group1: &'static str,
    pub print_conv: PrintConv,
}

/// A PNG textual keyword definition.
#[derive(Clone, Copy, Debug)]
pub struct PngTextDef {
    pub name: &'static str,
    pub group1: &'static str,
    pub print_conv: PrintConv,
}

} // verus!
