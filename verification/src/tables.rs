//! Tag tables: a subset of ExifTool's EXIF, GPS and PNG textual-keyword tables.
use crate::format::Format;
use crate::tag_def::{PngTextDef, PrintConv, SubDir, TagDef};
use crate::text::str_eq;
use vstd::prelude::*;

verus! {

/// Tags of the EXIF main table (IFD0 / ExifIFD / InteropIFD), by number.
pub open spec fn exif_table(id: u16) -> Option<TagDef> {
    if id == 0x0001 {
        Some(TagDef { name: "InteropIndex", format: Some(Format::String), print_conv: PrintConv::Plain, sub_dir: SubDir::Plain, group1: "InteropIFD" })
    } else if id == 0x0002 {
        Some(TagDef { name: "InteropVersion", format: Some(Format::Undef), print_conv: PrintConv::Plain, sub_dir: SubDir::Plain, group1: "InteropIFD" })
    } else if id == 0x000b {
        Some(TagDef { name: "ProcessingSoftware", format: Some(Format::String), print_conv: PrintConv::Plain, sub_dir: SubDir::Plain, group1: "IFD0" })
    } else if id == 0x00fe {
        Some(TagDef { name: "SubfileType", format: Some(Format::Int32u), print_conv: PrintConv::IntMap(&[(0i64, "Full-resolution image"), (1i64, "Reduced-resolution image"), (2i64, "Single page of multi-page image"), (3i64, "Single page of multi-page reduced-resolution image"), (4i64, "Transparency mask"), (5i64, "Transparency mask of reduced-resolution image"), (6i64, "Transparency mask of multi-page image"), (7i64, "Transparency mask of reduced-resolution multi-page image")]), sub_dir: SubDir::Plain, group1: "IFD0" })
    } else if id == 0x0100 {
        Some(TagDef { name: "ImageWidth", format: Some(Format::Int32u), print_conv: PrintConv::Plain, sub_dir: SubDir::Plain, group1: "IFD0" })
    } else if id == 0x0101 {
        Some(TagDef { name: "ImageHeight", format: Some(Format::Int32u), print_conv: PrintConv::Plain, sub_dir: SubDir::Plain, group1: "IFD0" })
    } else if id == 0x0102 {
        Some(TagDef { name: "BitsPerSample", format: Some(Format::Int16u), print_conv: PrintConv::Plain, sub_dir: SubDir::Plain, group1: "IFD0" })
    } else if id == 0x0103 {
        Some(TagDef { name: "Compression", format: Some(Format::Int16u), print_conv: PrintConv::IntMap(&[(1i64, "Uncompressed"), (2i64, "CCITT 1D"), (3i64, "T4/Group 3 Fax"), (4i64, "T6/Group 4 Fax"), (5i64, "LZW"), (6i64, "JPEG (old-style)"), (7i64, "JPEG"), (8i64, "Adobe Deflate"), (32773i64, "PackBits")]), sub_dir: SubDir::Plain, group1: "IFD0" })
    } else if id == 0x0106 {
        Some(TagDef { name: "PhotometricInterpretation", format: Some(Format::Int16u), print_conv: PrintConv::IntMap(&[(0i64, "WhiteIsZero"), (1i64, "BlackIsZero"), (2i64, "RGB"), (3i64, "RGB Palette"), (4i64, "Transparency Mask"), (5i64, "CMYK"), (6i64, "YCbCr"), (8i64, "CIELab")]), sub_dir: SubDir::Plain, group1: "IFD0" })
    } else if id == 0x010e {
        Some(TagDef { name: "ImageDescription", format: Some(Format::String), print_conv: PrintConv::Plain, sub_dir: SubDir::Plain, group1: "IFD0" })
    } else if id == 0x010f {
        Some(TagDef { name: "Make", format: Some(Format::String), print_conv: PrintConv::Plain, sub_dir: SubDir::Plain, group1: "IFD0" })
    } else if id == 0x0110 {
        Some(TagDef { name: "Model", format: Some(Format::String), print_conv: PrintConv::Plain, sub_dir: SubDir::Plain, group1: "IFD0" })
    } else if id == 0x0111 {
        Some(TagDef { name: "StripOffsets", format: Some(Format::Int32u), print_conv: PrintConv::Plain, sub_dir: SubDir::Plain, group1: "IFD0" })
    } else if id == 0x0112 {
        Some(TagDef { name: "Orientation", format: Some(Format::Int16u), print_conv: PrintConv::IntMap(&[(1i64, "Horizontal (normal)"), (2i64, "Mirror horizontal"), (3i64, "Rotate 180"), (4i64, "Mirror vertical"), (5i64, "Mirror horizontal and rotate 270 CW"), (6i64, "Rotate 90 CW"), (7i64, "Mirror horizontal and rotate 90 CW"), (8i64, "Rotate 270 CW")]), sub_dir: SubDir::Plain, group1: "IFD0" })
    } else if id == 0x0115 {
        Some(TagDef { name: "SamplesPerPixel", format: Some(Format::Int16u), print_conv: PrintConv::Plain, sub_dir: SubDir::Plain, group1: "IFD0" })
    } else if id == 0x0116 {
        Some(TagDef { name: "RowsPerStrip", format: Some(Format::Int32u), print_conv: PrintConv::Plain, sub_dir: SubDir::Plain, group1: "IFD0" })
    } else if id == 0x0117 {
        Some(TagDef { name: "StripByteCounts", format: Some(Format::Int32u), print_conv: PrintConv::Plain, sub_dir: SubDir::Plain, group1: "IFD0" })
    } else if id == 0x011a {
        Some(TagDef { name: "XResolution", format: Some(Format::Rational64u), print_conv: PrintConv::Plain, sub_dir: SubDir::Plain, group1: "IFD0" })
    } else if id == 0x011b {
        Some(TagDef { name: "YResolution", format: Some(Format::Rational64u), print_conv: PrintConv::Plain, sub_dir: SubDir::Plain, group1: "IFD0" })
    } else if id == 0x011c {
        Some(TagDef { name: "PlanarConfiguration", format: Some(Format::Int16u), print_conv: PrintConv::IntMap(&[(1i64, "Chunky"), (2i64, "Planar")]), sub_dir: SubDir::Plain, group1: "IFD0" })
    } else if id == 0x0128 {
        Some(TagDef { name: "ResolutionUnit", format: Some(Format::Int16u), print_conv: PrintConv::IntMap(&[(1i64, "None"), (2i64, "inches"), (3i64, "cm")]), sub_dir: SubDir::Plain, group1: "IFD0" })
    } else if id == 0x0131 {
        Some(TagDef { name: "Software", format: Some(Format::String), print_conv: PrintConv::Plain, sub_dir: SubDir::Plain, group1: "IFD0" })
    } else if id == 0x0132 {
        Some(TagDef { name: "ModifyDate", format: Some(Format::String), print_conv: PrintConv::Plain, sub_dir: SubDir::Plain, group1: "IFD0" })
    } else if id == 0x013b {
        Some(TagDef { name: "Artist", format: Some(Format::String), print_conv: PrintConv::Plain, sub_dir: SubDir::Plain, group1: "IFD0" })
    } else if id == 0x013e {
        Some(TagDef { name: "WhitePoint", format: Some(Format::Rational64u), print_conv: PrintConv::Plain, sub_dir: SubDir::Plain, group1: "IFD0" })
    } else if id == 0x013f {
        Some(TagDef { name: "PrimaryChromaticities", format: Some(Format::Rational64u), print_conv: PrintConv::Plain, sub_dir: SubDir::Plain, group1: "IFD0" })
    } else if id == 0x014a {
        Some(TagDef { name: "SubIFD", format: Some(Format::Int32u), print_conv: PrintConv::Plain, sub_dir: SubDir::SubIfd, group1: "IFD0" })
    } else if id == 0x0201 {
        Some(TagDef { name: "ThumbnailOffset", format: Some(Format::Int32u), print_conv: PrintConv::Plain, sub_dir: SubDir::Plain, group1: "IFD1" })
    } else if id == 0x0202 {
        Some(TagDef { name: "ThumbnailLength", format: Some(Format::Int32u), print_conv: PrintConv::Plain, sub_dir: SubDir::Plain, group1: "IFD1" })
    } else if id == 0x0211 {
        Some(TagDef { name: "YCbCrCoefficients", format: Some(Format::Rational64u), print_conv: PrintConv::Plain, sub_dir: SubDir::Plain, group1: "IFD0" })
    } else if id == 0x0212 {
        Some(TagDef { name: "YCbCrSubSampling", format: Some(Format::Int16u), print_conv: PrintConv::Plain, sub_dir: SubDir::Plain, group1: "IFD0" })
    } else if id == 0x0213 {
        Some(TagDef { name: "YCbCrPositioning", format: Some(Format::Int16u), print_conv: PrintConv::IntMap(&[(1i64, "Centered"), (2i64, "Co-sited")]), sub_dir: SubDir::Plain, group1: "IFD0" })
    } else if id == 0x0214 {
        Some(TagDef { name: "ReferenceBlackWhite", format: Some(Format::Rational64u), print_conv: PrintConv::Plain, sub_dir: SubDir::Plain, group1: "IFD0" })
    } else if id == 0x8298 {
        Some(TagDef { name: "Copyright", format: Some(Format::String), print_conv: PrintConv::Plain, sub_dir: SubDir::Plain, group1: "IFD0" })
    } else if id == 0x829a {
        Some(TagDef { name: "ExposureTime", format: Some(Format::Rational64u), print_conv: PrintConv::Plain, sub_dir: SubDir::Plain, group1: "ExifIFD" })
    } else if id == 0x829d {
        Some(TagDef { name: "FNumber", format: Some(Format::Rational64u), print_conv: PrintConv::Plain, sub_dir: SubDir::Plain, group1: "ExifIFD" })
    } else if id == 0x8769 {
        Some(TagDef { name: "ExifOffset", format: Some(Format::Int32u), print_conv: PrintConv::Plain, sub_dir: SubDir::ExifIfd, group1: "IFD0" })
    } else if id == 0x8822 {
        Some(TagDef { name: "ExposureProgram", format: Some(Format::Int16u), print_conv: PrintConv::IntMap(&[(0i64, "Not Defined"), (1i64, "Manual"), (2i64, "Program AE"), (3i64, "Aperture-priority AE"), (4i64, "Shutter speed priority AE"), (5i64, "Creative (Slow speed)"), (6i64, "Action (High speed)"), (7i64, "Portrait"), (8i64, "Landscape"), (9i64, "Bulb")]), sub_dir: SubDir::Plain, group1: "ExifIFD" })
    } else if id == 0x8825 {
        Some(TagDef { name: "GPSInfo", format: Some(Format::Int32u), print_conv: PrintConv::Plain, sub_dir: SubDir::GpsIfd, group1: "IFD0" })
    } else if id == 0x8827 {
        Some(TagDef { name: "ISO", format: Some(Format::Int16u), print_conv: PrintConv::Plain, sub_dir: SubDir::Plain, group1: "ExifIFD" })
    } else if id == 0x8830 {
        Some(TagDef { name: "SensitivityType", format: Some(Format::Int16u), print_conv: PrintConv::IntMap(&[(0i64, "Unknown"), (1i64, "Standard Output Sensitivity"), (2i64, "Recommended Exposure Index"), (3i64, "ISO Speed"), (4i64, "Standard Output Sensitivity and Recommended Exposure Index"), (5i64, "Standard Output Sensitivity and ISO Speed"), (6i64, "Recommended Exposure Index and ISO Speed"), (7i64, "Standard Output Sensitivity, Recommended Exposure Index and ISO Speed")]), sub_dir: SubDir::Plain, group1: "ExifIFD" })
    } else if id == 0x9000 {
        Some(TagDef { name: "ExifVersion", format: Some(Format::Undef), print_conv: PrintConv::Plain, sub_dir: SubDir::Plain, group1: "ExifIFD" })
    } else if id == 0x9003 {
        Some(TagDef { name: "DateTimeOriginal", format: Some(Format::String), print_conv: PrintConv::Plain, sub_dir: SubDir::Plain, group1: "ExifIFD" })
    } else if id == 0x9004 {
        Some(TagDef { name: "CreateDate", format: Some(Format::String), print_conv: PrintConv::Plain, sub_dir: SubDir::Plain, group1: "ExifIFD" })
    } else if id == 0x9010 {
        Some(TagDef { name: "OffsetTime", format: Some(Format::String), print_conv: PrintConv::Plain, sub_dir: SubDir::Plain, group1: "ExifIFD" })
    } else if id == 0x9011 {
        Some(TagDef { name: "OffsetTimeOriginal", format: Some(Format::String), print_conv: PrintConv::Plain, sub_dir: SubDir::Plain, group1: "ExifIFD" })
    } else if id == 0x9012 {
        Some(TagDef { name: "OffsetTimeDigitized", format: Some(Format::String), print_conv: PrintConv::Plain, sub_dir: SubDir::Plain, group1: "ExifIFD" })
    } else if id == 0x9101 {
        Some(TagDef { name: "ComponentsConfiguration", format: Some(Format::Undef), print_conv: PrintConv::Plain, sub_dir: SubDir::Plain, group1: "ExifIFD" })
    } else if id == 0x9102 {
        Some(TagDef { name: "CompressedBitsPerPixel", format: Some(Format::Rational64u), print_conv: PrintConv::Plain, sub_dir: SubDir::Plain, group1: "ExifIFD" })
    } else if id == 0x9201 {
        Some(TagDef { name: "ShutterSpeedValue", format: Some(Format::Rational64s), print_conv: PrintConv::Plain, sub_dir: SubDir::Plain, group1: "ExifIFD" })
    } else if id == 0x9202 {
        Some(TagDef { name: "ApertureValue", format: Some(Format::Rational64u), print_conv: PrintConv::Plain, sub_dir: SubDir::Plain, group1: "ExifIFD" })
    } else if id == 0x9203 {
        Some(TagDef { name: "BrightnessValue", format: Some(Format::Rational64s), print_conv: PrintConv::Plain, sub_dir: SubDir::Plain, group1: "ExifIFD" })
    } else if id == 0x9204 {
        Some(TagDef { name: "ExposureCompensation", format: Some(Format::Rational64s), print_conv: PrintConv::Plain, sub_dir: SubDir::Plain, group1: "ExifIFD" })
    } else if id == 0x9205 {
        Some(TagDef { name: "MaxApertureValue", format: Some(Format::Rational64u), print_conv: PrintConv::Plain, sub_dir: SubDir::Plain, group1: "ExifIFD" })
    } else if id == 0x9206 {
        Some(TagDef { name: "SubjectDistance", format: Some(Format::Rational64u), print_conv: PrintConv::Plain, sub_dir: SubDir::Plain, group1: "ExifIFD" })
    } else if id == 0x9207 {
        Some(TagDef { name: "MeteringMode", format: Some(Format::Int16u), print_conv: PrintConv::IntMap(&[(0i64, "Unknown"), (1i64, "Average"), (2i64, "Center-weighted average"), (3i64, "Spot"), (4i64, "Multi-spot"), (5i64, "Multi-segment"), (6i64, "Partial"), (255i64, "Other")]), sub_dir: SubDir::Plain, group1: "ExifIFD" })
    } else if id == 0x9208 {
        Some(TagDef { name: "LightSource", format: Some(Format::Int16u), print_conv: PrintConv::IntMap(&[(0i64, "Unknown"), (1i64, "Daylight"), (2i64, "Fluorescent"), (3i64, "Tungsten (Incandescent)"), (4i64, "Flash"), (9i64, "Fine Weather"), (10i64, "Cloudy"), (11i64, "Shade"), (12i64, "Daylight Fluorescent"), (13i64, "Day White Fluorescent"), (14i64, "Cool White Fluorescent"), (15i64, "White Fluorescent"), (16i64, "Warm White Fluorescent"), (17i64, "Standard Light A"), (18i64, "Standard Light B"), (19i64, "Standard Light C"), (20i64, "D55"), (21i64, "D65"), (22i64, "D75"), (23i64, "D50"), (24i64, "ISO Studio Tungsten"), (255i64, "Other")]), sub_dir: SubDir::Plain, group1: "ExifIFD" })
    } else if id == 0x9209 {
        Some(TagDef { name: "Flash", format: Some(Format::Int16u), print_conv: PrintConv::IntMap(&[(0i64, "No Flash"), (1i64, "Fired"), (5i64, "Fired, Return not detected"), (7i64, "Fired, Return detected"), (8i64, "On, Did not fire"), (9i64, "On, Fired"), (13i64, "On, Return not detected"), (15i64, "On, Return detected"), (16i64, "Off, Did not fire"), (20i64, "Off, Did not fire, Return not detected"), (24i64, "Auto, Did not fire"), (25i64, "Auto, Fired"), (29i64, "Auto, Fired, Return not detected"), (31i64, "Auto, Fired, Return detected"), (32i64, "No flash function"), (48i64, "Off, No flash function"), (65i64, "Fired, Red-eye reduction"), (69i64, "Fired, Red-eye reduction, Return not detected"), (71i64, "Fired, Red-eye reduction, Return detected"), (73i64, "On, Red-eye reduction"), (77i64, "On, Red-eye reduction, Return not detected"), (79i64, "On, Red-eye reduction, Return detected"), (80i64, "Off, Red-eye reduction"), (88i64, "Auto, Did not fire, Red-eye reduction"), (89i64, "Auto, Fired, Red-eye reduction"), (93i64, "Auto, Fired, Red-eye reduction, Return not detected"), (95i64, "Auto, Fired, Red-eye reduction, Return detected")]), sub_dir: SubDir::Plain, group1: "ExifIFD" })
    } else if id == 0x920a {
        Some(TagDef { name: "FocalLength", format: Some(Format::Rational64u), print_conv: PrintConv::Plain, sub_dir: SubDir::Plain, group1: "ExifIFD" })
    } else if id == 0x927c {
        Some(TagDef { name: "MakerNote", format: Some(Format::Undef), print_conv: PrintConv::Plain, sub_dir: SubDir::MakerNotes, group1: "ExifIFD" })
    } else if id == 0x9286 {
        Some(TagDef { name: "UserComment", format: Some(Format::Undef), print_conv: PrintConv::Plain, sub_dir: SubDir::Plain, group1: "ExifIFD" })
    } else if id == 0x9290 {
        Some(TagDef { name: "SubSecTime", format: Some(Format::String), print_conv: PrintConv::Plain, sub_dir: SubDir::Plain, group1: "ExifIFD" })
    } else if id == 0x9291 {
        Some(TagDef { name: "SubSecTimeOriginal", format: Some(Format::String), print_conv: PrintConv::Plain, sub_dir: SubDir::Plain, group1: "ExifIFD" })
    } else if id == 0x9292 {
        Some(TagDef { name: "SubSecTimeDigitized", format: Some(Format::String), print_conv: PrintConv::Plain, sub_dir: SubDir::Plain, group1: "ExifIFD" })
    } else if id == 0xa000 {
        Some(TagDef { name: "FlashpixVersion", format: Some(Format::Undef), print_conv: PrintConv::Plain, sub_dir: SubDir::Plain, group1: "ExifIFD" })
    } else if id == 0xa001 {
        Some(TagDef { name: "ColorSpace", format: Some(Format::Int16u), print_conv: PrintConv::IntMap(&[(1i64, "sRGB"), (2i64, "Adobe RGB"), (65533i64, "Wide Gamut RGB"), (65534i64, "ICC Profile"), (65535i64, "Uncalibrated")]), sub_dir: SubDir::Plain, group1: "ExifIFD" })
    } else if id == 0xa002 {
        Some(TagDef { name: "ExifImageWidth", format: Some(Format::Int16u), print_conv: PrintConv::Plain, sub_dir: SubDir::Plain, group1: "ExifIFD" })
    } else if id == 0xa003 {
        Some(TagDef { name: "ExifImageHeight", format: Some(Format::Int16u), print_conv: PrintConv::Plain, sub_dir: SubDir::Plain, group1: "ExifIFD" })
    } else if id == 0xa005 {
        Some(TagDef { name: "InteropOffset", format: Some(Format::Int32u), print_conv: PrintConv::Plain, sub_dir: SubDir::InteropIfd, group1: "ExifIFD" })
    } else if id == 0xa20e {
        Some(TagDef { name: "FocalPlaneXResolution", format: Some(Format::Rational64u), print_conv: PrintConv::Plain, sub_dir: SubDir::Plain, group1: "ExifIFD" })
    } else if id == 0xa20f {
        Some(TagDef { name: "FocalPlaneYResolution", format: Some(Format::Rational64u), print_conv: PrintConv::Plain, sub_dir: SubDir::Plain, group1: "ExifIFD" })
    } else if id == 0xa210 {
        Some(TagDef { name: "FocalPlaneResolutionUnit", format: Some(Format::Int16u), print_conv: PrintConv::IntMap(&[(1i64, "None"), (2i64, "inches"), (3i64, "cm"), (4i64, "mm"), (5i64, "um")]), sub_dir: SubDir::Plain, group1: "ExifIFD" })
    } else if id == 0xa217 {
        Some(TagDef { name: "SensingMethod", format: Some(Format::Int16u), print_conv: PrintConv::IntMap(&[(1i64, "Not defined"), (2i64, "One-chip color area"), (3i64, "Two-chip color area"), (4i64, "Three-chip color area"), (5i64, "Color sequential area"), (7i64, "Trilinear"), (8i64, "Color sequential linear")]), sub_dir: SubDir::Plain, group1: "ExifIFD" })
    } else if id == 0xa300 {
        Some(TagDef { name: "FileSource", format: Some(Format::Undef), print_conv: PrintConv::Plain, sub_dir: SubDir::Plain, group1: "ExifIFD" })
    } else if id == 0xa301 {
        Some(TagDef { name: "SceneType", format: Some(Format::Undef), print_conv: PrintConv::Plain, sub_dir: SubDir::Plain, group1: "ExifIFD" })
    } else if id == 0xa401 {
        Some(TagDef { name: "CustomRendered", format: Some(Format::Int16u), print_conv: PrintConv::IntMap(&[(0i64, "Normal"), (1i64, "Custom")]), sub_dir: SubDir::Plain, group1: "ExifIFD" })
    } else if id == 0xa402 {
        Some(TagDef { name: "ExposureMode", format: Some(Format::Int16u), print_conv: PrintConv::IntMap(&[(0i64, "Auto"), (1i64, "Manual"), (2i64, "Auto bracket")]), sub_dir: SubDir::Plain, group1: "ExifIFD" })
    } else if id == 0xa403 {
        Some(TagDef { name: "WhiteBalance", format: Some(Format::Int16u), print_conv: PrintConv::IntMap(&[(0i64, "Auto"), (1i64, "Manual")]), sub_dir: SubDir::Plain, group1: "ExifIFD" })
    } else if id == 0xa404 {
        Some(TagDef { name: "DigitalZoomRatio", format: Some(Format::Rational64u), print_conv: PrintConv::Plain, sub_dir: SubDir::Plain, group1: "ExifIFD" })
    } else if id == 0xa405 {
        Some(TagDef { name: "FocalLengthIn35mmFormat", format: Some(Format::Int16u), print_conv: PrintConv::Plain, sub_dir: SubDir::Plain, group1: "ExifIFD" })
    } else if id == 0xa406 {
        Some(TagDef { name: "SceneCaptureType", format: Some(Format::Int16u), print_conv: PrintConv::IntMap(&[(0i64, "Standard"), (1i64, "Landscape"), (2i64, "Portrait"), (3i64, "Night")]), sub_dir: SubDir::Plain, group1: "ExifIFD" })
    } else if id == 0xa407 {
        Some(TagDef { name: "GainControl", format: Some(Format::Int16u), print_conv: PrintConv::IntMap(&[(0i64, "None"), (1i64, "Low gain up"), (2i64, "High gain up"), (3i64, "Low gain down"), (4i64, "High gain down")]), sub_dir: SubDir::Plain, group1: "ExifIFD" })
    } else if id == 0xa408 {
        Some(TagDef { name: "Contrast", format: Some(Format::Int16u), print_conv: PrintConv::IntMap(&[(0i64, "Normal"), (1i64, "Low"), (2i64, "High")]), sub_dir: SubDir::Plain, group1: "ExifIFD" })
    } else if id == 0xa409 {
        Some(TagDef { name: "Saturation", format: Some(Format::Int16u), print_conv: PrintConv::IntMap(&[(0i64, "Normal"), (1i64, "Low"), (2i64, "High")]), sub_dir: SubDir::Plain, group1: "ExifIFD" })
    } else if id == 0xa40a {
        Some(TagDef { name: "Sharpness", format: Some(Format::Int16u), print_conv: PrintConv::IntMap(&[(0i64, "Normal"), (1i64, "Soft"), (2i64, "Hard")]), sub_dir: SubDir::Plain, group1: "ExifIFD" })
    } else if id == 0xa40c {
        Some(TagDef { name: "SubjectDistanceRange", format: Some(Format::Int16u), print_conv: PrintConv::IntMap(&[(0i64, "Unknown"), (1i64, "Macro"), (2i64, "Close"), (3i64, "Distant")]), sub_dir: SubDir::Plain, group1: "ExifIFD" })
    } else if id == 0xa420 {
        Some(TagDef { name: "ImageUniqueID", format: Some(Format::String), print_conv: PrintConv::Plain, sub_dir: SubDir::Plain, group1: "ExifIFD" })
    } else if id == 0xa430 {
        Some(TagDef { name: "OwnerName", format: Some(Format::String), print_conv: PrintConv::Plain, sub_dir: SubDir::Plain, group1: "ExifIFD" })
    } else if id == 0xa431 {
        Some(TagDef { name: "SerialNumber", format: Some(Format::String), print_conv: PrintConv::Plain, sub_dir: SubDir::Plain, group1: "ExifIFD" })
    } else if id == 0xa432 {
        Some(TagDef { name: "LensInfo", format: Some(Format::Rational64u), print_conv: PrintConv::Plain, sub_dir: SubDir::Plain, group1: "ExifIFD" })
    } else if id == 0xa433 {
        Some(TagDef { name: "LensMake", format: Some(Format::String), print_conv: PrintConv::Plain, sub_dir: SubDir::Plain, group1: "ExifIFD" })
    } else if id == 0xa434 {
        Some(TagDef { name: "LensModel", format: Some(Format::String), print_conv: PrintConv::Plain, sub_dir: SubDir::Plain, group1: "ExifIFD" })
    } else if id == 0xa435 {
        Some(TagDef { name: "LensSerialNumber", format: Some(Format::String), print_conv: PrintConv::Plain, sub_dir: SubDir::Plain, group1: "ExifIFD" })
    } else if id == 0xc4a5 {
        Some(TagDef { name: "PrintIM", format: Some(Format::Undef), print_conv: PrintConv::Plain, sub_dir: SubDir::Plain, group1: "IFD0" })
    } else {
        None
    }
}

/// The definition of the tag with number `id` in this table, if any.
pub fn lookup_exif(id: u16) -> (r: Option<TagDef>)
    ensures
        r == exif_table(id),
{
    match id {
        0x0001 => Some(TagDef { name: "InteropIndex", format: Some(Format::String), print_conv: PrintConv::Plain, sub_dir: SubDir::Plain, group1: "InteropIFD" }),
        0x0002 => Some(TagDef { name: "InteropVersion", format: Some(Format::Undef), print_conv: PrintConv::Plain, sub_dir: SubDir::Plain, group1: "InteropIFD" }),
        0x000b => Some(TagDef { name: "ProcessingSoftware", format: Some(Format::String), print_conv: PrintConv::Plain, sub_dir: SubDir::Plain, group1: "IFD0" }),
        0x00fe => Some(TagDef { name: "SubfileType", format: Some(Format::Int32u), print_conv: PrintConv::IntMap(&[(0i64, "Full-resolution image"), (1i64, "Reduced-resolution image"), (2i64, "Single page of multi-page image"), (3i64, "Single page of multi-page reduced-resolution image"), (4i64, "Transparency mask"), (5i64, "Transparency mask of reduced-resolution image"), (6i64, "Transparency mask of multi-page image"), (7i64, "Transparency mask of reduced-resolution multi-page image")]), sub_dir: SubDir::Plain, group1: "IFD0" }),
        0x0100 => Some(TagDef { name: "ImageWidth", format: Some(Format::Int32u), print_conv: PrintConv::Plain, sub_dir: SubDir::Plain, group1: "IFD0" }),
        0x0101 => Some(TagDef { name: "ImageHeight", format: Some(Format::Int32u), print_conv: PrintConv::Plain, sub_dir: SubDir::Plain, group1: "IFD0" }),
        0x0102 => Some(TagDef { name: "BitsPerSample", format: Some(Format::Int16u), print_conv: PrintConv::Plain, sub_dir: SubDir::Plain, group1: "IFD0" }),
        0x0103 => Some(TagDef { name: "Compression", format: Some(Format::Int16u), print_conv: PrintConv::IntMap(&[(1i64, "Uncompressed"), (2i64, "CCITT 1D"), (3i64, "T4/Group 3 Fax"), (4i64, "T6/Group 4 Fax"), (5i64, "LZW"), (6i64, "JPEG (old-style)"), (7i64, "JPEG"), (8i64, "Adobe Deflate"), (32773i64, "PackBits")]), sub_dir: SubDir::Plain, group1: "IFD0" }),
        0x0106 => Some(TagDef { name: "PhotometricInterpretation", format: Some(Format::Int16u), print_conv: PrintConv::IntMap(&[(0i64, "WhiteIsZero"), (1i64, "BlackIsZero"), (2i64, "RGB"), (3i64, "RGB Palette"), (4i64, "Transparency Mask"), (5i64, "CMYK"), (6i64, "YCbCr"), (8i64, "CIELab")]), sub_dir: SubDir::Plain, group1: "IFD0" }),
        0x010e => Some(TagDef { name: "ImageDescription", format: Some(Format::String), print_conv: PrintConv::Plain, sub_dir: SubDir::Plain, group1: "IFD0" }),
        0x010f => Some(TagDef { name: "Make", format: Some(Format::String), print_conv: PrintConv::Plain, sub_dir: SubDir::Plain, group1: "IFD0" }),
        0x0110 => Some(TagDef { name: "Model", format: Some(Format::String), print_conv: PrintConv::Plain, sub_dir: SubDir::Plain, group1: "IFD0" }),
        0x0111 => Some(TagDef { name: "StripOffsets", format: Some(Format::Int32u), print_conv: PrintConv::Plain, sub_dir: SubDir::Plain, group1: "IFD0" }),
        0x0112 => Some(TagDef { name: "Orientation", format: Some(Format::Int16u), print_conv: PrintConv::IntMap(&[(1i64, "Horizontal (normal)"), (2i64, "Mirror horizontal"), (3i64, "Rotate 180"), (4i64, "Mirror vertical"), (5i64, "Mirror horizontal and rotate 270 CW"), (6i64, "Rotate 90 CW"), (7i64, "Mirror horizontal and rotate 90 CW"), (8i64, "Rotate 270 CW")]), sub_dir: SubDir::Plain, group1: "IFD0" }),
        0x0115 => Some(TagDef { name: "SamplesPerPixel", format: Some(Format::Int16u), print_conv: PrintConv::Plain, sub_dir: SubDir::Plain, group1: "IFD0" }),
        0x0116 => Some(TagDef { name: "RowsPerStrip", format: Some(Format::Int32u), print_conv: PrintConv::Plain, sub_dir: SubDir::Plain, group1: "IFD0" }),
        0x0117 => Some(TagDef { name: "StripByteCounts", format: Some(Format::Int32u), print_conv: PrintConv::Plain, sub_dir: SubDir::Plain, group1: "IFD0" }),
        0x011a => Some(TagDef { name: "XResolution", format: Some(Format::Rational64u), print_conv: PrintConv::Plain, sub_dir: SubDir::Plain, group1: "IFD0" }),
        0x011b => Some(TagDef { name: "YResolution", format: Some(Format::Rational64u), print_conv: PrintConv::Plain, sub_dir: SubDir::Plain, group1: "IFD0" }),
        0x011c => Some(TagDef { name: "PlanarConfiguration", format: Some(Format::Int16u), print_conv: PrintConv::IntMap(&[(1i64, "Chunky"), (2i64, "Planar")]), sub_dir: SubDir::Plain, group1: "IFD0" }),
        0x0128 => Some(TagDef { name: "ResolutionUnit", format: Some(Format::Int16u), print_conv: PrintConv::IntMap(&[(1i64, "None"), (2i64, "inches"), (3i64, "cm")]), sub_dir: SubDir::Plain, group1: "IFD0" }),
        0x0131 => Some(TagDef { name: "Software", format: Some(Format::String), print_conv: PrintConv::Plain, sub_dir: SubDir::Plain, group1: "IFD0" }),
        0x0132 => Some(TagDef { name: "ModifyDate", format: Some(Format::String), print_conv: PrintConv::Plain, sub_dir: SubDir::Plain, group1: "IFD0" }),
        0x013b => Some(TagDef { name: "Artist", format: Some(Format::String), print_conv: PrintConv::Plain, sub_dir: SubDir::Plain, group1: "IFD0" }),
        0x013e => Some(TagDef { name: "WhitePoint", format: Some(Format::Rational64u), print_conv: PrintConv::Plain, sub_dir: SubDir::Plain, group1: "IFD0" }),
        0x013f => Some(TagDef { name: "PrimaryChromaticities", format: Some(Format::Rational64u), print_conv: PrintConv::Plain, sub_dir: SubDir::Plain, group1: "IFD0" }),
        0x014a => Some(TagDef { name: "SubIFD", format: Some(Format::Int32u), print_conv: PrintConv::Plain, sub_dir: SubDir::SubIfd, group1: "IFD0" }),
        0x0201 => Some(TagDef { name: "ThumbnailOffset", format: Some(Format::Int32u), print_conv: PrintConv::Plain, sub_dir: SubDir::Plain, group1: "IFD1" }),
        0x0202 => Some(TagDef { name: "ThumbnailLength", format: Some(Format::Int32u), print_conv: PrintConv::Plain, sub_dir: SubDir::Plain, group1: "IFD1" }),
        0x0211 => Some(TagDef { name: "YCbCrCoefficients", format: Some(Format::Rational64u), print_conv: PrintConv::Plain, sub_dir: SubDir::Plain, group1: "IFD0" }),
        0x0212 => Some(TagDef { name: "YCbCrSubSampling", format: Some(Format::Int16u), print_conv: PrintConv::Plain, sub_dir: SubDir::Plain, group1: "IFD0" }),
        0x0213 => Some(TagDef { name: "YCbCrPositioning", format: Some(Format::Int16u), print_conv: PrintConv::IntMap(&[(1i64, "Centered"), (2i64, "Co-sited")]), sub_dir: SubDir::Plain, group1: "IFD0" }),
        0x0214 => Some(TagDef { name: "ReferenceBlackWhite", format: Some(Format::Rational64u), print_conv: PrintConv::Plain, sub_dir: SubDir::Plain, group1: "IFD0" }),
        0x8298 => Some(TagDef { name: "Copyright", format: Some(Format::String), print_conv: PrintConv::Plain, sub_dir: SubDir::Plain, group1: "IFD0" }),
        0x829a => Some(TagDef { name: "ExposureTime", format: Some(Format::Rational64u), print_conv: PrintConv::Plain, sub_dir: SubDir::Plain, group1: "ExifIFD" }),
        0x829d => Some(TagDef { name: "FNumber", format: Some(Format::Rational64u), print_conv: PrintConv::Plain, sub_dir: SubDir::Plain, group1: "ExifIFD" }),
        0x8769 => Some(TagDef { name: "ExifOffset", format: Some(Format::Int32u), print_conv: PrintConv::Plain, sub_dir: SubDir::ExifIfd, group1: "IFD0" }),
        0x8822 => Some(TagDef { name: "ExposureProgram", format: Some(Format::Int16u), print_conv: PrintConv::IntMap(&[(0i64, "Not Defined"), (1i64, "Manual"), (2i64, "Program AE"), (3i64, "Aperture-priority AE"), (4i64, "Shutter speed priority AE"), (5i64, "Creative (Slow speed)"), (6i64, "Action (High speed)"), (7i64, "Portrait"), (8i64, "Landscape"), (9i64, "Bulb")]), sub_dir: SubDir::Plain, group1: "ExifIFD" }),
        0x8825 => Some(TagDef { name: "GPSInfo", format: Some(Format::Int32u), print_conv: PrintConv::Plain, sub_dir: SubDir::GpsIfd, group1: "IFD0" }),
        0x8827 => Some(TagDef { name: "ISO", format: Some(Format::Int16u), print_conv: PrintConv::Plain, sub_dir: SubDir::Plain, group1: "ExifIFD" }),
        0x8830 => Some(TagDef { name: "SensitivityType", format: Some(Format::Int16u), print_conv: PrintConv::IntMap(&[(0i64, "Unknown"), (1i64, "Standard Output Sensitivity"), (2i64, "Recommended Exposure Index"), (3i64, "ISO Speed"), (4i64, "Standard Output Sensitivity and Recommended Exposure Index"), (5i64, "Standard Output Sensitivity and ISO Speed"), (6i64, "Recommended Exposure Index and ISO Speed"), (7i64, "Standard Output Sensitivity, Recommended Exposure Index and ISO Speed")]), sub_dir: SubDir::Plain, group1: "ExifIFD" }),
        0x9000 => Some(TagDef { name: "ExifVersion", format: Some(Format::Undef), print_conv: PrintConv::Plain, sub_dir: SubDir::Plain, group1: "ExifIFD" }),
        0x9003 => Some(TagDef { name: "DateTimeOriginal", format: Some(Format::String), print_conv: PrintConv::Plain, sub_dir: SubDir::Plain, group1: "ExifIFD" }),
        0x9004 => Some(TagDef { name: "CreateDate", format: Some(Format::String), print_conv: PrintConv::Plain, sub_dir: SubDir::Plain, group1: "ExifIFD" }),
        0x9010 => Some(TagDef { name: "OffsetTime", format: Some(Format::String), print_conv: PrintConv::Plain, sub_dir: SubDir::Plain, group1: "ExifIFD" }),
        0x9011 => Some(TagDef { name: "OffsetTimeOriginal", format: Some(Format::String), print_conv: PrintConv::Plain, sub_dir: SubDir::Plain, group1: "ExifIFD" }),
        0x9012 => Some(TagDef { name: "OffsetTimeDigitized", format: Some(Format::String), print_conv: PrintConv::Plain, sub_dir: SubDir::Plain, group1: "ExifIFD" }),
        0x9101 => Some(TagDef { name: "ComponentsConfiguration", format: Some(Format::Undef), print_conv: PrintConv::Plain, sub_dir: SubDir::Plain, group1: "ExifIFD" }),
        0x9102 => Some(TagDef { name: "CompressedBitsPerPixel", format: Some(Format::Rational64u), print_conv: PrintConv::Plain, sub_dir: SubDir::Plain, group1: "ExifIFD" }),
        0x9201 => Some(TagDef { name: "ShutterSpeedValue", format: Some(Format::Rational64s), print_conv: PrintConv::Plain, sub_dir: SubDir::Plain, group1: "ExifIFD" }),
        0x9202 => Some(TagDef { name: "ApertureValue", format: Some(Format::Rational64u), print_conv: PrintConv::Plain, sub_dir: SubDir::Plain, group1: "ExifIFD" }),
        0x9203 => Some(TagDef { name: "BrightnessValue", format: Some(Format::Rational64s), print_conv: PrintConv::Plain, sub_dir: SubDir::Plain, group1: "ExifIFD" }),
        0x9204 => Some(TagDef { name: "ExposureCompensation", format: Some(Format::Rational64s), print_conv: PrintConv::Plain, sub_dir: SubDir::Plain, group1: "ExifIFD" }),
        0x9205 => Some(TagDef { name: "MaxApertureValue", format: Some(Format::Rational64u), print_conv: PrintConv::Plain, sub_dir: SubDir::Plain, group1: "ExifIFD" }),
        0x9206 => Some(TagDef { name: "SubjectDistance", format: Some(Format::Rational64u), print_conv: PrintConv::Plain, sub_dir: SubDir::Plain, group1: "ExifIFD" }),
        0x9207 => Some(TagDef { name: "MeteringMode", format: Some(Format::Int16u), print_conv: PrintConv::IntMap(&[(0i64, "Unknown"), (1i64, "Average"), (2i64, "Center-weighted average"), (3i64, "Spot"), (4i64, "Multi-spot"), (5i64, "Multi-segment"), (6i64, "Partial"), (255i64, "Other")]), sub_dir: SubDir::Plain, group1: "ExifIFD" }),
        0x9208 => Some(TagDef { name: "LightSource", format: Some(Format::Int16u), print_conv: PrintConv::IntMap(&[(0i64, "Unknown"), (1i64, "Daylight"), (2i64, "Fluorescent"), (3i64, "Tungsten (Incandescent)"), (4i64, "Flash"), (9i64, "Fine Weather"), (10i64, "Cloudy"), (11i64, "Shade"), (12i64, "Daylight Fluorescent"), (13i64, "Day White Fluorescent"), (14i64, "Cool White Fluorescent"), (15i64, "White Fluorescent"), (16i64, "Warm White Fluorescent"), (17i64, "Standard Light A"), (18i64, "Standard Light B"), (19i64, "Standard Light C"), (20i64, "D55"), (21i64, "D65"), (22i64, "D75"), (23i64, "D50"), (24i64, "ISO Studio Tungsten"), (255i64, "Other")]), sub_dir: SubDir::Plain, group1: "ExifIFD" }),
        0x9209 => Some(TagDef { name: "Flash", format: Some(Format::Int16u), print_conv: PrintConv::IntMap(&[(0i64, "No Flash"), (1i64, "Fired"), (5i64, "Fired, Return not detected"), (7i64, "Fired, Return detected"), (8i64, "On, Did not fire"), (9i64, "On, Fired"), (13i64, "On, Return not detected"), (15i64, "On, Return detected"), (16i64, "Off, Did not fire"), (20i64, "Off, Did not fire, Return not detected"), (24i64, "Auto, Did not fire"), (25i64, "Auto, Fired"), (29i64, "Auto, Fired, Return not detected"), (31i64, "Auto, Fired, Return detected"), (32i64, "No flash function"), (48i64, "Off, No flash function"), (65i64, "Fired, Red-eye reduction"), (69i64, "Fired, Red-eye reduction, Return not detected"), (71i64, "Fired, Red-eye reduction, Return detected"), (73i64, "On, Red-eye reduction"), (77i64, "On, Red-eye reduction, Return not detected"), (79i64, "On, Red-eye reduction, Return detected"), (80i64, "Off, Red-eye reduction"), (88i64, "Auto, Did not fire, Red-eye reduction"), (89i64, "Auto, Fired, Red-eye reduction"), (93i64, "Auto, Fired, Red-eye reduction, Return not detected"), (95i64, "Auto, Fired, Red-eye reduction, Return detected")]), sub_dir: SubDir::Plain, group1: "ExifIFD" }),
        0x920a => Some(TagDef { name: "FocalLength", format: Some(Format::Rational64u), print_conv: PrintConv::Plain, sub_dir: SubDir::Plain, group1: "ExifIFD" }),
        0x927c => Some(TagDef { name: "MakerNote", format: Some(Format::Undef), print_conv: PrintConv::Plain, sub_dir: SubDir::MakerNotes, group1: "ExifIFD" }),
        0x9286 => Some(TagDef { name: "UserComment", format: Some(Format::Undef), print_conv: PrintConv::Plain, sub_dir: SubDir::Plain, group1: "ExifIFD" }),
        0x9290 => Some(TagDef { name: "SubSecTime", format: Some(Format::String), print_conv: PrintConv::Plain, sub_dir: SubDir::Plain, group1: "ExifIFD" }),
        0x9291 => Some(TagDef { name: "SubSecTimeOriginal", format: Some(Format::String), print_conv: PrintConv::Plain, sub_dir: SubDir::Plain, group1: "ExifIFD" }),
        0x9292 => Some(TagDef { name: "SubSecTimeDigitized", format: Some(Format::String), print_conv: PrintConv::Plain, sub_dir: SubDir::Plain, group1: "ExifIFD" }),
        0xa000 => Some(TagDef { name: "FlashpixVersion", format: Some(Format::Undef), print_conv: PrintConv::Plain, sub_dir: SubDir::Plain, group1: "ExifIFD" }),
        0xa001 => Some(TagDef { name: "ColorSpace", format: Some(Format::Int16u), print_conv: PrintConv::IntMap(&[(1i64, "sRGB"), (2i64, "Adobe RGB"), (65533i64, "Wide Gamut RGB"), (65534i64, "ICC Profile"), (65535i64, "Uncalibrated")]), sub_dir: SubDir::Plain, group1: "ExifIFD" }),
        0xa002 => Some(TagDef { name: "ExifImageWidth", format: Some(Format::Int16u), print_conv: PrintConv::Plain, sub_dir: SubDir::Plain, group1: "ExifIFD" }),
        0xa003 => Some(TagDef { name: "ExifImageHeight", format: Some(Format::Int16u), print_conv: PrintConv::Plain, sub_dir: SubDir::Plain, group1: "ExifIFD" }),
        0xa005 => Some(TagDef { name: "InteropOffset", format: Some(Format::Int32u), print_conv: PrintConv::Plain, sub_dir: SubDir::InteropIfd, group1: "ExifIFD" }),
        0xa20e => Some(TagDef { name: "FocalPlaneXResolution", format: Some(Format::Rational64u), print_conv: PrintConv::Plain, sub_dir: SubDir::Plain, group1: "ExifIFD" }),
        0xa20f => Some(TagDef { name: "FocalPlaneYResolution", format: Some(Format::Rational64u), print_conv: PrintConv::Plain, sub_dir: SubDir::Plain, group1: "ExifIFD" }),
        0xa210 => Some(TagDef { name: "FocalPlaneResolutionUnit", format: Some(Format::Int16u), print_conv: PrintConv::IntMap(&[(1i64, "None"), (2i64, "inches"), (3i64, "cm"), (4i64, "mm"), (5i64, "um")]), sub_dir: SubDir::Plain, group1: "ExifIFD" }),
        0xa217 => Some(TagDef { name: "SensingMethod", format: Some(Format::Int16u), print_conv: PrintConv::IntMap(&[(1i64, "Not defined"), (2i64, "One-chip color area"), (3i64, "Two-chip color area"), (4i64, "Three-chip color area"), (5i64, "Color sequential area"), (7i64, "Trilinear"), (8i64, "Color sequential linear")]), sub_dir: SubDir::Plain, group1: "ExifIFD" }),
        0xa300 => Some(TagDef { name: "FileSource", format: Some(Format::Undef), print_conv: PrintConv::Plain, sub_dir: SubDir::Plain, group1: "ExifIFD" }),
        0xa301 => Some(TagDef { name: "SceneType", format: Some(Format::Undef), print_conv: PrintConv::Plain, sub_dir: SubDir::Plain, group1: "ExifIFD" }),
        0xa401 => Some(TagDef { name: "CustomRendered", format: Some(Format::Int16u), print_conv: PrintConv::IntMap(&[(0i64, "Normal"), (1i64, "Custom")]), sub_dir: SubDir::Plain, group1: "ExifIFD" }),
        0xa402 => Some(TagDef { name: "ExposureMode", format: Some(Format::Int16u), print_conv: PrintConv::IntMap(&[(0i64, "Auto"), (1i64, "Manual"), (2i64, "Auto bracket")]), sub_dir: SubDir::Plain, group1: "ExifIFD" }),
        0xa403 => Some(TagDef { name: "WhiteBalance", format: Some(Format::Int16u), print_conv: PrintConv::IntMap(&[(0i64, "Auto"), (1i64, "Manual")]), sub_dir: SubDir::Plain, group1: "ExifIFD" }),
        0xa404 => Some(TagDef { name: "DigitalZoomRatio", format: Some(Format::Rational64u), print_conv: PrintConv::Plain, sub_dir: SubDir::Plain, group1: "ExifIFD" }),
        0xa405 => Some(TagDef { name: "FocalLengthIn35mmFormat", format: Some(Format::Int16u), print_conv: PrintConv::Plain, sub_dir: SubDir::Plain, group1: "ExifIFD" }),
        0xa406 => Some(TagDef { name: "SceneCaptureType", format: Some(Format::Int16u), print_conv: PrintConv::IntMap(&[(0i64, "Standard"), (1i64, "Landscape"), (2i64, "Portrait"), (3i64, "Night")]), sub_dir: SubDir::Plain, group1: "ExifIFD" }),
        0xa407 => Some(TagDef { name: "GainControl", format: Some(Format::Int16u), print_conv: PrintConv::IntMap(&[(0i64, "None"), (1i64, "Low gain up"), (2i64, "High gain up"), (3i64, "Low gain down"), (4i64, "High gain down")]), sub_dir: SubDir::Plain, group1: "ExifIFD" }),
        0xa408 => Some(TagDef { name: "Contrast", format: Some(Format::Int16u), print_conv: PrintConv::IntMap(&[(0i64, "Normal"), (1i64, "Low"), (2i64, "High")]), sub_dir: SubDir::Plain, group1: "ExifIFD" }),
        0xa409 => Some(TagDef { name: "Saturation", format: Some(Format::Int16u), print_conv: PrintConv::IntMap(&[(0i64, "Normal"), (1i64, "Low"), (2i64, "High")]), sub_dir: SubDir::Plain, group1: "ExifIFD" }),
        0xa40a => Some(TagDef { name: "Sharpness", format: Some(Format::Int16u), print_conv: PrintConv::IntMap(&[(0i64, "Normal"), (1i64, "Soft"), (2i64, "Hard")]), sub_dir: SubDir::Plain, group1: "ExifIFD" }),
        0xa40c => Some(TagDef { name: "SubjectDistanceRange", format: Some(Format::Int16u), print_conv: PrintConv::IntMap(&[(0i64, "Unknown"), (1i64, "Macro"), (2i64, "Close"), (3i64, "Distant")]), sub_dir: SubDir::Plain, group1: "ExifIFD" }),
        0xa420 => Some(TagDef { name: "ImageUniqueID", format: Some(Format::String), print_conv: PrintConv::Plain, sub_dir: SubDir::Plain, group1: "ExifIFD" }),
        0xa430 => Some(TagDef { name: "OwnerName", format: Some(Format::String), print_conv: PrintConv::Plain, sub_dir: SubDir::Plain, group1: "ExifIFD" }),
        0xa431 => Some(TagDef { name: "SerialNumber", format: Some(Format::String), print_conv: PrintConv::Plain, sub_dir: SubDir::Plain, group1: "ExifIFD" }),
        0xa432 => Some(TagDef { name: "LensInfo", format: Some(Format::Rational64u), print_conv: PrintConv::Plain, sub_dir: SubDir::Plain, group1: "ExifIFD" }),
        0xa433 => Some(TagDef { name: "LensMake", format: Some(Format::String), print_conv: PrintConv::Plain, sub_dir: SubDir::Plain, group1: "ExifIFD" }),
        0xa434 => Some(TagDef { name: "LensModel", format: Some(Format::String), print_conv: PrintConv::Plain, sub_dir: SubDir::Plain, group1: "ExifIFD" }),
        0xa435 => Some(TagDef { name: "LensSerialNumber", format: Some(Format::String), print_conv: PrintConv::Plain, sub_dir: SubDir::Plain, group1: "ExifIFD" }),
        0xc4a5 => Some(TagDef { name: "PrintIM", format: Some(Format::Undef), print_conv: PrintConv::Plain, sub_dir: SubDir::Plain, group1: "IFD0" }),
        _ => None,
    }
}

/// Tags of the GPS table, by number.
pub open spec fn gps_table(id: u16) -> Option<TagDef> {
    if id == 0x0000 {
        Some(TagDef { name: "GPSVersionID", format: Some(Format::Int8u), print_conv: PrintConv::Plain, sub_dir: SubDir::Plain, group1: "GPS" })
    } else if id == 0x0001 {
        Some(TagDef { name: "GPSLatitudeRef", format: Some(Format::String), print_conv: PrintConv::StrMap(&[("N", "North"), ("S", "South")]), sub_dir: SubDir::Plain, group1: "GPS" })
    } else if id == 0x0002 {
        Some(TagDef { name: "GPSLatitude", format: Some(Format::Rational64u), print_conv: PrintConv::Plain, sub_dir: SubDir::Plain, group1: "GPS" })
    } else if id == 0x0003 {
        Some(TagDef { name: "GPSLongitudeRef", format: Some(Format::String), print_conv: PrintConv::StrMap(&[("E", "East"), ("W", "West")]), sub_dir: SubDir::Plain, group1: "GPS" })
    } else if id == 0x0004 {
        Some(TagDef { name: "GPSLongitude", format: Some(Format::Rational64u), print_conv: PrintConv::Plain, sub_dir: SubDir::Plain, group1: "GPS" })
    } else if id == 0x0005 {
        Some(TagDef { name: "GPSAltitudeRef", format: Some(Format::Int8u), print_conv: PrintConv::IntMap(&[(0i64, "Above Sea Level"), (1i64, "Below Sea Level")]), sub_dir: SubDir::Plain, group1: "GPS" })
    } else if id == 0x0006 {
        Some(TagDef { name: "GPSAltitude", format: Some(Format::Rational64u), print_conv: PrintConv::Plain, sub_dir: SubDir::Plain, group1: "GPS" })
    } else if id == 0x0007 {
        Some(TagDef { name: "GPSTimeStamp", format: Some(Format::Rational64u), print_conv: PrintConv::Plain, sub_dir: SubDir::Plain, group1: "GPS" })
    } else if id == 0x0008 {
        Some(TagDef { name: "GPSSatellites", format: Some(Format::String), print_conv: PrintConv::Plain, sub_dir: SubDir::Plain, group1: "GPS" })
    } else if id == 0x0009 {
        Some(TagDef { name: "GPSStatus", format: Some(Format::String), print_conv: PrintConv::StrMap(&[("A", "Measurement Active"), ("V", "Measurement Void")]), sub_dir: SubDir::Plain, group1: "GPS" })
    } else if id == 0x000a {
        Some(TagDef { name: "GPSMeasureMode", format: Some(Format::String), print_conv: PrintConv::StrMap(&[("2", "2-Dimensional Measurement"), ("3", "3-Dimensional Measurement")]), sub_dir: SubDir::Plain, group1: "GPS" })
    } else if id == 0x000b {
        Some(TagDef { name: "GPSDOP", format: Some(Format::Rational64u), print_conv: PrintConv::Plain, sub_dir: SubDir::Plain, group1: "GPS" })
    } else if id == 0x000c {
        Some(TagDef { name: "GPSSpeedRef", format: Some(Format::String), print_conv: PrintConv::StrMap(&[("K", "km/h"), ("M", "mph"), ("N", "knots")]), sub_dir: SubDir::Plain, group1: "GPS" })
    } else if id == 0x000d {
        Some(TagDef { name: "GPSSpeed", format: Some(Format::Rational64u), print_conv: PrintConv::Plain, sub_dir: SubDir::Plain, group1: "GPS" })
    } else if id == 0x000e {
        Some(TagDef { name: "GPSTrackRef", format: Some(Format::String), print_conv: PrintConv::StrMap(&[("M", "Magnetic North"), ("T", "True North")]), sub_dir: SubDir::Plain, group1: "GPS" })
    } else if id == 0x000f {
        Some(TagDef { name: "GPSTrack", format: Some(Format::Rational64u), print_conv: PrintConv::Plain, sub_dir: SubDir::Plain, group1: "GPS" })
    } else if id == 0x0010 {
        Some(TagDef { name: "GPSImgDirectionRef", format: Some(Format::String), print_conv: PrintConv::StrMap(&[("M", "Magnetic North"), ("T", "True North")]), sub_dir: SubDir::Plain, group1: "GPS" })
    } else if id == 0x0011 {
        Some(TagDef { name: "GPSImgDirection", format: Some(Format::Rational64u), print_conv: PrintConv::Plain, sub_dir: SubDir::Plain, group1: "GPS" })
    } else if id == 0x0012 {
        Some(TagDef { name: "GPSMapDatum", format: Some(Format::String), print_conv: PrintConv::Plain, sub_dir: SubDir::Plain, group1: "GPS" })
    } else if id == 0x0013 {
        Some(TagDef { name: "GPSDestLatitudeRef", format: Some(Format::String), print_conv: PrintConv::StrMap(&[("N", "North"), ("S", "South")]), sub_dir: SubDir::Plain, group1: "GPS" })
    } else if id == 0x0014 {
        Some(TagDef { name: "GPSDestLatitude", format: Some(Format::Rational64u), print_conv: PrintConv::Plain, sub_dir: SubDir::Plain, group1: "GPS" })
    } else if id == 0x0015 {
        Some(TagDef { name: "GPSDestLongitudeRef", format: Some(Format::String), print_conv: PrintConv::StrMap(&[("E", "East"), ("W", "West")]), sub_dir: SubDir::Plain, group1: "GPS" })
    } else if id == 0x0016 {
        Some(TagDef { name: "GPSDestLongitude", format: Some(Format::Rational64u), print_conv: PrintConv::Plain, sub_dir: SubDir::Plain, group1: "GPS" })
    } else if id == 0x0017 {
        Some(TagDef { name: "GPSDestBearingRef", format: Some(Format::String), print_conv: PrintConv::StrMap(&[("M", "Magnetic North"), ("T", "True North")]), sub_dir: SubDir::Plain, group1: "GPS" })
    } else if id == 0x0018 {
        Some(TagDef { name: "GPSDestBearing", format: Some(Format::Rational64u), print_conv: PrintConv::Plain, sub_dir: SubDir::Plain, group1: "GPS" })
    } else if id == 0x0019 {
        Some(TagDef { name: "GPSDestDistanceRef", format: Some(Format::String), print_conv: PrintConv::StrMap(&[("K", "Kilometers"), ("M", "Miles"), ("N", "Nautical Miles")]), sub_dir: SubDir::Plain, group1: "GPS" })
    } else if id == 0x001a {
        Some(TagDef { name: "GPSDestDistance", format: Some(Format::Rational64u), print_conv: PrintConv::Plain, sub_dir: SubDir::Plain, group1: "GPS" })
    } else if id == 0x001b {
        Some(TagDef { name: "GPSProcessingMethod", format: Some(Format::Undef), print_conv: PrintConv::Plain, sub_dir: SubDir::Plain, group1: "GPS" })
    } else if id == 0x001c {
        Some(TagDef { name: "GPSAreaInformation", format: Some(Format::Undef), print_conv: PrintConv::Plain, sub_dir: SubDir::Plain, group1: "GPS" })
    } else if id == 0x001d {
        Some(TagDef { name: "GPSDateStamp", format: Some(Format::String), print_conv: PrintConv::Plain, sub_dir: SubDir::Plain, group1: "GPS" })
    } else if id == 0x001e {
        Some(TagDef { name: "GPSDifferential", format: Some(Format::Int16u), print_conv: PrintConv::IntMap(&[(0i64, "No Correction"), (1i64, "Differential Corrected")]), sub_dir: SubDir::Plain, group1: "GPS" })
    } else if id == 0x001f {
        Some(TagDef { name: "GPSHPositioningError", format: Some(Format::Rational64u), print_conv: PrintConv::Plain, sub_dir: SubDir::Plain, group1: "GPS" })
    } else {
        None
    }
}

/// The definition of the tag with number `id` in this table, if any.
pub fn lookup_gps(id: u16) -> (r: Option<TagDef>)
    ensures
        r == gps_table(id),
{
    match id {
        0x0000 => Some(TagDef { name: "GPSVersionID", format: Some(Format::Int8u), print_conv: PrintConv::Plain, sub_dir: SubDir::Plain, group1: "GPS" }),
        0x0001 => Some(TagDef { name: "GPSLatitudeRef", format: Some(Format::String), print_conv: PrintConv::StrMap(&[("N", "North"), ("S", "South")]), sub_dir: SubDir::Plain, group1: "GPS" }),
        0x0002 => Some(TagDef { name: "GPSLatitude", format: Some(Format::Rational64u), print_conv: PrintConv::Plain, sub_dir: SubDir::Plain, group1: "GPS" }),
        0x0003 => Some(TagDef { name: "GPSLongitudeRef", format: Some(Format::String), print_conv: PrintConv::StrMap(&[("E", "East"), ("W", "West")]), sub_dir: SubDir::Plain, group1: "GPS" }),
        0x0004 => Some(TagDef { name: "GPSLongitude", format: Some(Format::Rational64u), print_conv: PrintConv::Plain, sub_dir: SubDir::Plain, group1: "GPS" }),
        0x0005 => Some(TagDef { name: "GPSAltitudeRef", format: Some(Format::Int8u), print_conv: PrintConv::IntMap(&[(0i64, "Above Sea Level"), (1i64, "Below Sea Level")]), sub_dir: SubDir::Plain, group1: "GPS" }),
        0x0006 => Some(TagDef { name: "GPSAltitude", format: Some(Format::Rational64u), print_conv: PrintConv::Plain, sub_dir: SubDir::Plain, group1: "GPS" }),
        0x0007 => Some(TagDef { name: "GPSTimeStamp", format: Some(Format::Rational64u), print_conv: PrintConv::Plain, sub_dir: SubDir::Plain, group1: "GPS" }),
        0x0008 => Some(TagDef { name: "GPSSatellites", format: Some(Format::String), print_conv: PrintConv::Plain, sub_dir: SubDir::Plain, group1: "GPS" }),
        0x0009 => Some(TagDef { name: "GPSStatus", format: Some(Format::String), print_conv: PrintConv::StrMap(&[("A", "Measurement Active"), ("V", "Measurement Void")]), sub_dir: SubDir::Plain, group1: "GPS" }),
        0x000a => Some(TagDef { name: "GPSMeasureMode", format: Some(Format::String), print_conv: PrintConv::StrMap(&[("2", "2-Dimensional Measurement"), ("3", "3-Dimensional Measurement")]), sub_dir: SubDir::Plain, group1: "GPS" }),
        0x000b => Some(TagDef { name: "GPSDOP", format: Some(Format::Rational64u), print_conv: PrintConv::Plain, sub_dir: SubDir::Plain, group1: "GPS" }),
        0x000c => Some(TagDef { name: "GPSSpeedRef", format: Some(Format::String), print_conv: PrintConv::StrMap(&[("K", "km/h"), ("M", "mph"), ("N", "knots")]), sub_dir: SubDir::Plain, group1: "GPS" }),
        0x000d => Some(TagDef { name: "GPSSpeed", format: Some(Format::Rational64u), print_conv: PrintConv::Plain, sub_dir: SubDir::Plain, group1: "GPS" }),
        0x000e => Some(TagDef { name: "GPSTrackRef", format: Some(Format::String), print_conv: PrintConv::StrMap(&[("M", "Magnetic North"), ("T", "True North")]), sub_dir: SubDir::Plain, group1: "GPS" }),
        0x000f => Some(TagDef { name: "GPSTrack", format: Some(Format::Rational64u), print_conv: PrintConv::Plain, sub_dir: SubDir::Plain, group1: "GPS" }),
        0x0010 => Some(TagDef { name: "GPSImgDirectionRef", format: Some(Format::String), print_conv: PrintConv::StrMap(&[("M", "Magnetic North"), ("T", "True North")]), sub_dir: SubDir::Plain, group1: "GPS" }),
        0x0011 => Some(TagDef { name: "GPSImgDirection", format: Some(Format::Rational64u), print_conv: PrintConv::Plain, sub_dir: SubDir::Plain, group1: "GPS" }),
        0x0012 => Some(TagDef { name: "GPSMapDatum", format: Some(Format::String), print_conv: PrintConv::Plain, sub_dir: SubDir::Plain, group1: "GPS" }),
        0x0013 => Some(TagDef { name: "GPSDestLatitudeRef", format: Some(Format::String), print_conv: PrintConv::StrMap(&[("N", "North"), ("S", "South")]), sub_dir: SubDir::Plain, group1: "GPS" }),
        0x0014 => Some(TagDef { name: "GPSDestLatitude", format: Some(Format::Rational64u), print_conv: PrintConv::Plain, sub_dir: SubDir::Plain, group1: "GPS" }),
        0x0015 => Some(TagDef { name: "GPSDestLongitudeRef", format: Some(Format::String), print_conv: PrintConv::StrMap(&[("E", "East"), ("W", "West")]), sub_dir: SubDir::Plain, group1: "GPS" }),
        0x0016 => Some(TagDef { name: "GPSDestLongitude", format: Some(Format::Rational64u), print_conv: PrintConv::Plain, sub_dir: SubDir::Plain, group1: "GPS" }),
        0x0017 => Some(TagDef { name: "GPSDestBearingRef", format: Some(Format::String), print_conv: PrintConv::StrMap(&[("M", "Magnetic North"), ("T", "True North")]), sub_dir: SubDir::Plain, group1: "GPS" }),
        0x0018 => Some(TagDef { name: "GPSDestBearing", format: Some(Format::Rational64u), print_conv: PrintConv::Plain, sub_dir: SubDir::Plain, group1: "GPS" }),
        0x0019 => Some(TagDef { name: "GPSDestDistanceRef", format: Some(Format::String), print_conv: PrintConv::StrMap(&[("K", "Kilometers"), ("M", "Miles"), ("N", "Nautical Miles")]), sub_dir: SubDir::Plain, group1: "GPS" }),
        0x001a => Some(TagDef { name: "GPSDestDistance", format: Some(Format::Rational64u), print_conv: PrintConv::Plain, sub_dir: SubDir::Plain, group1: "GPS" }),
        0x001b => Some(TagDef { name: "GPSProcessingMethod", format: Some(Format::Undef), print_conv: PrintConv::Plain, sub_dir: SubDir::Plain, group1: "GPS" }),
        0x001c => Some(TagDef { name: "GPSAreaInformation", format: Some(Format::Undef), print_conv: PrintConv::Plain, sub_dir: SubDir::Plain, group1: "GPS" }),
        0x001d => Some(TagDef { name: "GPSDateStamp", format: Some(Format::String), print_conv: PrintConv::Plain, sub_dir: SubDir::Plain, group1: "GPS" }),
        0x001e => Some(TagDef { name: "GPSDifferential", format: Some(Format::Int16u), print_conv: PrintConv::IntMap(&[(0i64, "No Correction"), (1i64, "Differential Corrected")]), sub_dir: SubDir::Plain, group1: "GPS" }),
        0x001f => Some(TagDef { name: "GPSHPositioningError", format: Some(Format::Rational64u), print_conv: PrintConv::Plain, sub_dir: SubDir::Plain, group1: "GPS" }),
        _ => None,
    }
}

/// The PNG textual keywords that have a tag definition, in keyword order.
pub open spec fn png_text_table() -> Seq<(&'static str, PngTextDef)> {
    seq![("Artist", PngTextDef { name: "Artist", group1: "PNG", print_conv: PrintConv::Plain }), ("Author", PngTextDef { name: "Author", group1: "PNG", print_conv: PrintConv::Plain }), ("Collection", PngTextDef { name: "Collection", group1: "PNG", print_conv: PrintConv::Plain }), ("Comment", PngTextDef { name: "Comment", group1: "PNG", print_conv: PrintConv::Plain }), ("Copyright", PngTextDef { name: "Copyright", group1: "PNG", print_conv: PrintConv::Plain }), ("Creation Time", PngTextDef { name: "CreationTime", group1: "PNG", print_conv: PrintConv::Plain }), ("Description", PngTextDef { name: "Description", group1: "PNG", print_conv: PrintConv::Plain }), ("Disclaimer", PngTextDef { name: "Disclaimer", group1: "PNG", print_conv: PrintConv::Plain }), ("Document", PngTextDef { name: "Document", group1: "PNG", print_conv: PrintConv::Plain }), ("Label", PngTextDef { name: "Label", group1: "PNG", print_conv: PrintConv::Plain }), ("Make", PngTextDef { name: "Make", group1: "PNG", print_conv: PrintConv::Plain }), ("Model", PngTextDef { name: "Model", group1: "PNG", print_conv: PrintConv::Plain }), ("Software", PngTextDef { name: "Software", group1: "PNG", print_conv: PrintConv::Plain }), ("Source", PngTextDef { name: "Source", group1: "PNG", print_conv: PrintConv::Plain }), ("Title", PngTextDef { name: "Title", group1: "PNG", print_conv: PrintConv::Plain }), ("URL", PngTextDef { name: "URL", group1: "PNG", print_conv: PrintConv::Plain }), ("Warning", PngTextDef { name: "PNGWarning", group1: "PNG", print_conv: PrintConv::Plain }), ("XML:com.adobe.xmp", PngTextDef { name: "XMP", group1: "XMP", print_conv: PrintConv::Plain })]
}

/// The table of PNG textual keywords.
pub fn png_textual() -> (r: &'static [(&'static str, PngTextDef)])
    ensures
        r@ == png_text_table(),
{
    let t: &'static [(&'static str, PngTextDef)] = &[("Artist", PngTextDef { name: "Artist", group1: "PNG", print_conv: PrintConv::Plain }), ("Author", PngTextDef { name: "Author", group1: "PNG", print_conv: PrintConv::Plain }), ("Collection", PngTextDef { name: "Collection", group1: "PNG", print_conv: PrintConv::Plain }), ("Comment", PngTextDef { name: "Comment", group1: "PNG", print_conv: PrintConv::Plain }), ("Copyright", PngTextDef { name: "Copyright", group1: "PNG", print_conv: PrintConv::Plain }), ("Creation Time", PngTextDef { name: "CreationTime", group1: "PNG", print_conv: PrintConv::Plain }), ("Description", PngTextDef { name: "Description", group1: "PNG", print_conv: PrintConv::Plain }), ("Disclaimer", PngTextDef { name: "Disclaimer", group1: "PNG", print_conv: PrintConv::Plain }), ("Document", PngTextDef { name: "Document", group1: "PNG", print_conv: PrintConv::Plain }), ("Label", PngTextDef { name: "Label", group1: "PNG", print_conv: PrintConv::Plain }), ("Make", PngTextDef { name: "Make", group1: "PNG", print_conv: PrintConv::Plain }), ("Model", PngTextDef { name: "Model", group1: "PNG", print_conv: PrintConv::Plain }), ("Software", PngTextDef { name: "Software", group1: "PNG", print_conv: PrintConv::Plain }), ("Source", PngTextDef { name: "Source", group1: "PNG", print_conv: PrintConv::Plain }), ("Title", PngTextDef { name: "Title", group1: "PNG", print_conv: PrintConv::Plain }), ("URL", PngTextDef { name: "URL", group1: "PNG", print_conv: PrintConv::Plain }), ("Warning", PngTextDef { name: "PNGWarning", group1: "PNG", print_conv: PrintConv::Plain }), ("XML:com.adobe.xmp", PngTextDef { name: "XMP", group1: "XMP", print_conv: PrintConv::Plain })];
    assert(t@ =~= png_text_table());
    t
}

/// Index of the first entry of `t` from `i` on whose key is `kw`.
pub open spec fn first_key(t: Seq<(&'static str, PngTextDef)>, kw: Seq<char>, i: int) -> Option<int>
    decreases t.len() - i,
{
    if i < 0 || i >= t.len() {
        None
    } else if t[i].0@ == kw {
        Some(i)
    } else {
        first_key(t, kw, i + 1)
    }
}

/// Index of the first entry of `t` from `i` on whose tag name is `name`.
pub open spec fn first_name(t: Seq<(&'static str, PngTextDef)>, name: Seq<char>, i: int) -> Option<int>
    decreases t.len() - i,
{
    if i < 0 || i >= t.len() {
        None
    } else if t[i].1.name@ == name {
        Some(i)
    } else {
        first_name(t, name, i + 1)
    }
}

/// The definition of the PNG textual keyword `keyword`, if it has one.
pub fn lookup_png_text(keyword: &str) -> (r: Option<PngTextDef>)
    ensures
        r == (match first_key(png_text_table(), keyword@, 0) {
            Some(i) => Some(png_text_table()[i].1),
            None => None,
        }),
{
    let t = png_textual();
    let mut i: usize = 0;
    while i < t.len()
        invariant
            t@ == png_text_table(),
            i <= t@.len(),
            first_key(png_text_table(), keyword@, 0) == first_key(png_text_table(), keyword@, i as int),
        decreases t@.len() - i,
    {
        if str_eq(t[i].0, keyword) {
            return Some(t[i].1);
        }
        i += 1;
    }
    None
}

/// The first PNG textual definition whose tag name is `name`.
pub fn lookup_png_text_by_tagname(name: &str) -> (r: Option<PngTextDef>)
    ensures
        r == (match first_name(png_text_table(), name@, 0) {
            Some(i) => Some(png_text_table()[i].1),
            None => None,
        }),
{
    let t = png_textual();
    let mut i: usize = 0;
    while i < t.len()
        invariant
            t@ == png_text_table(),
            i <= t@.len(),
            first_name(png_text_table(), name@, 0) == first_name(png_text_table(), name@, i as int),
        decreases t@.len() - i,
    {
        if str_eq(t[i].1.name, name) {
            return Some(t[i].1);
        }
        i += 1;
    }
    None
}

} // verus!
