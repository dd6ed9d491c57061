//! Readable tag values: the print conversions of the tag tables, GPS references and the
//! parts of GPS coordinates; what is left (coordinates in degrees, and values as they are)
//! the caller computes from what `record_text` returns.
use crate::metadata::{TagModel, TagRecord};
use crate::tables::{first_name, lookup_exif, lookup_gps, lookup_png_text_by_tagname, png_text_table};
use crate::tag_def::PrintConv;
use crate::text::{str_eq, string_of, trim_spec, trim_with, TrimSet};
use crate::tiff::def_of;
use crate::gps::{coord_spec, coordinate_parts, format_lat_ref, format_lon_ref, lat_ref_text, lon_ref_text, single_coordinate};
use crate::value::{Rational, Value, ValueModel};
use vstd::prelude::*;

verus! {

/// The integer that an integer value holds, when it fits an `i64`.
pub open spec fn value_int(v: ValueModel) -> Option<int> {
    match v {
        ValueModel::U8(x) => Some(x as int),
        ValueModel::U16(x) => Some(x as int),
        ValueModel::U32(x) => Some(x as int),
        ValueModel::U64(x) => if x <= i64::MAX {
            Some(x as int)
        } else {
            None
        },
        ValueModel::I8(x) => Some(x as int),
        ValueModel::I16(x) => Some(x as int),
        ValueModel::I32(x) => Some(x as int),
        ValueModel::I64(x) => Some(x as int),
        _ => None,
    }
}

fn value_as_i64(v: &Value) -> (r: Option<i64>)
    ensures
        match value_int(v@) {
            Some(n) => r == Some(n as i64),
            None => r is None,
        },
{
    match v {
        Value::U8(x) => Some(*x as i64),
        Value::U16(x) => Some(*x as i64),
        Value::U32(x) => Some(*x as i64),
        Value::U64(x) => if *x <= 0x7fff_ffff_ffff_ffff {
            Some(*x as i64)
        } else {
            None
        },
        Value::I8(x) => Some(*x as i64),
        Value::I16(x) => Some(*x as i64),
        Value::I32(x) => Some(*x as i64),
        Value::I64(x) => Some(*x),
        _ => None,
    }
}

/// The first entry of `pairs` from `i` on whose key is `n`.
pub open spec fn int_key_index(pairs: Seq<(i64, &'static str)>, n: int, i: int) -> Option<int>
    decreases pairs.len() - i,
{
    if i < 0 || i >= pairs.len() {
        None
    } else if pairs[i].0 == n {
        Some(i)
    } else {
        int_key_index(pairs, n, i + 1)
    }
}

/// The first entry of `pairs` from `i` on whose key is `k`.
pub open spec fn str_key_index(pairs: Seq<(&'static str, &'static str)>, k: Seq<char>, i: int) -> Option<int>
    decreases pairs.len() - i,
{
    if i < 0 || i >= pairs.len() {
        None
    } else if pairs[i].0@ == k {
        Some(i)
    } else {
        str_key_index(pairs, k, i + 1)
    }
}

/// The name that print conversion `pc` gives value `v`: an integer value looked up in an
/// integer map, a text value (trimmed) in a text map.
pub open spec fn map_text(pc: PrintConv, v: ValueModel) -> Option<Seq<char>> {
    match pc {
        PrintConv::Plain => None,
        PrintConv::IntMap(pairs) => match value_int(v) {
            None => None,
            Some(n) => match int_key_index(pairs@, n, 0) {
                Some(i) => Some(pairs@[i].1@),
                None => None,
            },
        },
        PrintConv::StrMap(pairs) => match v {
            ValueModel::Ascii(s) => match str_key_index(pairs@, trim_spec(s, TrimSet::Whitespace), 0) {
                Some(i) => Some(pairs@[i].1@),
                None => None,
            },
            ValueModel::Utf8(s) => match str_key_index(pairs@, trim_spec(s, TrimSet::Whitespace), 0) {
                Some(i) => Some(pairs@[i].1@),
                None => None,
            },
            _ => None,
        },
    }
}

fn lookup_int(pairs: &'static [(i64, &'static str)], n: i64) -> (r: Option<String>)
    ensures
        match int_key_index(pairs@, n as int, 0) {
            Some(i) => r matches Some(s) && s@ == pairs@[i].1@,
            None => r is None,
        },
{
    let mut i: usize = 0;
    while i < pairs.len()
        invariant
            i <= pairs@.len(),
            int_key_index(pairs@, n as int, 0) == int_key_index(pairs@, n as int, i as int),
        decreases pairs@.len() - i,
    {
        if pairs[i].0 == n {
            return Some(string_of(pairs[i].1));
        }
        i += 1;
    }
    None
}

fn lookup_str(pairs: &'static [(&'static str, &'static str)], k: &str) -> (r: Option<String>)
    ensures
        match str_key_index(pairs@, k@, 0) {
            Some(i) => r matches Some(s) && s@ == pairs@[i].1@,
            None => r is None,
        },
{
    let mut i: usize = 0;
    while i < pairs.len()
        invariant
            i <= pairs@.len(),
            str_key_index(pairs@, k@, 0) == str_key_index(pairs@, k@, i as int),
        decreases pairs@.len() - i,
    {
        if str_eq(pairs[i].0, k) {
            return Some(string_of(pairs[i].1));
        }
        i += 1;
    }
    None
}

/// The name that print conversion `pc` gives `v`, if any.
fn apply_map(pc: PrintConv, v: &Value) -> (r: Option<String>)
    ensures
        match map_text(pc, v@) {
            Some(t) => r matches Some(s) && s@ == t,
            None => r is None,
        },
{
    match pc {
        PrintConv::Plain => None,
        PrintConv::IntMap(pairs) => {
            let n = match value_as_i64(v) {
                Some(n) => n,
                None => return None,
            };
            lookup_int(pairs, n)
        },
        PrintConv::StrMap(pairs) => {
            let key = match v {
                Value::Ascii(s) => s.as_str(),
                Value::Utf8(s) => s.as_str(),
                _ => return None,
            };
            let key = trim_with(key, TrimSet::Whitespace, true, true);
            lookup_str(pairs, key.as_str())
        },
    }
}

/// The tags held by `all`.
pub open spec fn models(all: Seq<TagRecord>) -> Seq<TagModel> {
    all.map_values(|t: TagRecord| t@)
}

/// The first tag of `all` from `i` on with group `g` and name `n`.
pub open spec fn sibling_index(all: Seq<TagModel>, g: Seq<char>, n: Seq<char>, i: int) -> Option<int>
    decreases all.len() - i,
{
    if i < 0 || i >= all.len() {
        None
    } else if all[i].group == g && all[i].name == n {
        Some(i)
    } else {
        sibling_index(all, g, n, i + 1)
    }
}

fn sibling_value<'a>(records: &'a [TagRecord], group: &str, name: &str) -> (r: Option<&'a Value>)
    ensures
        match sibling_index(models(records@), group@, name@, 0) {
            Some(i) => r matches Some(v) && v@ == models(records@)[i].value,
            None => r is None,
        },
{
    let mut i: usize = 0;
    while i < records.len()
        invariant
            i <= records@.len(),
            sibling_index(models(records@), group@, name@, 0) == sibling_index(
                models(records@),
                group@,
                name@,
                i as int,
            ),
        decreases records@.len() - i,
    {
        if str_eq(records[i].group.as_str(), group) && str_eq(records[i].name.as_str(), name) {
            return Some(&records[i].value);
        }
        i += 1;
    }
    None
}

} // verus!

verus! {

/// How a tag is shown: as a GPS coordinate computed from its parts, as a text, or as its
/// value.
pub enum RecordText {
    Coordinate(Rational, Rational, Rational, bool),
    Text(String),
    Value,
}

/// What a `RecordText` holds.
pub enum RecordTextModel {
    Coordinate(Rational, Rational, Rational, bool),
    Text(Seq<char>),
    Value,
}

impl View for RecordText {
    type V = RecordTextModel;

    open spec fn view(&self) -> RecordTextModel {
        match self {
            RecordText::Coordinate(a, b, c, n) => RecordTextModel::Coordinate(*a, *b, *c, *n),
            RecordText::Text(s) => RecordTextModel::Text(s@),
            RecordText::Value => RecordTextModel::Value,
        }
    }
}

/// The text of the first tag of `all` in group `GPS` named `n`, when it is text.
pub open spec fn gps_ref(all: Seq<TagModel>, n: Seq<char>) -> Option<Seq<char>> {
    match sibling_index(all, "GPS"@, n, 0) {
        Some(i) => match all[i].value {
            ValueModel::Ascii(s) => Some(s),
            ValueModel::Utf8(s) => Some(s),
            _ => None,
        },
        None => None,
    }
}

/// A GPS latitude or longitude tag.
pub open spec fn is_gps_coordinate(rec: TagModel) -> bool {
    rec.group == "GPS"@ && (rec.name == "GPSLatitude"@ || rec.name == "GPSLongitude"@)
}

/// How `rec` is shown among the tags `all`: GPS latitude and longitude as coordinates (with
/// the sign of their reference tag), GPS references as `North`/`South`/`East`/`West`, values
/// with a print conversion (EXIF and GPS tags by id, PNG textual tags by name) by their
/// name; else as the value.
pub open spec fn record_spec(rec: TagModel, all: Seq<TagModel>) -> RecordTextModel {
    let gps = rec.group == "GPS"@;
    if gps && rec.name == "GPSLatitude"@ && coord_spec(rec.value, gps_ref(all, "GPSLatitudeRef"@)) is Some {
        let (a, b, c, n) = coord_spec(rec.value, gps_ref(all, "GPSLatitudeRef"@))->Some_0;
        RecordTextModel::Coordinate(a, b, c, n)
    } else if gps && rec.name == "GPSLongitude"@ && coord_spec(rec.value, gps_ref(all, "GPSLongitudeRef"@)) is Some {
        let (a, b, c, n) = coord_spec(rec.value, gps_ref(all, "GPSLongitudeRef"@))->Some_0;
        RecordTextModel::Coordinate(a, b, c, n)
    } else if gps && rec.name == "GPSLatitudeRef"@ && lat_ref_text(rec.value) is Some {
        RecordTextModel::Text(lat_ref_text(rec.value)->Some_0)
    } else if gps && rec.name == "GPSLongitudeRef"@ && lon_ref_text(rec.value) is Some {
        RecordTextModel::Text(lon_ref_text(rec.value)->Some_0)
    } else {
        match rec.tag_id {
            Some(id) => match def_of(id, gps) {
                Some(d) => match map_text(d.print_conv, rec.value) {
                    Some(t) => RecordTextModel::Text(t),
                    None => RecordTextModel::Value,
                },
                None => RecordTextModel::Value,
            },
            None => match first_name(png_text_table(), rec.name, 0) {
                Some(i) => {
                    let d = png_text_table()[i].1;
                    if (rec.group == d.group1@ || rec.group == "PNG"@) && map_text(d.print_conv, rec.value) is Some {
                        RecordTextModel::Text(map_text(d.print_conv, rec.value)->Some_0)
                    } else {
                        RecordTextModel::Value
                    }
                },
                None => RecordTextModel::Value,
            },
        }
    }
}

fn text_of(v: Option<&Value>) -> (r: Option<&str>)
    ensures
        match v {
            Some(x) => match x@ {
                ValueModel::Ascii(s) => r matches Some(t) && t@ == s,
                ValueModel::Utf8(s) => r matches Some(t) && t@ == s,
                _ => r is None,
            },
            None => r is None,
        },
{
    match v {
        Some(Value::Ascii(s)) => Some(s.as_str()),
        Some(Value::Utf8(s)) => Some(s.as_str()),
        _ => None,
    }
}

/// `rec` is a GPS latitude or longitude tag.
pub fn is_gps_coordinate_record(rec: &TagRecord) -> (r: bool)
    ensures
        r == is_gps_coordinate(rec@),
{
    str_eq(rec.group.as_str(), "GPS") && (str_eq(rec.name.as_str(), "GPSLatitude") || str_eq(
        rec.name.as_str(),
        "GPSLongitude",
    ))
}

/// How `rec` is shown among the tags `all` (see `record_spec`).
pub fn record_text(rec: &TagRecord, all: &[TagRecord]) -> (r: RecordText)
    requires
        is_gps_coordinate(rec@) ==> !single_coordinate(rec@.value),
    ensures
        r@ == record_spec(rec@, models(all@)),
{
    let gps = str_eq(rec.group.as_str(), "GPS");
    if gps {
        if str_eq(rec.name.as_str(), "GPSLatitude") {
            let pref = text_of(sibling_value(all, "GPS", "GPSLatitudeRef"));
            if let Some((a, b, c, n)) = coordinate_parts(&rec.value, pref) {
                return RecordText::Coordinate(a, b, c, n);
            }
        }
        if str_eq(rec.name.as_str(), "GPSLongitude") {
            let pref = text_of(sibling_value(all, "GPS", "GPSLongitudeRef"));
            if let Some((a, b, c, n)) = coordinate_parts(&rec.value, pref) {
                return RecordText::Coordinate(a, b, c, n);
            }
        }
        if str_eq(rec.name.as_str(), "GPSLatitudeRef") {
            if let Some(s) = format_lat_ref(&rec.value) {
                return RecordText::Text(s);
            }
        }
        if str_eq(rec.name.as_str(), "GPSLongitudeRef") {
            if let Some(s) = format_lon_ref(&rec.value) {
                return RecordText::Text(s);
            }
        }
    }
    if let Some(id) = rec.tag_id {
        let def = if gps {
            lookup_gps(id)
        } else {
            lookup_exif(id)
        };
        if let Some(d) = def {
            if let Some(s) = apply_map(d.print_conv, &rec.value) {
                return RecordText::Text(s);
            }
        }
    } else if let Some(d) = lookup_png_text_by_tagname(rec.name.as_str()) {
        if str_eq(rec.group.as_str(), d.group1) || str_eq(rec.group.as_str(), "PNG") {
            if let Some(s) = apply_map(d.print_conv, &rec.value) {
                return RecordText::Text(s);
            }
        }
    }
    RecordText::Value
}

} // verus!
