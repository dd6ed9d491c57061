//! TIFF / EXIF directory walking.
use crate::byteorder::{field, read_u16, read_u32, read_u64, Endian};
use crate::error::{Error, Result};
use crate::format::Format;
use crate::metadata::{tag_id, Metadata, TagModel};
use crate::tables::{exif_table, gps_table, lookup_exif, lookup_gps};
use crate::tag_def::{SubDir, TagDef};
use crate::text::{before_nul, dec_digits, from_utf8_lossy, hex_digits, push_decimal, push_hex4, push_str, truncate_at_nul, lossy_text};
use crate::util::{copy_range, slice_len};
use std::collections::HashSet;
use crate::value::{Rational, SRational, Value, ValueModel};
use vstd::prelude::*;

verus! {

/// The `i`-th `n`-byte field of `data`.
pub open spec fn nth(data: Seq<u8>, i: int, n: int, e: Endian) -> nat {
    field(data, i * n, n, e)
}

/// Text of a TIFF string field: decoded lossily, cut at the first NUL.
pub open spec fn tiff_text(b: Seq<u8>) -> Seq<char> {
    before_nul(lossy_text(b))
}

/// The value that `count` components of format `fmt` in `data` decode to.
pub open spec fn value_spec(data: Seq<u8>, e: Endian, fmt: Format, count: nat) -> Result<ValueModel> {
    let sz = fmt.spec_size() * count;
    if sz > usize::MAX {
        Err(Error::BadTiff)
    } else if data.len() < sz {
        Err(Error::Truncated)
    } else {
        let raw = data.subrange(0, sz as int);
        match fmt {
            Format::Int8u => if count == 1 {
                Ok(ValueModel::U8(data[0]))
            } else {
                Ok(ValueModel::Undef(raw))
            },
            Format::String => Ok(ValueModel::Ascii(tiff_text(raw))),
            Format::Utf8 => Ok(ValueModel::Utf8(tiff_text(raw))),
            Format::Int16u => if count == 1 {
                Ok(ValueModel::U16(nth(data, 0, 2, e) as u16))
            } else {
                Ok(ValueModel::U16s(Seq::new(count, |i: int| nth(data, i, 2, e) as u16)))
            },
            Format::Int32u | Format::Ifd => if count == 1 {
                Ok(ValueModel::U32(nth(data, 0, 4, e) as u32))
            } else {
                Ok(ValueModel::U32s(Seq::new(count, |i: int| nth(data, i, 4, e) as u32)))
            },
            Format::Int8s => if count == 1 {
                Ok(ValueModel::I8(data[0] as i8))
            } else {
                Ok(ValueModel::I8s(Seq::new(count, |i: int| data[i] as i8)))
            },
            Format::Int16s => if count == 1 {
                Ok(ValueModel::I16((nth(data, 0, 2, e) as u16) as i16))
            } else {
                Ok(ValueModel::I16s(Seq::new(count, |i: int| (nth(data, i, 2, e) as u16) as i16)))
            },
            Format::Int32s => if count == 1 {
                Ok(ValueModel::I32((nth(data, 0, 4, e) as u32) as i32))
            } else {
                Ok(ValueModel::I32s(Seq::new(count, |i: int| (nth(data, i, 4, e) as u32) as i32)))
            },
            Format::Rational64u => {
                let rats = Seq::new(
                    count,
                    |i: int|
                        Rational {
                            num: field(data, 8 * i, 4, e) as u32,
                            den: field(data, 8 * i + 4, 4, e) as u32,
                        },
                );
                if count == 1 {
                    Ok(ValueModel::Rational(rats[0]))
                } else {
                    Ok(ValueModel::Rationals(rats))
                }
            },
            Format::Rational64s => if count == 1 {
                Ok(
                    ValueModel::SRational(
                        SRational {
                            num: (field(data, 0, 4, e) as u32) as i32,
                            den: (field(data, 4, 4, e) as u32) as i32,
                        },
                    ),
                )
            } else {
                Ok(ValueModel::Undef(raw))
            },
            Format::Float => if count == 1 {
                Ok(ValueModel::F32(nth(data, 0, 4, e) as u32))
            } else {
                Ok(ValueModel::F32s(Seq::new(count, |i: int| nth(data, i, 4, e) as u32)))
            },
            Format::Double => if count == 1 {
                Ok(ValueModel::F64(nth(data, 0, 8, e) as u64))
            } else {
                Ok(ValueModel::F64s(Seq::new(count, |i: int| nth(data, i, 8, e) as u64)))
            },
            Format::Undef | Format::Unicode | Format::Complex => Ok(ValueModel::Undef(raw)),
            Format::Int64u => if count == 1 {
                Ok(ValueModel::U64(nth(data, 0, 8, e) as u64))
            } else {
                Ok(ValueModel::Undef(raw))
            },
            Format::Int64s => if count == 1 {
                Ok(ValueModel::I64((nth(data, 0, 8, e) as u64) as i64))
            } else {
                Ok(ValueModel::Undef(raw))
            },
            Format::Ifd64 => if data.len() < 8 {
                Err(Error::Truncated)
            } else {
                Ok(ValueModel::U64(nth(data, 0, 8, e) as u64))
            },
        }
    }
}

/// `r` holds the value that `s` describes, or the same error.
pub open spec fn value_matches(r: Result<Value>, s: Result<ValueModel>) -> bool {
    match s {
        Ok(v) => r is Ok && r->Ok_0@ == v,
        Err(x) => r == Err::<Value, Error>(x),
    }
}

fn read_u16s(data: &[u8], e: Endian, count: usize) -> (r: Vec<u16>)
    requires
        2 * count <= data.len(),
    ensures
        r@ == Seq::new(count as nat, |i: int| nth(data@, i, 2, e) as u16),
{
    let mut v: Vec<u16> = Vec::new();
    let mut i: usize = 0;
    while i < count
        invariant
            i <= count,
            2 * count <= data.len(),
            v@ == Seq::new(i as nat, |j: int| nth(data@, j, 2, e) as u16),
        decreases count - i,
    {
        let x = match read_u16(data, i * 2, e) {
            Ok(x) => x,
            Err(_) => 0,
        };
        v.push(x);
        i += 1;
        assert(v@ =~= Seq::new(i as nat, |j: int| nth(data@, j, 2, e) as u16));
    }
    v
}

fn read_i16s(data: &[u8], e: Endian, count: usize) -> (r: Vec<i16>)
    requires
        2 * count <= data.len(),
    ensures
        r@ == Seq::new(count as nat, |i: int| (nth(data@, i, 2, e) as u16) as i16),
{
    let mut v: Vec<i16> = Vec::new();
    let mut i: usize = 0;
    while i < count
        invariant
            i <= count,
            2 * count <= data.len(),
            v@ == Seq::new(i as nat, |j: int| (nth(data@, j, 2, e) as u16) as i16),
        decreases count - i,
    {
        let x = match read_u16(data, i * 2, e) {
            Ok(x) => x,
            Err(_) => 0,
        };
        v.push(x as i16);
        i += 1;
        assert(v@ =~= Seq::new(i as nat, |j: int| (nth(data@, j, 2, e) as u16) as i16));
    }
    v
}

fn read_u32s(data: &[u8], e: Endian, count: usize) -> (r: Vec<u32>)
    requires
        4 * count <= data.len(),
    ensures
        r@ == Seq::new(count as nat, |i: int| nth(data@, i, 4, e) as u32),
{
    let mut v: Vec<u32> = Vec::new();
    let mut i: usize = 0;
    while i < count
        invariant
            i <= count,
            4 * count <= data.len(),
            v@ == Seq::new(i as nat, |j: int| nth(data@, j, 4, e) as u32),
        decreases count - i,
    {
        let x = match read_u32(data, i * 4, e) {
            Ok(x) => x,
            Err(_) => 0,
        };
        v.push(x);
        i += 1;
        assert(v@ =~= Seq::new(i as nat, |j: int| nth(data@, j, 4, e) as u32));
    }
    v
}

fn read_i32s(data: &[u8], e: Endian, count: usize) -> (r: Vec<i32>)
    requires
        4 * count <= data.len(),
    ensures
        r@ == Seq::new(count as nat, |i: int| (nth(data@, i, 4, e) as u32) as i32),
{
    let mut v: Vec<i32> = Vec::new();
    let mut i: usize = 0;
    while i < count
        invariant
            i <= count,
            4 * count <= data.len(),
            v@ == Seq::new(i as nat, |j: int| (nth(data@, j, 4, e) as u32) as i32),
        decreases count - i,
    {
        let x = match read_u32(data, i * 4, e) {
            Ok(x) => x,
            Err(_) => 0,
        };
        v.push(x as i32);
        i += 1;
        assert(v@ =~= Seq::new(i as nat, |j: int| (nth(data@, j, 4, e) as u32) as i32));
    }
    v
}

fn read_u64s(data: &[u8], e: Endian, count: usize) -> (r: Vec<u64>)
    requires
        8 * count <= data.len(),
    ensures
        r@ == Seq::new(count as nat, |i: int| nth(data@, i, 8, e) as u64),
{
    let mut v: Vec<u64> = Vec::new();
    let mut i: usize = 0;
    while i < count
        invariant
            i <= count,
            8 * count <= data.len(),
            v@ == Seq::new(i as nat, |j: int| nth(data@, j, 8, e) as u64),
        decreases count - i,
    {
        let x = match read_u64(data, i * 8, e) {
            Ok(x) => x,
            Err(_) => 0,
        };
        v.push(x);
        i += 1;
        assert(v@ =~= Seq::new(i as nat, |j: int| nth(data@, j, 8, e) as u64));
    }
    v
}

fn read_i8s(data: &[u8], count: usize) -> (r: Vec<i8>)
    requires
        count <= data@.len(),
    ensures
        r@ == Seq::new(count as nat, |i: int| data@[i] as i8),
{
    let mut v: Vec<i8> = Vec::new();
    let mut i: usize = 0;
    while i < count
        invariant
            i <= count <= data@.len(),
            v@ == Seq::new(i as nat, |j: int| data@[j] as i8),
        decreases count - i,
    {
        v.push(data[i] as i8);
        i += 1;
        assert(v@ =~= Seq::new(i as nat, |j: int| data@[j] as i8));
    }
    v
}

fn read_rationals(data: &[u8], e: Endian, count: usize) -> (r: Vec<Rational>)
    requires
        8 * count <= data.len(),
    ensures
        r@ == Seq::new(
            count as nat,
            |i: int|
                Rational {
                    num: field(data@, 8 * i, 4, e) as u32,
                    den: field(data@, 8 * i + 4, 4, e) as u32,
                },
        ),
{
    let mut v: Vec<Rational> = Vec::new();
    let mut i: usize = 0;
    while i < count
        invariant
            i <= count,
            8 * count <= data.len(),
            v@ == Seq::new(
                i as nat,
                |j: int|
                    Rational {
                        num: field(data@, 8 * j, 4, e) as u32,
                        den: field(data@, 8 * j + 4, 4, e) as u32,
                    },
            ),
        decreases count - i,
    {
        let o = i * 8;
        let num = match read_u32(data, o, e) {
            Ok(x) => x,
            Err(_) => 0,
        };
        let den = match read_u32(data, o + 4, e) {
            Ok(x) => x,
            Err(_) => 0,
        };
        v.push(Rational { num, den });
        i += 1;
        assert(v@ =~= Seq::new(
            i as nat,
            |j: int|
                Rational {
                    num: field(data@, 8 * j, 4, e) as u32,
                    den: field(data@, 8 * j + 4, 4, e) as u32,
                },
        ));
    }
    v
}

/// A TIFF string field as text: decoded lossily, cut at the first NUL.
fn text_field(raw: &[u8]) -> (r: String)
    ensures
        r@ == tiff_text(raw@),
{
    let s = from_utf8_lossy(raw);
    truncate_at_nul(s.as_str())
}

/// Decodes `count` components of format `fmt` from the front of `data`.
fn read_value_from_slice(data: &[u8], e: Endian, fmt: Format, count: usize) -> (r: Result<Value>)
    ensures
        value_matches(r, value_spec(data@, e, fmt, count as nat)),
{
    let sz = match fmt.size().checked_mul(count) {
        Some(x) => x,
        None => return Err(Error::BadTiff),
    };
    if data.len() < sz {
        return Err(Error::Truncated);
    }
    let raw = vstd::slice::slice_subrange(data, 0, sz);
    let v = match fmt {
        Format::Int8u => {
            if count == 1 {
                Value::U8(data[0])
            } else {
                Value::Undef(copy_range(data, 0, sz))
            }
        },
        Format::String => Value::Ascii(text_field(raw)),
        Format::Utf8 => Value::Utf8(text_field(raw)),
        Format::Int16u => {
            if count == 1 {
                Value::U16(read_u16s(data, e, 1)[0])
            } else {
                Value::U16s(read_u16s(data, e, count))
            }
        },
        Format::Int32u | Format::Ifd => {
            if count == 1 {
                Value::U32(read_u32s(data, e, 1)[0])
            } else {
                Value::U32s(read_u32s(data, e, count))
            }
        },
        Format::Int8s => {
            if count == 1 {
                Value::I8(data[0] as i8)
            } else {
                Value::I8s(read_i8s(data, count))
            }
        },
        Format::Int16s => {
            if count == 1 {
                Value::I16(read_i16s(data, e, 1)[0])
            } else {
                Value::I16s(read_i16s(data, e, count))
            }
        },
        Format::Int32s => {
            if count == 1 {
                Value::I32(read_i32s(data, e, 1)[0])
            } else {
                Value::I32s(read_i32s(data, e, count))
            }
        },
        Format::Rational64u => {
            let rats = read_rationals(data, e, count);
            if count == 1 {
                Value::Rational(rats[0])
            } else {
                Value::Rationals(rats)
            }
        },
        Format::Rational64s => {
            if count == 1 {
                let rs = read_rationals(data, e, 1);
                Value::SRational(SRational { num: rs[0].num as i32, den: rs[0].den as i32 })
            } else {
                Value::Undef(copy_range(data, 0, sz))
            }
        },
        Format::Float => {
            if count == 1 {
                Value::F32(read_u32s(data, e, 1)[0])
            } else {
                Value::F32s(read_u32s(data, e, count))
            }
        },
        Format::Double => {
            if count == 1 {
                Value::F64(read_u64s(data, e, 1)[0])
            } else {
                Value::F64s(read_u64s(data, e, count))
            }
        },
        Format::Undef | Format::Unicode | Format::Complex => Value::Undef(copy_range(data, 0, sz)),
        Format::Int64u => {
            if count == 1 {
                Value::U64(read_u64s(data, e, 1)[0])
            } else {
                Value::Undef(copy_range(data, 0, sz))
            }
        },
        Format::Int64s => {
            if count == 1 {
                Value::I64(read_u64s(data, e, 1)[0] as i64)
            } else {
                Value::Undef(copy_range(data, 0, sz))
            }
        },
        Format::Ifd64 => {
            if data.len() < 8 {
                return Err(Error::Truncated);
            }
            Value::U64(read_u64s(data, e, 1)[0])
        },
    };
    Ok(v)
}

} // verus!

verus! {

/// `vis` is a finite set of directory offsets, all inside a buffer of `len` bytes.
pub open spec fn vis_ok(vis: Set<u32>, len: nat) -> bool {
    vis.finite() && forall|x: u32| #[trigger] vis.contains(x) ==> (x as nat) < len
}

/// How many more directories can still be visited.
pub open spec fn budget(vis: Set<u32>, len: nat) -> nat {
    (len + 1 - vis.len()) as nat
}

pub proof fn lemma_vis_bound(s: Set<u32>, n: nat)
    requires
        vis_ok(s, n),
    ensures
        s.len() <= n,
    decreases n,
{
    if n == 0 {
        if s.len() > 0 {
            let x = s.choose();
            assert(s.contains(x));
        }
    } else if n > 0x1_0000_0000 {
        lemma_vis_bound(s, (n - 1) as nat);
    } else {
        let x = (n - 1) as u32;
        let t = s.remove(x);
        assert forall|y: u32| #[trigger] t.contains(y) implies (y as nat) < (n - 1) as nat by {
            assert(s.contains(y) && y != x);
        }
        lemma_vis_bound(t, (n - 1) as nat);
    }
}

/// The fields of the 12-byte directory entry at `pos`: tag, format, count and value bytes
/// (inline when they fit in four bytes, else at the offset the entry gives).
pub open spec fn entry_fields(buf: Seq<u8>, e: Endian, pos: int) -> Result<(u16, Format, u32, Seq<u8>)> {
    let tag = field(buf, pos, 2, e) as u16;
    let typ = field(buf, pos + 2, 2, e) as u16;
    let count = field(buf, pos + 4, 4, e) as u32;
    let vfo = pos + 8;
    match Format::spec_from_u16(typ) {
        None => Err(Error::UnknownFormat),
        Some(fmt) => {
            let comp = fmt.spec_size() * count;
            if comp > usize::MAX {
                Err(Error::BadTiff)
            } else if comp <= 4 {
                if vfo + comp > buf.len() {
                    Err(Error::BadTiff)
                } else {
                    Ok((tag, fmt, count, buf.subrange(vfo, vfo + comp)))
                }
            } else {
                let ext = field(buf, vfo, 4, e);
                if ext + comp > usize::MAX || ext + comp > buf.len() {
                    Err(Error::BadTiff)
                } else {
                    Ok((tag, fmt, count, buf.subrange(ext as int, ext + comp)))
                }
            }
        },
    }
}

/// The group name of a sub-directory.
pub open spec fn child_group(sub: SubDir) -> Seq<char> {
    match sub {
        SubDir::ExifIfd => "ExifIFD"@,
        SubDir::GpsIfd => "GPS"@,
        _ => "InteropIFD"@,
    }
}

/// The name of a tag: its table name, else `Tag 0x` and four hex digits.
pub open spec fn tag_name(def: Option<TagDef>, tag: u16) -> Seq<char> {
    match def {
        Some(d) => d.name@,
        None => "Tag 0x"@ + hex_digits(tag as nat, 4),
    }
}

/// The table definition of `tag` (GPS table inside the GPS directory).
pub open spec fn def_of(tag: u16, in_gps: bool) -> Option<TagDef> {
    if in_gps {
        gps_table(tag)
    } else {
        exif_table(tag)
    }
}

/// The tags, the visited directories, and the next-directory offset from reading the
/// directory at `off` (0 when it was visited already or no link follows).
pub open spec fn walk_spec(
    buf: Seq<u8>,
    e: Endian,
    off: u32,
    group: Seq<char>,
    in_gps: bool,
    vis: Set<u32>,
    m: nat,
) -> (Seq<TagModel>, Set<u32>, Result<u32>)
    decreases m, 0nat, 0nat,
{
    if off + 2 > buf.len() {
        (seq![], vis, Err(Error::BadTiff))
    } else if vis.contains(off) {
        (seq![], vis, Ok(0))
    } else if m == 0 {
        (seq![], vis, Err(Error::BadTiff))
    } else {
        let n = field(buf, off as int, 2, e);
        let w = entries_spec(buf, e, off + 2, n, group, in_gps, vis.insert(off), (m - 1) as nat);
        match w.2 {
            Err(x) => (w.0, w.1, Err(x)),
            Ok(pos) => if pos + 4 > buf.len() {
                (w.0, w.1, Ok(0))
            } else {
                (w.0, w.1, Ok(field(buf, pos, 4, e) as u32))
            },
        }
    }
}

/// The `k` entries from `pos` on; the result is the offset after them.
pub open spec fn entries_spec(
    buf: Seq<u8>,
    e: Endian,
    pos: int,
    k: nat,
    group: Seq<char>,
    in_gps: bool,
    vis: Set<u32>,
    m: nat,
) -> (Seq<TagModel>, Set<u32>, Result<int>)
    decreases m, 3nat, k,
{
    if k == 0 {
        (seq![], vis, Ok(pos))
    } else {
        let w = entry_spec(buf, e, pos, group, in_gps, vis, m);
        match w.2 {
            Err(x) => (w.0, w.1, Err(x)),
            Ok(()) => {
                let w2 = entries_spec(buf, e, pos + 12, (k - 1) as nat, group, in_gps, w.1, m);
                (w.0 + w2.0, w2.1, w2.2)
            },
        }
    }
}

/// One directory entry at `pos`: its tag, and the directories it points to.
pub open spec fn entry_spec(
    buf: Seq<u8>,
    e: Endian,
    pos: int,
    group: Seq<char>,
    in_gps: bool,
    vis: Set<u32>,
    m: nat,
) -> (Seq<TagModel>, Set<u32>, Result<()>)
    decreases m, 2nat, 0nat,
{
    if pos + 12 > buf.len() {
        (seq![], vis, Err(Error::BadTiff))
    } else {
        match entry_fields(buf, e, pos) {
            Err(x) => (seq![], vis, Err(x)),
            Ok((tag, fmt, count, data)) => {
                let def = def_of(tag, in_gps);
                let sub = match def {
                    Some(d) => d.sub_dir,
                    None => SubDir::Plain,
                };
                if tag == 0x927c || sub == SubDir::MakerNotes {
                    (seq![tag_id(group, "MakerNote"@, tag, ValueModel::Undef(data))], vis, Ok(()))
                } else if sub == SubDir::ExifIfd || sub == SubDir::GpsIfd || sub == SubDir::InteropIfd {
                    if data.len() < 4 {
                        (seq![], vis, Err(Error::Truncated))
                    } else {
                        let child = field(data, 0, 4, e) as u32;
                        let own: Result<Seq<TagModel>> = match def {
                            Some(d) => match value_spec(data, e, Format::Int32u, 1) {
                                Ok(pv) => Ok(seq![tag_id(group, d.name@, tag, pv)]),
                                Err(x) => Err(x),
                            },
                            None => Ok(seq![]),
                        };
                        match own {
                            Err(x) => (seq![], vis, Err(x)),
                            Ok(t0) => {
                                let w = walk_spec(
                                    buf,
                                    e,
                                    child,
                                    child_group(sub),
                                    sub == SubDir::GpsIfd,
                                    vis,
                                    m,
                                );
                                (t0 + w.0, w.1, match w.2 {
                                    Ok(_) => Ok(()),
                                    Err(x) => Err(x),
                                })
                            },
                        }
                    }
                } else if sub == SubDir::SubIfd {
                    let own: Result<Seq<TagModel>> = match def {
                        Some(d) => match value_spec(data, e, fmt, count as nat) {
                            Ok(pv) => Ok(seq![tag_id(group, d.name@, tag, pv)]),
                            Err(x) => Err(x),
                        },
                        None => Ok(seq![]),
                    };
                    match own {
                        Err(x) => (seq![], vis, Err(x)),
                        Ok(t0) => if fmt == Format::Int32u || fmt == Format::Ifd {
                            let w = subifd_spec(buf, e, data, 0, count, in_gps, vis, m);
                            (t0 + w.0, w.1, w.2)
                        } else {
                            (t0, vis, Ok(()))
                        },
                    }
                } else {
                    match value_spec(data, e, fmt, count as nat) {
                        Err(x) => (seq![], vis, Err(x)),
                        Ok(v) => (seq![tag_id(group, tag_name(def, tag), tag, v)], vis, Ok(())),
                    }
                }
            },
        }
    }
}

/// The `SubIFD` directories listed in `data`, from the `i`-th on.
pub open spec fn subifd_spec(
    buf: Seq<u8>,
    e: Endian,
    data: Seq<u8>,
    i: nat,
    count: u32,
    in_gps: bool,
    vis: Set<u32>,
    m: nat,
) -> (Seq<TagModel>, Set<u32>, Result<()>)
    decreases m, 1nat, count - i,
{
    if i >= count {
        (seq![], vis, Ok(()))
    } else if 4 * i + 4 > data.len() {
        (seq![], vis, Err(Error::Truncated))
    } else {
        let o = field(data, 4 * i as int, 4, e) as u32;
        let w = walk_spec(buf, e, o, "SubIFD"@, in_gps, vis, m);
        match w.2 {
            Err(x) => (w.0, w.1, Err(x)),
            Ok(_) => {
                let w2 = subifd_spec(buf, e, data, i + 1, count, in_gps, w.1, m);
                (w.0 + w2.0, w2.1, w2.2)
            },
        }
    }
}

} // verus!

verus! {

/// The run described by `w` took the tags from `m0` to `m1`, left `v1` visited and returned `r`.
pub open spec fn walk_matches<T>(
    w: (Seq<TagModel>, Set<u32>, Result<T>),
    m0: Seq<TagModel>,
    m1: Seq<TagModel>,
    v1: Set<u32>,
    r: Result<T>,
) -> bool {
    m1 == m0 + w.0 && v1 == w.1 && r == w.2
}

fn read_entry<'a>(buf: &'a [u8], e: Endian, pos: usize) -> (r: Result<(u16, Format, u32, &'a [u8])>)
    requires
        pos + 12 <= buf@.len() <= isize::MAX,
    ensures
        match entry_fields(buf@, e, pos as int) {
            Ok((t, f, c, d)) => r is Ok && r->Ok_0.0 == t && r->Ok_0.1 == f && r->Ok_0.2 == c
                && r->Ok_0.3@ == d,
            Err(x) => r is Err && r->Err_0 == x,
        },
{
    let tag = match read_u16(buf, pos, e) {
        Ok(x) => x,
        Err(x) => return Err(x),
    };
    let typ = match read_u16(buf, pos + 2, e) {
        Ok(x) => x,
        Err(x) => return Err(x),
    };
    let count = match read_u32(buf, pos + 4, e) {
        Ok(x) => x,
        Err(x) => return Err(x),
    };
    let value_field_off = pos + 8;
    let fmt = match Format::from_u16(typ) {
        Some(f) => f,
        None => return Err(Error::UnknownFormat),
    };
    let comp = match fmt.size().checked_mul(count as usize) {
        Some(c) => c,
        None => return Err(Error::BadTiff),
    };
    assert(comp == fmt.spec_size() * count);
    if comp <= 4 {
        if value_field_off + comp > buf.len() {
            return Err(Error::BadTiff);
        }
        Ok((tag, fmt, count, vstd::slice::slice_subrange(buf, value_field_off, value_field_off + comp)))
    } else {
        let ext = match read_u32(buf, value_field_off, e) {
            Ok(x) => x as usize,
            Err(x) => return Err(x),
        };
        let end = match ext.checked_add(comp) {
            Some(x) => x,
            None => return Err(Error::BadTiff),
        };
        if end > buf.len() {
            return Err(Error::BadTiff);
        }
        Ok((tag, fmt, count, vstd::slice::slice_subrange(buf, ext, end)))
    }
}

/// The table definition of `tag`.
fn lookup_def(tag: u16, in_gps: bool) -> (r: Option<TagDef>)
    ensures
        r == def_of(tag, in_gps),
{
    if in_gps {
        lookup_gps(tag)
    } else {
        lookup_exif(tag)
    }
}

/// The name of a tag without a definition: `Tag 0x` and four hex digits.
fn unknown_tag_name(tag: u16) -> (r: String)
    ensures
        r@ == "Tag 0x"@ + hex_digits(tag as nat, 4),
{
    let mut s = String::new();
    push_str(&mut s, "Tag 0x");
    push_hex4(&mut s, tag);
    assert(s@ =~= "Tag 0x"@ + hex_digits(tag as nat, 4));
    s
}

/// Two runs that start from the same tags and end at the same tags added the same tags.
proof fn lemma_cancel_prefix(a: Seq<TagModel>, x: Seq<TagModel>, y: Seq<TagModel>)
    requires
        a + x == a + y,
    ensures
        x == y,
{
    assert(x =~= (a + x).subrange(a.len() as int, (a + x).len() as int));
    assert(y =~= (a + y).subrange(a.len() as int, (a + y).len() as int));
}

/// Reads one directory entry at `pos` and the directories it points to.
#[verifier::rlimit(100)]
fn walk_entry(
    meta: &mut Metadata,
    buf: &[u8],
    e: Endian,
    pos: usize,
    group: &str,
    in_gps: bool,
    visited: &mut HashSet<u32>,
) -> (r: Result<()>)
    requires
        vis_ok(old(visited)@, buf@.len()),
        buf@.len() <= isize::MAX,
        pos <= buf@.len(),
    ensures
        vis_ok(final(visited)@, buf@.len()),
        old(visited)@.len() <= final(visited)@.len(),
        r is Ok ==> pos + 12 <= buf@.len(),
        forall|m: nat|
            m >= budget(old(visited)@, buf@.len()) ==> walk_matches(
                #[trigger] entry_spec(buf@, e, pos as int, group@, in_gps, old(visited)@, m),
                old(meta)@,
                final(meta)@,
                final(visited)@,
                r,
            ),
    decreases buf@.len() + 1 - old(visited)@.len(), 1nat,
{
    let ghost vis0 = visited@;
    let ghost meta0 = meta@;
    proof {
        lemma_vis_bound(vis0, buf@.len());
    }
    assert(meta0 =~= meta0 + Seq::<TagModel>::empty());
    if buf.len() - pos < 12 {
        return Err(Error::BadTiff);
    }
    let (tag, fmt, count, data) = match read_entry(buf, e, pos) {
        Ok(x) => x,
        Err(x) => return Err(x),
    };
    let def = lookup_def(tag, in_gps);
    let sub = match def {
        Some(d) => d.sub_dir,
        None => SubDir::Plain,
    };
    if tag == 0x927c || sub == SubDir::MakerNotes {
        let raw = copy_range(data, 0, data.len());
        assert(raw@ =~= data@);
        meta.push_id(group, "MakerNote", tag, Value::Undef(raw));
        assert(meta@ =~= meta0 + seq![tag_id(group@, "MakerNote"@, tag, ValueModel::Undef(data@))]);
        return Ok(());
    }
    if sub == SubDir::ExifIfd || sub == SubDir::GpsIfd || sub == SubDir::InteropIfd {
        let child_off = match read_u32(data, 0, e) {
            Ok(x) => x,
            Err(x) => return Err(x),
        };
        let ghost mut t0: Seq<TagModel> = Seq::empty();
        if let Some(d) = def {
            let pv = match read_value_from_slice(data, e, Format::Int32u, 1) {
                Ok(v) => v,
                Err(x) => return Err(x),
            };
            let ghost pvm = pv@;
            meta.push_id(group, d.name, tag, pv);
            proof {
                t0 = seq![tag_id(group@, d.name@, tag, pvm)];
            }
        }
        let ghost meta1 = meta@;
        assert(meta1 =~= meta0 + t0);
        let child_gps = sub == SubDir::GpsIfd;
        let cgroup = if sub == SubDir::ExifIfd {
            "ExifIFD"
        } else if sub == SubDir::GpsIfd {
            "GPS"
        } else {
            "InteropIFD"
        };
        assert(cgroup@ == child_group(sub));
        let rc = walk_ifd(meta, buf, e, child_off, cgroup, child_gps, visited);
        let r: Result<()> = match rc {
            Ok(_) => Ok(()),
            Err(x) => Err(x),
        };
        proof {
            assert forall|m: nat| m >= budget(vis0, buf@.len()) implies walk_matches(
                #[trigger] entry_spec(buf@, e, pos as int, group@, in_gps, vis0, m),
                meta0,
                meta@,
                visited@,
                r,
            ) by {
                let w = walk_spec(buf@, e, child_off, cgroup@, child_gps, vis0, m);
                assert(walk_matches(w, meta1, meta@, visited@, rc));
                assert(meta@ =~= meta0 + (t0 + w.0));
            }
        }
        return r;
    }
    if sub == SubDir::SubIfd {
        let ghost mut t0: Seq<TagModel> = Seq::empty();
        if let Some(d) = def {
            let pv = match read_value_from_slice(data, e, fmt, count as usize) {
                Ok(v) => v,
                Err(x) => return Err(x),
            };
            let ghost pvm = pv@;
            meta.push_id(group, d.name, tag, pv);
            proof {
                t0 = seq![tag_id(group@, d.name@, tag, pvm)];
            }
        }
        assert(meta@ =~= meta0 + t0);
        if fmt == Format::Int32u || fmt == Format::Ifd {
            let ghost mut acc: Seq<TagModel> = Seq::empty();
            let mut i: u32 = 0;
            assert(data@.len() == 4 * count);
            assert(data@.len() <= buf@.len());
            proof {
                assert forall|m: nat| m >= budget(vis0, buf@.len()) implies {
                    let we = #[trigger] entry_spec(buf@, e, pos as int, group@, in_gps, vis0, m);
                    let w0 = subifd_spec(buf@, e, data@, 0, count, in_gps, vis0, m);
                    &&& we.0 == t0 + w0.0
                    &&& we.1 == w0.1
                    &&& we.2 == w0.2
                } by {}
                assert forall|m: nat| m >= budget(vis0, buf@.len()) implies
                    (#[trigger] subifd_spec(buf@, e, data@, 0, count, in_gps, vis0, m)).0
                    == acc + subifd_spec(buf@, e, data@, i as nat, count, in_gps, visited@, m).0 by {
                    let w = subifd_spec(buf@, e, data@, 0, count, in_gps, vis0, m);
                    assert(acc + w.0 =~= w.0);
                }
            }
            while i < count
                invariant
                    i <= count,
                    data@.len() == 4 * count,
                    data@.len() <= buf@.len(),
                    vis_ok(visited@, buf@.len()),
                    vis0 == old(visited)@,
                    meta0 == old(meta)@,
                    vis0.len() <= visited@.len(),
                    buf@.len() <= isize::MAX,
                    meta@ == meta0 + t0 + acc,
                    forall|m: nat|
                        m >= budget(vis0, buf@.len()) ==> {
                            let we = #[trigger] entry_spec(buf@, e, pos as int, group@, in_gps, vis0, m);
                            let w0 = subifd_spec(buf@, e, data@, 0, count, in_gps, vis0, m);
                            &&& we.0 == t0 + w0.0
                            &&& we.1 == w0.1
                            &&& we.2 == w0.2
                        },
                    forall|m: nat|
                        m >= budget(vis0, buf@.len()) ==> {
                            let w = subifd_spec(buf@, e, data@, i as nat, count, in_gps, visited@, m);
                            let w0 = #[trigger] subifd_spec(buf@, e, data@, 0, count, in_gps, vis0, m);
                            &&& w0.0 == acc + w.0
                            &&& w0.1 == w.1
                            &&& w0.2 == w.2
                        },
                decreases count - i,
            {
                let ghost vis_i = visited@;
                let ghost meta_i = meta@;
                let ghost acc_i = acc;
                let o = match read_u32(data, (i as usize) * 4, e) {
                    Ok(x) => x,
                    Err(x) => return Err(x),
                };
                proof {
                    lemma_vis_bound(vis_i, buf@.len());
                }
                let rw = walk_ifd(meta, buf, e, o, "SubIFD", in_gps, visited);
                let ghost ww = walk_spec(buf@, e, o, "SubIFD"@, in_gps, vis_i, budget(vis_i, buf@.len()));
                proof {
                    assert(walk_matches(ww, meta_i, meta@, visited@, rw));
                    assert forall|m: nat| m >= budget(vis0, buf@.len()) implies
                        (#[trigger] walk_spec(buf@, e, o, "SubIFD"@, in_gps, vis_i, m)).0 == ww.0 by {
                        let wm = walk_spec(buf@, e, o, "SubIFD"@, in_gps, vis_i, m);
                        assert(walk_matches(wm, meta_i, meta@, visited@, rw));
                        lemma_cancel_prefix(meta_i, wm.0, ww.0);
                    }
                }
                match rw {
                    Ok(_) => {},
                    Err(x) => {
                        proof {
                            assert forall|m: nat| m >= budget(vis0, buf@.len()) implies walk_matches(
                                #[trigger] entry_spec(buf@, e, pos as int, group@, in_gps, vis0, m),
                                meta0,
                                meta@,
                                visited@,
                                Err::<(), Error>(x),
                            ) by {
                                let wm = walk_spec(buf@, e, o, "SubIFD"@, in_gps, vis_i, m);
                                assert(walk_matches(wm, meta_i, meta@, visited@, rw));
                                let ws = subifd_spec(buf@, e, data@, i as nat, count, in_gps, vis_i, m);
                                assert(ws.0 == ww.0);
                                assert(ws.2 == Err::<(), Error>(x));
                                let w0 = subifd_spec(buf@, e, data@, 0, count, in_gps, vis0, m);
                                assert(w0.0 == acc_i + ws.0);
                                assert(w0.1 == visited@);
                                assert(w0.2 == Err::<(), Error>(x));
                                assert(meta@ =~= meta0 + (t0 + (acc_i + ww.0)));
                            }
                        }
                        return Err(x);
                    },
                }
                proof {
                    assert forall|m: nat| m >= budget(vis0, buf@.len()) implies {
                        let w = subifd_spec(buf@, e, data@, (i + 1) as nat, count, in_gps, visited@, m);
                        let w0 = #[trigger] subifd_spec(buf@, e, data@, 0, count, in_gps, vis0, m);
                        &&& w0.0 == (acc_i + ww.0) + w.0
                        &&& w0.1 == w.1
                        &&& w0.2 == w.2
                    } by {
                        let wm = walk_spec(buf@, e, o, "SubIFD"@, in_gps, vis_i, m);
                        assert(walk_matches(wm, meta_i, meta@, visited@, rw));
                        let ws = subifd_spec(buf@, e, data@, i as nat, count, in_gps, vis_i, m);
                        let w = subifd_spec(buf@, e, data@, (i + 1) as nat, count, in_gps, visited@, m);
                        assert(ws.0 == ww.0 + w.0);
                        assert(acc_i + (ww.0 + w.0) =~= (acc_i + ww.0) + w.0);
                    }
                    acc = acc_i + ww.0;
                    assert(meta@ =~= meta0 + t0 + acc);
                }
                i += 1;
            }
            proof {
                assert forall|m: nat| m >= budget(vis0, buf@.len()) implies walk_matches(
                    #[trigger] entry_spec(buf@, e, pos as int, group@, in_gps, vis0, m),
                    meta0,
                    meta@,
                    visited@,
                    Ok::<(), Error>(()),
                ) by {
                    let w0 = subifd_spec(buf@, e, data@, 0, count, in_gps, vis0, m);
                    assert(acc + Seq::<TagModel>::empty() =~= acc);
                    assert(w0.0 == acc);
                    assert(meta@ =~= meta0 + (t0 + acc));
                }
            }
        }
        return Ok(());
    }
    let v = match read_value_from_slice(data, e, fmt, count as usize) {
        Ok(v) => v,
        Err(x) => return Err(x),
    };
    let ghost vm = v@;
    match def {
        Some(d) => meta.push_id(group, d.name, tag, v),
        None => {
            let name = unknown_tag_name(tag);
            meta.push_id(group, name.as_str(), tag, v);
        },
    }
    assert(meta@ =~= meta0 + seq![tag_id(group@, tag_name(def, tag), tag, vm)]);
    Ok(())
}

/// Reads the directory at `ifd_off`, unless visited already; returns the offset of the next
/// directory in the chain (0 for none).
#[verifier::rlimit(100)]
fn walk_ifd(
    meta: &mut Metadata,
    buf: &[u8],
    e: Endian,
    ifd_off: u32,
    group: &str,
    in_gps: bool,
    visited: &mut HashSet<u32>,
) -> (r: Result<u32>)
    requires
        vis_ok(old(visited)@, buf@.len()),
        buf@.len() <= isize::MAX,
    ensures
        vis_ok(final(visited)@, buf@.len()),
        old(visited)@.len() <= final(visited)@.len(),
        (r is Ok && r->Ok_0 != 0) ==> old(visited)@.len() < final(visited)@.len(),
        forall|m: nat|
            m >= budget(old(visited)@, buf@.len()) ==> walk_matches(
                #[trigger] walk_spec(buf@, e, ifd_off, group@, in_gps, old(visited)@, m),
                old(meta)@,
                final(meta)@,
                final(visited)@,
                r,
            ),
    decreases buf@.len() + 1 - old(visited)@.len(), 0nat,
{
    let ghost vis0 = visited@;
    let ghost meta0 = meta@;
    proof {
        lemma_vis_bound(vis0, buf@.len());
    }
    assert(meta0 =~= meta0 + Seq::<TagModel>::empty());
    let off = ifd_off as usize;
    if off > buf.len() || buf.len() - off < 2 {
        return Err(Error::BadTiff);
    }
    proof {
        broadcast use vstd::std_specs::hash::group_hash_axioms;
    }
    if !visited.insert(ifd_off) {
        assert(vis0.contains(ifd_off));
        assert(visited@ =~= vis0);
        return Ok(0);
    }
    let ghost vis1 = visited@;
    proof {
        assert(vis1 == vis0.insert(ifd_off));
        assert(vis1.len() == vis0.len() + 1);
        lemma_vis_bound(vis1, buf@.len());
    }
    let n = match read_u16(buf, off, e) {
        Ok(x) => x,
        Err(x) => return Err(x),
    };
    let mut pos = off + 2;
    let mut k: u16 = n;
    let ghost mut added: Seq<TagModel> = Seq::empty();
    proof {
        assert forall|m: nat| m >= budget(vis1, buf@.len()) implies
            (#[trigger] entries_spec(buf@, e, off + 2, n as nat, group@, in_gps, vis1, m)).0
            == added + entries_spec(buf@, e, pos as int, k as nat, group@, in_gps, visited@, m).0 by {
            let w = entries_spec(buf@, e, pos as int, k as nat, group@, in_gps, visited@, m);
            assert(added + w.0 =~= w.0);
        }
    }
    while k > 0
        invariant
            vis_ok(visited@, buf@.len()),
            vis1.len() <= visited@.len(),
            vis1 == vis0.insert(ifd_off),
            vis1.len() == vis0.len() + 1,
            vis0.len() <= buf@.len(),
            !vis0.contains(ifd_off),
            vis0 == old(visited)@,
            meta0 == old(meta)@,
            buf@.len() <= isize::MAX,
            off == ifd_off,
            off + 2 <= buf@.len(),
            n == field(buf@, off as int, 2, e),
            pos <= buf@.len(),
            meta@ == meta0 + added,
            forall|m: nat|
                m >= budget(vis1, buf@.len()) ==> {
                    let w = entries_spec(buf@, e, pos as int, k as nat, group@, in_gps, visited@, m);
                    let w0 = #[trigger] entries_spec(buf@, e, off + 2, n as nat, group@, in_gps, vis1, m);
                    &&& w0.0 == added + w.0
                    &&& w0.1 == w.1
                    &&& w0.2 == w.2
                },
        decreases k,
    {
        let ghost vis_k = visited@;
        let ghost meta_k = meta@;
        let ghost added_k = added;
        proof {
            lemma_vis_bound(vis_k, buf@.len());
        }
        let re = walk_entry(meta, buf, e, pos, group, in_gps, visited);
        let ghost we = entry_spec(buf@, e, pos as int, group@, in_gps, vis_k, budget(vis_k, buf@.len()));
        proof {
            assert(walk_matches(we, meta_k, meta@, visited@, re));
            assert forall|m: nat| m >= budget(vis1, buf@.len()) implies
                (#[trigger] entry_spec(buf@, e, pos as int, group@, in_gps, vis_k, m)).0 == we.0 by {
                let wm = entry_spec(buf@, e, pos as int, group@, in_gps, vis_k, m);
                assert(walk_matches(wm, meta_k, meta@, visited@, re));
                lemma_cancel_prefix(meta_k, wm.0, we.0);
            }
        }
        match re {
            Ok(()) => {},
            Err(x) => {
                proof {
                    assert forall|m: nat| m >= budget(vis0, buf@.len()) implies walk_matches(
                        #[trigger] walk_spec(buf@, e, ifd_off, group@, in_gps, vis0, m),
                        meta0,
                        meta@,
                        visited@,
                        Err::<u32, Error>(x),
                    ) by {
                        let mm = (m - 1) as nat;
                        assert(mm >= budget(vis1, buf@.len()));
                        let w1 = entry_spec(buf@, e, pos as int, group@, in_gps, vis_k, mm);
                        assert(walk_matches(w1, meta_k, meta@, visited@, re));
                        assert(w1.0 == we.0);
                        let wk = entries_spec(buf@, e, pos as int, k as nat, group@, in_gps, vis_k, mm);
                        assert(wk.0 == w1.0);
                        assert(wk.2 == Err::<int, Error>(x));
                        let w0 = entries_spec(buf@, e, off + 2, n as nat, group@, in_gps, vis1, mm);
                        assert(w0.0 == added_k + wk.0);
                        assert(w0.1 == visited@);
                        assert(w0.2 == Err::<int, Error>(x));
                        assert(meta@ =~= meta0 + (added_k + we.0));
                    }
                }
                return Err(x);
            },
        }
        proof {
            assert forall|m: nat| m >= budget(vis1, buf@.len()) implies {
                let w = entries_spec(buf@, e, pos + 12, (k - 1) as nat, group@, in_gps, visited@, m);
                let w0 = #[trigger] entries_spec(buf@, e, off + 2, n as nat, group@, in_gps, vis1, m);
                &&& w0.0 == (added_k + we.0) + w.0
                &&& w0.1 == w.1
                &&& w0.2 == w.2
            } by {
                let w1 = entry_spec(buf@, e, pos as int, group@, in_gps, vis_k, m);
                assert(walk_matches(w1, meta_k, meta@, visited@, re));
                let wk = entries_spec(buf@, e, pos as int, k as nat, group@, in_gps, vis_k, m);
                let w = entries_spec(buf@, e, pos + 12, (k - 1) as nat, group@, in_gps, visited@, m);
                assert(wk.0 == we.0 + w.0);
                assert(added_k + (we.0 + w.0) =~= (added_k + we.0) + w.0);
            }
            added = added_k + we.0;
            assert(meta@ =~= meta0 + added);
        }
        pos = pos + 12;
        k -= 1;
    }
    let next = if buf.len() - pos < 4 {
        0
    } else {
        match read_u32(buf, pos, e) {
            Ok(x) => x,
            Err(_) => 0,
        }
    };
    proof {
        assert forall|m: nat| m >= budget(vis0, buf@.len()) implies walk_matches(
            #[trigger] walk_spec(buf@, e, ifd_off, group@, in_gps, vis0, m),
            meta0,
            meta@,
            visited@,
            Ok::<u32, Error>(next),
        ) by {
            let mm = (m - 1) as nat;
            assert(mm >= budget(vis1, buf@.len()));
            let w0 = entries_spec(buf@, e, off + 2, n as nat, group@, in_gps, vis1, mm);
            assert(added + Seq::<TagModel>::empty() =~= added);
            assert(w0.0 == added);
        }
    }
    Ok(next)
}

} // verus!

verus! {

/// The group name of the `idx`-th directory of the main chain: `IFD0`, `IFD1`, ...
pub open spec fn ifd_label(idx: nat) -> Seq<char> {
    "IFD"@ + dec_digits(idx)
}

/// The tags and the outcome of reading the chain of main directories from `off` on, the
/// `idx`-th first, with `vis` visited already. `f` bounds the number of links followed; every
/// link that is followed visits a new directory, so with `f` no smaller than the number of
/// directories still unvisited the chain is read to its end.
pub open spec fn chain_spec(
    buf: Seq<u8>,
    e: Endian,
    off: u32,
    idx: nat,
    vis: Set<u32>,
    f: nat,
) -> (Seq<TagModel>, Result<()>)
    decreases f,
{
    let w = walk_spec(buf, e, off, ifd_label(idx), false, vis, budget(vis, buf.len()));
    match w.2 {
        Err(x) => (w.0, Err(x)),
        Ok(next) => if next == 0 || f == 0 {
            (w.0, Ok(()))
        } else {
            let c = chain_spec(buf, e, next, idx + 1, w.1, (f - 1) as nat);
            (w.0 + c.0, c.1)
        },
    }
}

/// The byte order named by the first two bytes of a TIFF header (`II` or `MM`).
pub open spec fn tiff_order(t: Seq<u8>) -> Option<Endian> {
    if t[0] == 0x49 && t[1] == 0x49 {
        Some(Endian::Little)
    } else if t[0] == 0x4d && t[1] == 0x4d {
        Some(Endian::Big)
    } else {
        None
    }
}

/// The tags that reading the TIFF structure `t` adds, and the outcome.
pub open spec fn exif_spec(t: Seq<u8>) -> (Seq<TagModel>, Result<()>) {
    if t.len() < 8 {
        (seq![], Err(Error::BadTiff))
    } else {
        match tiff_order(t) {
            None => (seq![], Err(Error::BadTiff)),
            Some(e) => if field(t, 2, 2, e) != 42 {
                (seq![], Err(Error::BadTiff))
            } else {
                chain_spec(t, e, field(t, 4, 4, e) as u32, 0, Set::empty(), t.len() + 1)
            },
        }
    }
}

/// The label of the `idx`-th main directory.
fn ifd_label_string(idx: u64) -> (r: String)
    ensures
        r@ == ifd_label(idx as nat),
{
    let mut s = String::new();
    push_str(&mut s, "IFD");
    push_decimal(&mut s, idx);
    s
}

/// Reads the TIFF structure `tiff` (byte-order mark, magic 42, the chain of main directories
/// and the directories they point to) and appends its tags to `meta`. Tags read before an
/// error stay in `meta`.
#[verifier::rlimit(50)]
#[verifier::spinoff_prover]
pub fn parse_exif_slice(meta: &mut Metadata, tiff: &[u8]) -> (r: Result<()>)
    ensures
        final(meta)@ == old(meta)@ + exif_spec(tiff@).0,
        r == exif_spec(tiff@).1,
{
    let ghost meta0 = meta@;
    assert(meta0 =~= meta0 + Seq::<TagModel>::empty());
    let len = slice_len(tiff);
    if len < 8 {
        return Err(Error::BadTiff);
    }
    let endian = if tiff[0] == 0x49 && tiff[1] == 0x49 {
        Endian::Little
    } else if tiff[0] == 0x4d && tiff[1] == 0x4d {
        Endian::Big
    } else {
        return Err(Error::BadTiff);
    };
    let magic = match read_u16(tiff, 2, endian) {
        Ok(x) => x,
        Err(x) => return Err(x),
    };
    if magic != 42 {
        return Err(Error::BadTiff);
    }
    let ifd0 = match read_u32(tiff, 4, endian) {
        Ok(x) => x,
        Err(x) => return Err(x),
    };
    let mut visited: HashSet<u32> = HashSet::new();
    let mut off = ifd0;
    let mut idx: u64 = 0;
    let ghost mut f: nat = (len + 1) as nat;
    let ghost mut added: Seq<TagModel> = Seq::empty();
    proof {
        let c = chain_spec(tiff@, endian, off, idx as nat, visited@, f);
        assert(added + c.0 =~= c.0);
    }
    loop
        invariant
            len == tiff@.len(),
            len <= isize::MAX,
            vis_ok(visited@, tiff@.len()),
            f >= budget(visited@, tiff@.len()),
            idx <= visited@.len(),
            meta0 == old(meta)@,
            meta@ == meta0 + added,
            exif_spec(tiff@).0 == added + chain_spec(tiff@, endian, off, idx as nat, visited@, f).0,
            exif_spec(tiff@).1 == chain_spec(tiff@, endian, off, idx as nat, visited@, f).1,
        decreases budget(visited@, tiff@.len()),
    {
        let ghost vis_i = visited@;
        let ghost meta_i = meta@;
        let ghost added_i = added;
        proof {
            lemma_vis_bound(vis_i, tiff@.len());
        }
        let label = ifd_label_string(idx);
        let rw = walk_ifd(meta, tiff, endian, off, label.as_str(), false, &mut visited);
        let ghost w = walk_spec(tiff@, endian, off, ifd_label(idx as nat), false, vis_i, budget(vis_i, tiff@.len()));
        proof {
            assert(walk_matches(w, meta_i, meta@, visited@, rw));
            lemma_vis_bound(visited@, tiff@.len());
        }
        let next = match rw {
            Ok(x) => x,
            Err(x) => {
                assert(meta@ =~= meta0 + (added_i + w.0));
                return Err(x);
            },
        };
        if next == 0 {
            assert(meta@ =~= meta0 + (added_i + w.0));
            return Ok(());
        }
        proof {
            let c = chain_spec(tiff@, endian, next, (idx + 1) as nat, visited@, (f - 1) as nat);
            assert(added_i + (w.0 + c.0) =~= (added_i + w.0) + c.0);
            added = added_i + w.0;
            f = (f - 1) as nat;
            assert(meta@ =~= meta0 + added);
        }
        off = next;
        idx = idx + 1;
    }
}

} // verus!

verus! {

/// The 32-bit unsigned integer in bytes `o..o + 4` of `data`, least significant byte first in
/// Intel order and last in Motorola order.
pub open spec fn word32(data: Seq<u8>, o: int, e: Endian) -> u32 {
    match e {
        Endian::Little => (data[o] + data[o + 1] * 256 + data[o + 2] * 65536 + data[o + 3] * 16777216) as u32,
        Endian::Big => (data[o] * 16777216 + data[o + 1] * 65536 + data[o + 2] * 256 + data[o + 3]) as u32,
    }
}

proof fn lemma_field4(data: Seq<u8>, o: int, e: Endian)
    requires
        0 <= o,
        o + 4 <= data.len(),
    ensures
        field(data, o, 4, e) as u32 == word32(data, o, e),
{
    let s = data.subrange(o, o + 4);
    reveal_with_fuel(crate::byteorder::be_value, 5);
    reveal_with_fuel(crate::byteorder::le_value, 5);
    assert(s.drop_last() =~= seq![s[0], s[1], s[2]]);
    assert(s.drop_last().drop_last() =~= seq![s[0], s[1]]);
    assert(s.drop_last().drop_last().drop_last() =~= seq![s[0]]);
    assert(s.drop_last().drop_last().drop_last().drop_last() =~= Seq::<u8>::empty());
    assert(s.drop_first() =~= seq![s[1], s[2], s[3]]);
    assert(s.drop_first().drop_first() =~= seq![s[2], s[3]]);
    assert(s.drop_first().drop_first().drop_first() =~= seq![s[3]]);
    assert(s.drop_first().drop_first().drop_first().drop_first() =~= Seq::<u8>::empty());
}

/// An unsigned RATIONAL component is eight bytes: the numerator is the 32-bit integer in
/// its first four bytes and the denominator the one in the next four, in the file's byte
/// order. One component decodes to a single `Rational`, several to the list of them in order.
pub proof fn lemma_rational_components(data: Seq<u8>, e: Endian, count: nat)
    requires
        count >= 1,
        8 * count <= data.len(),
        8 * count <= usize::MAX,
    ensures
        count == 1 ==> value_spec(data, e, Format::Rational64u, count) == Ok::<ValueModel, Error>(
            ValueModel::Rational(Rational { num: word32(data, 0, e), den: word32(data, 4, e) }),
        ),
        count > 1 ==> (value_spec(data, e, Format::Rational64u, count) matches Ok(ValueModel::Rationals(rs))
            && rs.len() == count && forall|i: int|
            0 <= i < count ==> #[trigger] rs[i] == (Rational {
                num: word32(data, 8 * i, e),
                den: word32(data, 8 * i + 4, e),
            })),
{
    assert(Format::Rational64u.spec_size() == 8);
    lemma_field4(data, 0, e);
    lemma_field4(data, 4, e);
    let rats = Seq::new(
        count,
        |i: int|
            Rational {
                num: field(data, 8 * i, 4, e) as u32,
                den: field(data, 8 * i + 4, 4, e) as u32,
            },
    );
    assert forall|i: int| 0 <= i < count implies #[trigger] rats[i] == (Rational {
        num: word32(data, 8 * i, e),
        den: word32(data, 8 * i + 4, e),
    }) by {
        lemma_field4(data, 8 * i, e);
        lemma_field4(data, 8 * i + 4, e);
    }
}

/// The 16-bit unsigned integer in bytes `o..o + 2` of `data` in byte order `e`.
pub open spec fn word16(data: Seq<u8>, o: int, e: Endian) -> u16 {
    match e {
        Endian::Little => (data[o] + data[o + 1] * 256) as u16,
        Endian::Big => (data[o] * 256 + data[o + 1]) as u16,
    }
}

proof fn lemma_field2(data: Seq<u8>, o: int, e: Endian)
    requires
        0 <= o,
        o + 2 <= data.len(),
    ensures
        field(data, o, 2, e) as u16 == word16(data, o, e),
{
    let s = data.subrange(o, o + 2);
    reveal_with_fuel(crate::byteorder::be_value, 3);
    reveal_with_fuel(crate::byteorder::le_value, 3);
    assert(s.drop_last() =~= seq![s[0]]);
    assert(s.drop_last().drop_last() =~= Seq::<u8>::empty());
    assert(s.drop_first() =~= seq![s[1]]);
    assert(s.drop_first().drop_first() =~= Seq::<u8>::empty());
}

/// A single SHORT component is the 16-bit integer in the first two bytes and a single LONG
/// the 32-bit integer in the first four, in the file's byte order.
pub proof fn lemma_integer_components(data: Seq<u8>, e: Endian)
    ensures
        data.len() >= 2 ==> value_spec(data, e, Format::Int16u, 1) == Ok::<ValueModel, Error>(
            ValueModel::U16(word16(data, 0, e)),
        ),
        data.len() >= 4 ==> value_spec(data, e, Format::Int32u, 1) == Ok::<ValueModel, Error>(
            ValueModel::U32(word32(data, 0, e)),
        ),
{
    assert(Format::Int16u.spec_size() == 2);
    assert(Format::Int32u.spec_size() == 4);
    if data.len() >= 2 {
        lemma_field2(data, 0, e);
    }
    if data.len() >= 4 {
        lemma_field4(data, 0, e);
    }
}

} // verus!
