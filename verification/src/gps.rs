//! GPS coordinates and references: the parts of a coordinate in degrees, minutes and
//! seconds, and the names of the reference letters.
use crate::text::{chars_of, is_ws, string_of, trim_end_spec, trim_spec, trim_start_spec, trim_with, TrimSet};
use crate::value::{Rational, Value, ValueModel};
use vstd::prelude::*;

verus! {

/// The first character of a text value, after white space.
pub open spec fn first_char(v: ValueModel) -> Option<char> {
    let s = match v {
        ValueModel::Ascii(s) => Some(s),
        ValueModel::Utf8(s) => Some(s),
        _ => None,
    };
    match s {
        Some(t) => if trim_spec(t, TrimSet::Whitespace).len() > 0 {
            Some(trim_spec(t, TrimSet::Whitespace)[0])
        } else {
            None
        },
        None => None,
    }
}

fn ascii_first(val: &Value) -> (r: Option<char>)
    ensures
        r == first_char(val@),
{
    let s = match val {
        Value::Ascii(x) => x.as_str(),
        Value::Utf8(x) => x.as_str(),
        _ => return None,
    };
    let t = trim_with(s, TrimSet::Whitespace, true, true);
    let cs = chars_of(t.as_str());
    if cs.len() > 0 {
        Some(cs[0])
    } else {
        None
    }
}

/// `North` or `South` for a latitude reference starting with `N` or `S` (either case).
pub open spec fn lat_ref_text(v: ValueModel) -> Option<Seq<char>> {
    match first_char(v) {
        Some(c) => if c == 'N' || c == 'n' {
            Some("North"@)
        } else if c == 'S' || c == 's' {
            Some("South"@)
        } else {
            None
        },
        None => None,
    }
}

/// `East` or `West` for a longitude reference starting with `E` or `W` (either case).
pub open spec fn lon_ref_text(v: ValueModel) -> Option<Seq<char>> {
    match first_char(v) {
        Some(c) => if c == 'E' || c == 'e' {
            Some("East"@)
        } else if c == 'W' || c == 'w' {
            Some("West"@)
        } else {
            None
        },
        None => None,
    }
}

pub fn format_lat_ref(val: &Value) -> (r: Option<String>)
    ensures
        match lat_ref_text(val@) {
            Some(t) => r matches Some(s) && s@ == t,
            None => r is None,
        },
{
    match ascii_first(val) {
        Some(c) => if c == 'N' || c == 'n' {
            Some(string_of("North"))
        } else if c == 'S' || c == 's' {
            Some(string_of("South"))
        } else {
            None
        },
        None => None,
    }
}

pub fn format_lon_ref(val: &Value) -> (r: Option<String>)
    ensures
        match lon_ref_text(val@) {
            Some(t) => r matches Some(s) && s@ == t,
            None => r is None,
        },
{
    match ascii_first(val) {
        Some(c) => if c == 'E' || c == 'e' {
            Some(string_of("East"))
        } else if c == 'W' || c == 'w' {
            Some(string_of("West"))
        } else {
            None
        },
        None => None,
    }
}

/// A GPS reference that puts a coordinate south or west: it starts (after white space) with
/// `S` or `W`, either case.
pub open spec fn ref_negative(r: Option<Seq<char>>) -> bool {
    match r {
        Some(t) => {
            let u = trim_spec(t, TrimSet::Whitespace);
            u.len() > 0 && (u[0] == 'S' || u[0] == 's' || u[0] == 'W' || u[0] == 'w')
        },
        None => false,
    }
}

/// The degrees, minutes and seconds of a GPS coordinate value (at least three rationals,
/// none with a zero denominator), and whether the reference makes it negative.
pub open spec fn coord_spec(v: ValueModel, r: Option<Seq<char>>) -> Option<(Rational, Rational, Rational, bool)> {
    match v {
        ValueModel::Rationals(rs) => if rs.len() >= 3 && rs[0].den != 0 && rs[1].den != 0 && rs[2].den != 0 {
            Some((rs[0], rs[1], rs[2], ref_negative(r)))
        } else {
            None
        },
        _ => None,
    }
}

/// A single rational with a non-zero denominator, which has no minutes to read.
pub open spec fn single_coordinate(v: ValueModel) -> bool {
    v matches ValueModel::Rational(x) && x.den != 0
}

fn is_negative_ref(r: Option<&str>) -> (b: bool)
    ensures
        b == ref_negative(match r {
            Some(s) => Some(s@),
            None => None,
        }),
{
    match r {
        Some(s) => {
            let u = trim_with(s, TrimSet::Whitespace, true, true);
            let cs = chars_of(u.as_str());
            cs.len() > 0 && (cs[0] == 'S' || cs[0] == 's' || cs[0] == 'W' || cs[0] == 'w')
        },
        None => false,
    }
}

/// The parts of a GPS coordinate in degrees: degrees, minutes, seconds and whether it is
/// south or west of the reference.
pub fn coordinate_parts(val: &Value, ref_dir: Option<&str>) -> (r: Option<(Rational, Rational, Rational, bool)>)
    requires
        !single_coordinate(val@),
    ensures
        r == coord_spec(val@, match ref_dir {
            Some(s) => Some(s@),
            None => None,
        }),
{
    match val {
        Value::Rationals(rs) => {
            if rs.len() >= 3 && rs[0].den != 0 && rs[1].den != 0 && rs[2].den != 0 {
                Some((rs[0], rs[1], rs[2], is_negative_ref(ref_dir)))
            } else {
                None
            }
        },
        _ => None,
    }
}

} // verus!

verus! {

proof fn lemma_trim_start_skips(t: Seq<char>, k: int)
    requires
        0 <= k < t.len(),
        forall|i: int| 0 <= i < k ==> is_ws(#[trigger] t[i]),
        !is_ws(t[k]),
    ensures
        trim_start_spec(t, TrimSet::Whitespace) == t.subrange(k, t.len() as int),
    decreases k,
{
    if k == 0 {
        assert(t.subrange(0, t.len() as int) =~= t);
    } else {
        assert(is_ws(t[0]));
        let u = t.drop_first();
        assert forall|i: int| 0 <= i < k - 1 implies is_ws(#[trigger] u[i]) by {
            assert(u[i] == t[i + 1]);
        }
        lemma_trim_start_skips(u, k - 1);
        assert(u.subrange(k - 1, u.len() as int) =~= t.subrange(k, t.len() as int));
    }
}

proof fn lemma_trim_end_keeps_first(s: Seq<char>)
    requires
        s.len() > 0,
        !is_ws(s[0]),
    ensures
        trim_end_spec(s, TrimSet::Whitespace).len() > 0,
        trim_end_spec(s, TrimSet::Whitespace)[0] == s[0],
    decreases s.len(),
{
    if s.len() > 1 && is_ws(s.last()) {
        lemma_trim_end_keeps_first(s.drop_last());
    }
}

/// A GPS reference makes a coordinate negative exactly when its first character that is not
/// white space is `S` or `W` (either case): south latitudes and west longitudes are negative,
/// north and east ones positive; without a reference the coordinate is positive.
pub proof fn lemma_ref_sign(t: Seq<char>, k: int, v: ValueModel)
    requires
        0 <= k < t.len(),
        forall|i: int| 0 <= i < k ==> is_ws(#[trigger] t[i]),
        !is_ws(t[k]),
    ensures
        ref_negative(Some(t)) == (t[k] == 'S' || t[k] == 's' || t[k] == 'W' || t[k] == 'w'),
        coord_spec(v, Some(t)) matches Some(p) ==> p.3 == (t[k] == 'S' || t[k] == 's' || t[k] == 'W'
            || t[k] == 'w'),
        coord_spec(v, None) matches Some(p) ==> !p.3,
{
    lemma_trim_start_skips(t, k);
    let u = t.subrange(k, t.len() as int);
    assert(u[0] == t[k]);
    lemma_trim_end_keeps_first(u);
}

/// The coordinate parts of a list of at least three rationals (no zero denominator) are its
/// first three in order: degrees, minutes, seconds.
pub proof fn lemma_coordinate_parts_order(rs: Seq<Rational>, r: Option<Seq<char>>)
    requires
        rs.len() >= 3,
        rs[0].den != 0 && rs[1].den != 0 && rs[2].den != 0,
    ensures
        coord_spec(ValueModel::Rationals(rs), r) matches Some(p) && p.0 == rs[0] && p.1 == rs[1] && p.2 == rs[2],
{
}

} // verus!
