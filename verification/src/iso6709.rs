//! ISO 6709 geographic point strings (the subset written in QuickTime `©xyz` and Apple
//! location keys): latitude, longitude and an optional altitude, each a signed decimal.
use crate::text::{chars_of, string_from, trim_end_spec, trim_spec, trim_with, TrimSet};
use vstd::prelude::*;

verus! {

/// A character of the digits-and-points run of a number.
pub open spec fn is_num_char(c: char) -> bool {
    c == '.' || ('0' <= c && c <= '9')
}

/// The end of the run of digits and points starting at `j`.
pub open spec fn num_run_end(t: Seq<char>, j: int) -> int
    decreases t.len() - j,
{
    if j < 0 || j >= t.len() || !is_num_char(t[j]) {
        j
    } else {
        num_run_end(t, j + 1)
    }
}

/// The number of decimal points in `s`.
pub open spec fn dots(s: Seq<char>) -> nat
    decreases s.len(),
{
    if s.len() == 0 {
        0
    } else {
        dots(s.drop_last()) + if s.last() == '.' { 1nat } else { 0nat }
    }
}

/// The number of digits in `s`.
pub open spec fn digits(s: Seq<char>) -> nat
    decreases s.len(),
{
    if s.len() == 0 {
        0
    } else {
        digits(s.drop_last()) + if '0' <= s.last() && s.last() <= '9' { 1nat } else { 0nat }
    }
}

/// The signed number at `i`: an optional `+` or `-`, then a run of digits and points that
/// reads as a decimal (at least one digit, at most one point). Its text, sign included, and
/// where it ends.
pub open spec fn signed_number(t: Seq<char>, i: int) -> Option<(Seq<char>, int)> {
    if i < 0 || i >= t.len() {
        None
    } else {
        let j = if t[i] == '+' || t[i] == '-' { i + 1 } else { i };
        let k = num_run_end(t, j);
        let frag = t.subrange(j, k);
        if k <= j || dots(frag) > 1 || digits(frag) == 0 {
            None
        } else {
            Some((t.subrange(i, k), k))
        }
    }
}

proof fn lemma_num_run_end(t: Seq<char>, j: int)
    requires
        0 <= j <= t.len(),
    ensures
        j <= num_run_end(t, j) <= t.len(),
        forall|q: int| j <= q < num_run_end(t, j) ==> is_num_char(#[trigger] t[q]),
        num_run_end(t, j) < t.len() ==> !is_num_char(t[num_run_end(t, j)]),
    decreases t.len() - j,
{
    if j < t.len() && is_num_char(t[j]) {
        lemma_num_run_end(t, j + 1);
    }
}

fn signed_number_at(cs: &Vec<char>, i: usize) -> (r: Option<(String, usize)>)
    ensures
        match signed_number(cs@, i as int) {
            Some((s, k)) => r matches Some((a, b)) && a@ == s && b == k,
            None => r is None,
        },
{
    let n = cs.len();
    if i >= n {
        return None;
    }
    let j = if cs[i] == '+' || cs[i] == '-' {
        i + 1
    } else {
        i
    };
    proof {
        lemma_num_run_end(cs@, j as int);
    }
    let mut k = j;
    let mut nd: usize = 0;
    let mut ng: usize = 0;
    assert(cs@.subrange(j as int, j as int) =~= Seq::<char>::empty());
    while k < n && (cs[k] == '.' || ('0' <= cs[k] && cs[k] <= '9'))
        invariant
            j <= k <= n == cs@.len(),
            num_run_end(cs@, k as int) == num_run_end(cs@, j as int),
            nd == dots(cs@.subrange(j as int, k as int)),
            ng == digits(cs@.subrange(j as int, k as int)),
            nd <= k - j,
            ng <= k - j,
        decreases n - k,
    {
        assert(cs@.subrange(j as int, k + 1).drop_last() =~= cs@.subrange(j as int, k as int));
        if cs[k] == '.' {
            nd += 1;
        } else {
            ng += 1;
        }
        k += 1;
    }
    if k <= j || nd > 1 || ng == 0 {
        return None;
    }
    Some((string_from(cs, i, k), k))
}

/// The ISO 6709 point in `s`, once surrounding white space and trailing `/` are removed:
/// the texts of latitude, longitude and (when present) altitude, each with its sign.
pub open spec fn iso6709_spec(s: Seq<char>) -> Option<(Seq<char>, Seq<char>, Option<Seq<char>>)> {
    let t = trim_spec(trim_end_spec(trim_spec(s, TrimSet::Whitespace), TrimSet::Slash), TrimSet::Whitespace);
    if t.len() == 0 {
        None
    } else {
        match signed_number(t, 0) {
            None => None,
            Some((lat, i)) => if i >= t.len() {
                None
            } else {
                match signed_number(t, i) {
                    None => None,
                    Some((lon, j)) => if j < t.len() {
                        if t[j] != '+' && t[j] != '-' {
                            None
                        } else {
                            match signed_number(t, j) {
                                None => None,
                                Some((alt, k)) => if k != t.len() {
                                    None
                                } else {
                                    Some((lat, lon, Some(alt)))
                                },
                            }
                        }
                    } else {
                        Some((lat, lon, None))
                    },
                }
            },
        }
    }
}

/// Splits an ISO 6709 point (`+37.4221-122.0841+030.000/`) into the decimal texts of its
/// latitude, longitude and optional altitude, each with its sign.
pub fn parse_iso6709(s: &str) -> (r: Option<(String, String, Option<String>)>)
    ensures
        match iso6709_spec(s@) {
            Some((a, b, c)) => r matches Some((x, y, z)) && x@ == a && y@ == b && match c {
                Some(cc) => z matches Some(zz) && zz@ == cc,
                None => z is None,
            },
            None => r is None,
        },
{
    let t1 = trim_with(s, TrimSet::Whitespace, true, true);
    let t2 = trim_with(t1.as_str(), TrimSet::Slash, false, true);
    let t3 = trim_with(t2.as_str(), TrimSet::Whitespace, true, true);
    let cs = chars_of(t3.as_str());
    let n = cs.len();
    if n == 0 {
        return None;
    }
    let (lat, i) = match signed_number_at(&cs, 0) {
        Some(x) => x,
        None => return None,
    };
    if i >= n {
        return None;
    }
    let (lon, j) = match signed_number_at(&cs, i) {
        Some(x) => x,
        None => return None,
    };
    if j < n {
        if cs[j] != '+' && cs[j] != '-' {
            return None;
        }
        let (alt, k) = match signed_number_at(&cs, j) {
            Some(x) => x,
            None => return None,
        };
        if k != n {
            return None;
        }
        return Some((lat, lon, Some(alt)));
    }
    Some((lat, lon, None))
}

} // verus!
