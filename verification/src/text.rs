//! Text helpers: UTF-8 decoding, trimming, and decimal / hexadecimal digits.
use vstd::prelude::*;
use vstd::string::StrSliceExecFns;
use vstd::utf8::{decode_utf8, valid_utf8};

verus! {

/// What `String::from_utf8_lossy` makes of `b`: the decoded text, with each maximal invalid
/// sequence replaced by U+FFFD.
pub uninterp spec fn utf8_lossy(b: Seq<u8>) -> Seq<char>;

/// `String::from_utf8_lossy`. Its documentation says that valid UTF-8 comes back unchanged;
/// what replaces invalid sequences is named, not stated.
#[verifier::external_body]
pub fn from_utf8_lossy(b: &[u8]) -> (r: String)
    ensures
        r@ == utf8_lossy(b@),
        valid_utf8(b@) ==> r@ == decode_utf8(b@),
{
    String::from_utf8_lossy(b).into_owned()
}

/// The text that `from_utf8_lossy` gives for `b`: the decoded characters of valid UTF-8,
/// otherwise what `String::from_utf8_lossy` makes of it.
pub open spec fn lossy_text(b: Seq<u8>) -> Seq<char> {
    if valid_utf8(b) {
        decode_utf8(b)
    } else {
        utf8_lossy(b)
    }
}

/// `std::str::from_utf8`: succeeds exactly on valid UTF-8, with the decoded text.
#[verifier::external_body]
pub fn str_from_utf8(b: &[u8]) -> (r: Option<&str>)
    ensures
        r is Some == valid_utf8(b@),
        r matches Some(s) ==> s@ == decode_utf8(b@),
{
    std::str::from_utf8(b).ok()
}

/// `String::push`.
#[verifier::external_body]
pub fn push_char(s: &mut String, c: char)
    ensures
        final(s)@ == old(s)@.push(c),
{
    s.push(c)
}

/// `String::push_str`.
#[verifier::external_body]
pub fn push_str(s: &mut String, t: &str)
    ensures
        final(s)@ == old(s)@ + t@,
{
    s.push_str(t)
}

/// `<str as PartialEq>::eq`: two strings are equal when their characters are.
#[verifier::external_body]
pub fn str_eq(a: &str, b: &str) -> (r: bool)
    ensures
        r == (a@ == b@),
{
    a == b
}

/// A new `String` holding `t`.
pub fn string_of(t: &str) -> (r: String)
    ensures
        r@ == t@,
{
    let mut s = String::new();
    push_str(&mut s, t);
    assert(s@ =~= t@);
    s
}

/// Unicode `White_Space`, as `char::is_whitespace` defines it.
pub open spec fn is_ws(c: char) -> bool {
    let u = c as u32;
    (0x09 <= u <= 0x0d) || u == 0x20 || u == 0x85 || u == 0xa0 || u == 0x1680 || (0x2000 <= u
        <= 0x200a) || u == 0x2028 || u == 0x2029 || u == 0x202f || u == 0x205f || u == 0x3000
}

fn char_is_ws(c: char) -> (r: bool)
    ensures
        r == is_ws(c),
{
    let u = c as u32;
    (0x09 <= u && u <= 0x0d) || u == 0x20 || u == 0x85 || u == 0xa0 || u == 0x1680 || (0x2000 <= u
        && u <= 0x200a) || u == 0x2028 || u == 0x2029 || u == 0x202f || u == 0x205f || u == 0x3000
}

/// Which characters a trim removes.
#[derive(Clone, Copy, PartialEq, Eq, Structural)]
pub enum TrimSet {
    Whitespace,
    Nul,
    Slash,
}

pub open spec fn in_set(c: char, t: TrimSet) -> bool {
    match t {
        TrimSet::Whitespace => is_ws(c),
        TrimSet::Nul => c == '\0',
        TrimSet::Slash => c == '/',
    }
}

fn char_in_set(c: char, t: TrimSet) -> (r: bool)
    ensures
        r == in_set(c, t),
{
    match t {
        TrimSet::Whitespace => char_is_ws(c),
        TrimSet::Nul => c == '\0',
        TrimSet::Slash => c == '/',
    }
}

/// `s` without its leading characters from `t`.
pub open spec fn trim_start_spec(s: Seq<char>, t: TrimSet) -> Seq<char>
    decreases s.len(),
{
    if s.len() > 0 && in_set(s[0], t) {
        trim_start_spec(s.drop_first(), t)
    } else {
        s
    }
}

/// `s` without its trailing characters from `t`.
pub open spec fn trim_end_spec(s: Seq<char>, t: TrimSet) -> Seq<char>
    decreases s.len(),
{
    if s.len() > 0 && in_set(s.last(), t) {
        trim_end_spec(s.drop_last(), t)
    } else {
        s
    }
}

/// `s` without leading and trailing characters from `t` (`str::trim`, `str::trim_matches`).
pub open spec fn trim_spec(s: Seq<char>, t: TrimSet) -> Seq<char> {
    trim_end_spec(trim_start_spec(s, t), t)
}

/// `cs[a..b]` as a new `String`.
pub fn string_from(cs: &Vec<char>, a: usize, b: usize) -> (r: String)
    requires
        a <= b <= cs@.len(),
    ensures
        r@ == cs@.subrange(a as int, b as int),
{
    let mut out = String::new();
    let mut i = a;
    while i < b
        invariant
            a <= i <= b <= cs@.len(),
            out@ == cs@.subrange(a as int, i as int),
        decreases b - i,
    {
        push_char(&mut out, cs[i]);
        i += 1;
        assert(out@ =~= cs@.subrange(a as int, i as int));
    }
    out
}

proof fn lemma_trim_start_range(s: Seq<char>, i: int, t: TrimSet)
    requires
        0 <= i <= s.len(),
        forall|j: int| 0 <= j < i ==> in_set(#[trigger] s[j], t),
    ensures
        trim_start_spec(s, t) == trim_start_spec(s.subrange(i, s.len() as int), t),
    decreases i,
{
    if i > 0 {
        lemma_trim_start_range(s.drop_first(), i - 1, t);
        assert(s.drop_first().subrange(i - 1, s.len() - 1) =~= s.subrange(i, s.len() as int));
    } else {
        assert(s.subrange(0, s.len() as int) =~= s);
    }
}

proof fn lemma_trim_end_range(s: Seq<char>, j: int, t: TrimSet)
    requires
        0 <= j <= s.len(),
        forall|k: int| j <= k < s.len() ==> in_set(#[trigger] s[k], t),
    ensures
        trim_end_spec(s, t) == trim_end_spec(s.subrange(0, j), t),
    decreases s.len() - j,
{
    if j < s.len() {
        lemma_trim_end_range(s.drop_last(), j, t);
        assert(s.drop_last().subrange(0, j) =~= s.subrange(0, j));
    } else {
        assert(s.subrange(0, j) =~= s);
    }
}

/// `s` with leading (when `start`) and trailing (when `end`) characters from `t` removed.
pub fn trim_with(s: &str, t: TrimSet, start: bool, end: bool) -> (r: String)
    ensures
        r@ == (if start && end {
            trim_spec(s@, t)
        } else if start {
            trim_start_spec(s@, t)
        } else if end {
            trim_end_spec(s@, t)
        } else {
            s@
        }),
{
    let cs = chars_of(s);
    let n = cs.len();
    let mut a: usize = 0;
    if start {
        while a < n && char_in_set(cs[a], t)
            invariant
                a <= n == s@.len(),
                cs@ == s@,
                forall|j: int| 0 <= j < a ==> in_set(#[trigger] s@[j], t),
            decreases n - a,
        {
            a += 1;
        }
        proof {
            lemma_trim_start_range(s@, a as int, t);
        }
    }
    let ghost mid = s@.subrange(a as int, n as int);
    let mut b: usize = n;
    if end {
        while b > a && char_in_set(cs[b - 1], t)
            invariant
                a <= b <= n == s@.len(),
                cs@ == s@,
                mid == s@.subrange(a as int, n as int),
                forall|k: int| b <= k < n ==> in_set(#[trigger] s@[k], t),
            decreases b - a,
        {
            b -= 1;
        }
        proof {
            assert forall|k: int| b - a <= k < mid.len() implies in_set(#[trigger] mid[k], t) by {
                assert(mid[k] == s@[k + a]);
            }
            lemma_trim_end_range(mid, (b - a) as int, t);
            assert(mid.subrange(0, (b - a) as int) =~= s@.subrange(a as int, b as int));
            if start && a < n {
                assert(!in_set(mid[0], t));
                assert(trim_start_spec(mid, t) == mid);
            }
        }
    }
    proof {
        if start {
            if a < n {
                assert(!in_set(s@[a as int], t));
                assert(trim_start_spec(mid, t) == mid);
            } else {
                assert(mid =~= Seq::<char>::empty());
            }
        } else {
            assert(mid =~= s@);
        }
        if !end {
            assert(s@.subrange(a as int, b as int) == mid);
        }
    }
    string_from(&cs, a, b)
}

/// The characters of `s` before its first NUL.
pub open spec fn before_nul(s: Seq<char>) -> Seq<char>
    decreases s.len(),
{
    if s.len() == 0 {
        s
    } else if s.last() != '\0' && !s.drop_last().contains('\0') {
        s
    } else {
        before_nul(s.drop_last())
    }
}

proof fn lemma_before_nul(s: Seq<char>, i: int)
    requires
        0 <= i <= s.len(),
        forall|j: int| 0 <= j < i ==> s[j] != '\0',
        i == s.len() || s[i] == '\0',
    ensures
        before_nul(s) == s.subrange(0, i),
    decreases s.len(),
{
    if s.len() > 0 {
        if i == s.len() {
            if s.last() == '\0' || s.drop_last().contains('\0') {
                let k = if s.last() == '\0' { s.len() - 1 } else { s.drop_last().index_of('\0') };
                assert(s[k] == '\0');
            }
            assert(s.subrange(0, i) =~= s);
        } else {
            assert(s[i] == '\0');
            assert(s.last() == '\0' || s.drop_last().contains('\0')) by {
                if i < s.len() - 1 {
                    assert(s.drop_last()[i] == '\0');
                }
            }
            lemma_before_nul(s.drop_last(), i);
            assert(s.drop_last().subrange(0, i) =~= s.subrange(0, i));
        }
    }
}

/// `s` cut at its first NUL (`String::find` then `truncate`).
pub fn truncate_at_nul(s: &str) -> (r: String)
    ensures
        r@ == before_nul(s@),
{
    let cs = chars_of(s);
    let mut i: usize = 0;
    while i < cs.len() && cs[i] != '\0'
        invariant
            i <= cs@.len(),
            cs@ == s@,
            forall|j: int| 0 <= j < i ==> s@[j] != '\0',
        decreases cs@.len() - i,
    {
        i += 1;
    }
    proof {
        lemma_before_nul(s@, i as int);
    }
    string_from(&cs, 0, i)
}

} // verus!

verus! {

/// The decimal digit character for `d < 10`.
pub open spec fn digit_char(d: nat) -> char {
    ((48 + d) as u8) as char
}

/// The lower-case hexadecimal digit character for `d < 16`.
pub open spec fn hex_char(d: nat) -> char {
    if d < 10 {
        ((48 + d) as u8) as char
    } else {
        ((87 + d) as u8) as char
    }
}

/// The decimal digits of `v`, without leading zeros ("0" for zero).
pub open spec fn dec_digits(v: nat) -> Seq<char>
    decreases v,
{
    if v < 10 {
        seq![digit_char(v)]
    } else {
        dec_digits(v / 10).push(digit_char(v % 10))
    }
}

/// The decimal text of the signed integer `v`.
pub open spec fn signed_dec(v: int) -> Seq<char> {
    if v < 0 {
        seq!['-'] + dec_digits((-v) as nat)
    } else {
        dec_digits(v as nat)
    }
}

/// `s` padded on the left with `c` to at least `w` characters.
pub open spec fn pad_left(s: Seq<char>, w: nat, c: char) -> Seq<char> {
    if s.len() >= w {
        s
    } else {
        Seq::new((w - s.len()) as nat, |i: int| c) + s
    }
}

/// The `n` lower-case hexadecimal digits of `v` (modulo 16^n).
pub open spec fn hex_digits(v: nat, n: nat) -> Seq<char>
    decreases n,
{
    if n == 0 {
        seq![]
    } else {
        hex_digits(v / 16, (n - 1) as nat).push(hex_char(v % 16))
    }
}

fn digit(d: u64) -> (c: char)
    requires
        d < 10,
    ensures
        c == digit_char(d as nat),
{
    ((48 + d) as u8) as char
}

fn hex_digit(d: u64) -> (c: char)
    requires
        d < 16,
    ensures
        c == hex_char(d as nat),
{
    if d < 10 {
        ((48 + d) as u8) as char
    } else {
        ((87 + d) as u8) as char
    }
}

/// Appends the decimal digits of `v`.
pub fn push_decimal(s: &mut String, v: u64)
    ensures
        final(s)@ == old(s)@ + dec_digits(v as nat),
    decreases v,
{
    if v >= 10 {
        push_decimal(s, v / 10);
    }
    push_char(s, digit(v % 10));
    assert(final(s)@ =~= old(s)@ + dec_digits(v as nat));
}

/// Appends the decimal text of the signed `v`.
pub fn push_signed(s: &mut String, v: i64)
    ensures
        final(s)@ == old(s)@ + signed_dec(v as int),
{
    if v < 0 {
        push_char(s, '-');
        let m: u64 = (0i128 - v as i128) as u64;
        push_decimal(s, m);
        assert(final(s)@ =~= old(s)@ + signed_dec(v as int));
    } else {
        push_decimal(s, v as u64);
    }
}

proof fn lemma_dec_digits_len(v: nat)
    ensures
        dec_digits(v).len() >= 1,
        v < 10 ==> dec_digits(v).len() == 1,
        10 <= v < 100 ==> dec_digits(v).len() == 2,
        100 <= v < 1000 ==> dec_digits(v).len() == 3,
        1000 <= v < 10000 ==> dec_digits(v).len() == 4,
        10 <= v ==> dec_digits(v).len() >= 2,
        100 <= v ==> dec_digits(v).len() >= 3,
        1000 <= v ==> dec_digits(v).len() >= 4,
        10000 <= v ==> dec_digits(v).len() >= 5,
    decreases v,
{
    if v >= 10 {
        lemma_dec_digits_len(v / 10);
    }
}

/// Appends the decimal digits of `v`, zero-padded to `w` characters (`{v:0w}`), `w <= 4`.
pub fn push_padded(s: &mut String, v: u64, w: usize)
    requires
        w <= 4,
    ensures
        final(s)@ == old(s)@ + pad_left(dec_digits(v as nat), w as nat, '0'),
{
    proof {
        lemma_dec_digits_len(v as nat);
    }
    let len: usize = if v < 10 {
        1
    } else if v < 100 {
        2
    } else if v < 1000 {
        3
    } else if v < 10000 {
        4
    } else {
        5
    };
    assert(len >= w ==> dec_digits(v as nat).len() >= w) by {
        if v >= 10000 {
            lemma_dec_digits_len(v as nat);
        }
    };
    assert(len < w ==> dec_digits(v as nat).len() == len);
    let mut i = len;
    let ghost start = s@;
    while i < w
        invariant
            len <= w <= 4 || len >= w,
            i <= w || i == len,
            len <= i,
            s@ == start + Seq::new((i - len) as nat, |j: int| '0'),
        decreases w - i,
    {
        push_char(s, '0');
        i += 1;
        assert(s@ =~= start + Seq::new((i - len) as nat, |j: int| '0'));
    }
    push_decimal(s, v);
    proof {
        if len >= w {
            assert(s@ =~= start + dec_digits(v as nat));
        } else {
            assert(s@ =~= start + pad_left(dec_digits(v as nat), w as nat, '0'));
        }
    }
}

/// Appends the four lower-case hexadecimal digits of `v` (`{v:04x}`).
pub fn push_hex4(s: &mut String, v: u16)
    ensures
        final(s)@ == old(s)@ + hex_digits(v as nat, 4),
{
    let v = v as u64;
    let d3 = v % 16;
    let v1 = v / 16;
    let d2 = v1 % 16;
    let v2 = v1 / 16;
    let d1 = v2 % 16;
    let v3 = v2 / 16;
    let d0 = v3 % 16;
    push_char(s, hex_digit(d0));
    push_char(s, hex_digit(d1));
    push_char(s, hex_digit(d2));
    push_char(s, hex_digit(d3));
    proof {
        reveal_with_fuel(hex_digits, 5);
        assert(final(s)@ =~= old(s)@ + hex_digits(v as nat, 4));
    }
}

} // verus!

verus! {

/// The characters of `s`.
pub fn chars_of(s: &str) -> (r: Vec<char>)
    ensures
        r@ == s@,
{
    broadcast use vstd::string::group_string_axioms;
    let mut out: Vec<char> = Vec::new();
    for c in it: s.chars()
        invariant
            out@ == it.seq().take(it.index() as int),
    {
        out.push(c);
        assert(out@ =~= it.seq().take(it.index() + 1));
    }
    assert(out@ =~= s@);
    out
}

} // verus!
