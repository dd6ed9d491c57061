//! Tag values.
use crate::text::{dec_digits, push_char, push_decimal, push_signed, signed_dec};
use vstd::prelude::*;

verus! {

/// An unsigned TIFF rational.
#[derive(Clone, Copy, Debug, PartialEq, Eq, Structural)]
pub struct Rational {
    pub num: u32,
    pub den: u32,
}

/// A signed TIFF rational.
#[derive(Clone, Copy, Debug, PartialEq, Eq, Structural)]
pub struct SRational {
    pub num: i32,
    pub den: i32,
}

impl Rational {
    /// `num/den`.
    pub open spec fn text(self) -> Seq<char> {
        dec_digits(self.num as nat) + seq!['/'] + dec_digits(self.den as nat)
    }

    /// The rational as `num/den`.
    pub fn to_text(&self) -> (r: String)
        ensures
            r@ == self.text(),
    {
        let mut s = String::new();
        push_decimal(&mut s, self.num as u64);
        push_char(&mut s, '/');
        push_decimal(&mut s, self.den as u64);
        assert(s@ =~= self.text());
        s
    }
}

impl SRational {
    /// `num/den`.
    pub open spec fn text(self) -> Seq<char> {
        signed_dec(self.num as int) + seq!['/'] + signed_dec(self.den as int)
    }

    /// The rational as `num/den`.
    pub fn to_text(&self) -> (r: String)
        ensures
            r@ == self.text(),
    {
        let mut s = String::new();
        push_signed(&mut s, self.num as i64);
        push_char(&mut s, '/');
        push_signed(&mut s, self.den as i64);
        assert(s@ =~= self.text());
        s
    }
}

/// A tag value. Floating-point fields are held by their IEEE-754 bit patterns, and values
/// that the readers compute as quotients or read as decimal text are held exactly.
#[derive(Clone, Debug, PartialEq)]
pub enum Value {
    U8(u8),
    U16(u16),
    U32(u32),
    U64(u64),
    I8(i8),
    I16(i16),
    I32(i32),
    I64(i64),
    /// An `f32`, by its bit pattern.
    F32(u32),
    /// An `f64`, by its bit pattern.
    F64(u64),
    Rational(Rational),
    SRational(SRational),
    /// One or more rationals (e.g. GPS coordinate triplets).
    Rationals(Vec<Rational>),
    Ascii(String),
    Utf8(String),
    Undef(Vec<u8>),
    /// Homogeneous numeric arrays from multi-value TIFF fields.
    U16s(Vec<u16>),
    U32s(Vec<u32>),
    I16s(Vec<i16>),
    I32s(Vec<i32>),
    I8s(Vec<i8>),
    /// `f32` array, by bit patterns.
    F32s(Vec<u32>),
    /// `f64` array, by bit patterns.
    F64s(Vec<u64>),
    /// The real number `num * scale / den`.
    Quotient { num: u64, scale: u32, den: u64 },
    /// A real number written in decimal (optional sign, digits, at most one point).
    Decimal(String),
    /// A geographic point: latitude and longitude in decimal degrees.
    Coordinates(String, String),
    /// The text that `Display` writes for the `f32` with this bit pattern.
    F32Text(u32),
    /// The text that `Display` writes for the `f64` with this bit pattern.
    F64Text(u64),
}

/// What a `Value` holds, with texts and arrays as sequences.
pub enum ValueModel {
    U8(u8),
    U16(u16),
    U32(u32),
    U64(u64),
    I8(i8),
    I16(i16),
    I32(i32),
    I64(i64),
    F32(u32),
    F64(u64),
    Rational(Rational),
    SRational(SRational),
    Rationals(Seq<Rational>),
    Ascii(Seq<char>),
    Utf8(Seq<char>),
    Undef(Seq<u8>),
    U16s(Seq<u16>),
    U32s(Seq<u32>),
    I16s(Seq<i16>),
    I32s(Seq<i32>),
    I8s(Seq<i8>),
    F32s(Seq<u32>),
    F64s(Seq<u64>),
    Quotient { num: u64, scale: u32, den: u64 },
    Decimal(Seq<char>),
    Coordinates(Seq<char>, Seq<char>),
    F32Text(u32),
    F64Text(u64),
}

impl View for Value {
    type V = ValueModel;

    open spec fn view(&self) -> ValueModel {
        match self {
            Value::U8(x) => ValueModel::U8(*x),
            Value::U16(x) => ValueModel::U16(*x),
            Value::U32(x) => ValueModel::U32(*x),
            Value::U64(x) => ValueModel::U64(*x),
            Value::I8(x) => ValueModel::I8(*x),
            Value::I16(x) => ValueModel::I16(*x),
            Value::I32(x) => ValueModel::I32(*x),
            Value::I64(x) => ValueModel::I64(*x),
            Value::F32(x) => ValueModel::F32(*x),
            Value::F64(x) => ValueModel::F64(*x),
            Value::Rational(r) => ValueModel::Rational(*r),
            Value::SRational(r) => ValueModel::SRational(*r),
            Value::Rationals(v) => ValueModel::Rationals(v@),
            Value::Ascii(s) => ValueModel::Ascii(s@),
            Value::Utf8(s) => ValueModel::Utf8(s@),
            Value::Undef(v) => ValueModel::Undef(v@),
            Value::U16s(v) => ValueModel::U16s(v@),
            Value::U32s(v) => ValueModel::U32s(v@),
            Value::I16s(v) => ValueModel::I16s(v@),
            Value::I32s(v) => ValueModel::I32s(v@),
            Value::I8s(v) => ValueModel::I8s(v@),
            Value::F32s(v) => ValueModel::F32s(v@),
            Value::F64s(v) => ValueModel::F64s(v@),
            Value::Quotient { num, scale, den } => ValueModel::Quotient {
                num: *num,
                scale: *scale,
                den: *den,
            },
            Value::Decimal(s) => ValueModel::Decimal(s@),
            Value::Coordinates(a, b) => ValueModel::Coordinates(a@, b@),
            Value::F32Text(x) => ValueModel::F32Text(*x),
            Value::F64Text(x) => ValueModel::F64Text(*x),
        }
    }
}

} // verus!

verus! {

/// The parts separated by single spaces.
pub open spec fn joined(parts: Seq<Seq<char>>) -> Seq<char>
    decreases parts.len(),
{
    if parts.len() == 0 {
        seq![]
    } else if parts.len() == 1 {
        parts[0]
    } else {
        joined(parts.drop_last()) + seq![' '] + parts.last()
    }
}

/// How a value is shown, for values without floating-point content: integers in decimal,
/// rationals as `num/den`, texts as they are, raw bytes as their count, lists separated by
/// spaces.
pub open spec fn value_text(v: ValueModel) -> Option<Seq<char>> {
    match v {
        ValueModel::U8(x) => Some(dec_digits(x as nat)),
        ValueModel::U16(x) => Some(dec_digits(x as nat)),
        ValueModel::U32(x) => Some(dec_digits(x as nat)),
        ValueModel::U64(x) => Some(dec_digits(x as nat)),
        ValueModel::I8(x) => Some(signed_dec(x as int)),
        ValueModel::I16(x) => Some(signed_dec(x as int)),
        ValueModel::I32(x) => Some(signed_dec(x as int)),
        ValueModel::I64(x) => Some(signed_dec(x as int)),
        ValueModel::Rational(r) => Some(r.text()),
        ValueModel::SRational(r) => Some(r.text()),
        ValueModel::Rationals(rs) => Some(joined(rs.map_values(|r: Rational| r.text()))),
        ValueModel::Ascii(s) => Some(s),
        ValueModel::Utf8(s) => Some(s),
        ValueModel::Undef(b) => Some(seq!['('] + dec_digits(b.len()) + " bytes)"@),
        ValueModel::U16s(xs) => Some(joined(xs.map_values(|x: u16| dec_digits(x as nat)))),
        ValueModel::U32s(xs) => Some(joined(xs.map_values(|x: u32| dec_digits(x as nat)))),
        ValueModel::I16s(xs) => Some(joined(xs.map_values(|x: i16| signed_dec(x as int)))),
        ValueModel::I32s(xs) => Some(joined(xs.map_values(|x: i32| signed_dec(x as int)))),
        ValueModel::I8s(xs) => Some(joined(xs.map_values(|x: i8| signed_dec(x as int)))),
        _ => None,
    }
}

/// Appends `parts[i]` to `s`, which holds the parts before it joined.
proof fn lemma_joined_push(parts: Seq<Seq<char>>, i: int, before: Seq<char>, after: Seq<char>)
    requires
        0 <= i < parts.len(),
        before == joined(parts.take(i)),
        after == if i == 0 {
            before + parts[i]
        } else {
            before + seq![' '] + parts[i]
        },
    ensures
        after == joined(parts.take(i + 1)),
{
    let t = parts.take(i + 1);
    assert(t.drop_last() =~= parts.take(i));
    if i == 0 {
        assert(before =~= Seq::<char>::empty());
        assert(after =~= parts[0]);
    }
}

fn unsigned_list(xs: &Vec<u64>) -> (r: String)
    ensures
        r@ == joined(xs@.map_values(|x: u64| dec_digits(x as nat))),
{
    let ghost parts = xs@.map_values(|x: u64| dec_digits(x as nat));
    let mut s = String::new();
    let mut i: usize = 0;
    assert(parts.take(0) =~= Seq::<Seq<char>>::empty());
    while i < xs.len()
        invariant
            i <= xs@.len(),
            parts == xs@.map_values(|x: u64| dec_digits(x as nat)),
            s@ == joined(parts.take(i as int)),
        decreases xs@.len() - i,
    {
        let ghost before = s@;
        if i > 0 {
            push_char(&mut s, ' ');
        }
        push_decimal(&mut s, xs[i]);
        assert(parts[i as int] == dec_digits(xs@[i as int] as nat));
        proof {
            if i == 0 {
                assert(s@ =~= before + parts[i as int]);
            } else {
                assert(s@ =~= before + seq![' '] + parts[i as int]);
            }
            lemma_joined_push(parts, i as int, before, s@);
        }
        i += 1;
    }
    assert(parts.take(i as int) =~= parts);
    s
}

fn signed_list(xs: &Vec<i64>) -> (r: String)
    ensures
        r@ == joined(xs@.map_values(|x: i64| signed_dec(x as int))),
{
    let ghost parts = xs@.map_values(|x: i64| signed_dec(x as int));
    let mut s = String::new();
    let mut i: usize = 0;
    assert(parts.take(0) =~= Seq::<Seq<char>>::empty());
    while i < xs.len()
        invariant
            i <= xs@.len(),
            parts == xs@.map_values(|x: i64| signed_dec(x as int)),
            s@ == joined(parts.take(i as int)),
        decreases xs@.len() - i,
    {
        let ghost before = s@;
        if i > 0 {
            push_char(&mut s, ' ');
        }
        push_signed(&mut s, xs[i]);
        assert(parts[i as int] == signed_dec(xs@[i as int] as int));
        proof {
            if i == 0 {
                assert(s@ =~= before + parts[i as int]);
            } else {
                assert(s@ =~= before + seq![' '] + parts[i as int]);
            }
            lemma_joined_push(parts, i as int, before, s@);
        }
        i += 1;
    }
    assert(parts.take(i as int) =~= parts);
    s
}

fn rational_list(rs: &Vec<Rational>) -> (r: String)
    ensures
        r@ == joined(rs@.map_values(|x: Rational| x.text())),
{
    let ghost parts = rs@.map_values(|x: Rational| x.text());
    let mut s = String::new();
    let mut i: usize = 0;
    assert(parts.take(0) =~= Seq::<Seq<char>>::empty());
    while i < rs.len()
        invariant
            i <= rs@.len(),
            parts == rs@.map_values(|x: Rational| x.text()),
            s@ == joined(parts.take(i as int)),
        decreases rs@.len() - i,
    {
        let ghost before = s@;
        if i > 0 {
            push_char(&mut s, ' ');
        }
        let t = rs[i].to_text();
        assert(parts[i as int] == rs@[i as int].text());
        crate::text::push_str(&mut s, t.as_str());
        proof {
            if i == 0 {
                assert(s@ =~= before + parts[i as int]);
            } else {
                assert(s@ =~= before + seq![' '] + parts[i as int]);
            }
            lemma_joined_push(parts, i as int, before, s@);
        }
        i += 1;
    }
    assert(parts.take(i as int) =~= parts);
    s
}

fn widen_u16(xs: &Vec<u16>) -> (r: Vec<u64>)
    ensures
        r@ == xs@.map_values(|x: u16| x as u64),
{
    let mut out: Vec<u64> = Vec::new();
    let mut i: usize = 0;
    while i < xs.len()
        invariant
            i <= xs@.len(),
            out@ == xs@.take(i as int).map_values(|x: u16| x as u64),
        decreases xs@.len() - i,
    {
        out.push(xs[i] as u64);
        i += 1;
        assert(out@ =~= xs@.take(i as int).map_values(|x: u16| x as u64));
    }
    assert(xs@.take(i as int) =~= xs@);
    out
}

fn widen_u32(xs: &Vec<u32>) -> (r: Vec<u64>)
    ensures
        r@ == xs@.map_values(|x: u32| x as u64),
{
    let mut out: Vec<u64> = Vec::new();
    let mut i: usize = 0;
    while i < xs.len()
        invariant
            i <= xs@.len(),
            out@ == xs@.take(i as int).map_values(|x: u32| x as u64),
        decreases xs@.len() - i,
    {
        out.push(xs[i] as u64);
        i += 1;
        assert(out@ =~= xs@.take(i as int).map_values(|x: u32| x as u64));
    }
    assert(xs@.take(i as int) =~= xs@);
    out
}

fn widen_i8(xs: &Vec<i8>) -> (r: Vec<i64>)
    ensures
        r@ == xs@.map_values(|x: i8| x as i64),
{
    let mut out: Vec<i64> = Vec::new();
    let mut i: usize = 0;
    while i < xs.len()
        invariant
            i <= xs@.len(),
            out@ == xs@.take(i as int).map_values(|x: i8| x as i64),
        decreases xs@.len() - i,
    {
        out.push(xs[i] as i64);
        i += 1;
        assert(out@ =~= xs@.take(i as int).map_values(|x: i8| x as i64));
    }
    assert(xs@.take(i as int) =~= xs@);
    out
}

fn widen_i16(xs: &Vec<i16>) -> (r: Vec<i64>)
    ensures
        r@ == xs@.map_values(|x: i16| x as i64),
{
    let mut out: Vec<i64> = Vec::new();
    let mut i: usize = 0;
    while i < xs.len()
        invariant
            i <= xs@.len(),
            out@ == xs@.take(i as int).map_values(|x: i16| x as i64),
        decreases xs@.len() - i,
    {
        out.push(xs[i] as i64);
        i += 1;
        assert(out@ =~= xs@.take(i as int).map_values(|x: i16| x as i64));
    }
    assert(xs@.take(i as int) =~= xs@);
    out
}

fn widen_i32(xs: &Vec<i32>) -> (r: Vec<i64>)
    ensures
        r@ == xs@.map_values(|x: i32| x as i64),
{
    let mut out: Vec<i64> = Vec::new();
    let mut i: usize = 0;
    while i < xs.len()
        invariant
            i <= xs@.len(),
            out@ == xs@.take(i as int).map_values(|x: i32| x as i64),
        decreases xs@.len() - i,
    {
        out.push(xs[i] as i64);
        i += 1;
        assert(out@ =~= xs@.take(i as int).map_values(|x: i32| x as i64));
    }
    assert(xs@.take(i as int) =~= xs@);
    out
}

impl Value {
    /// How the value is shown, for values without floating-point content (see
    /// `value_text`); none for the others.
    pub fn text(&self) -> (r: Option<String>)
        ensures
            match value_text(self@) {
                Some(t) => r matches Some(s) && s@ == t,
                None => r is None,
            },
    {
        match self {
            Value::U8(x) => Some(decimal(*x as u64)),
            Value::U16(x) => Some(decimal(*x as u64)),
            Value::U32(x) => Some(decimal(*x as u64)),
            Value::U64(x) => Some(decimal(*x)),
            Value::I8(x) => Some(signed(*x as i64)),
            Value::I16(x) => Some(signed(*x as i64)),
            Value::I32(x) => Some(signed(*x as i64)),
            Value::I64(x) => Some(signed(*x)),
            Value::Rational(r) => Some(r.to_text()),
            Value::SRational(r) => Some(r.to_text()),
            Value::Rationals(rs) => Some(rational_list(rs)),
            Value::Ascii(s) => Some(crate::text::string_of(s.as_str())),
            Value::Utf8(s) => Some(crate::text::string_of(s.as_str())),
            Value::Undef(b) => {
                let mut s = String::new();
                push_char(&mut s, '(');
                push_decimal(&mut s, b.len() as u64);
                crate::text::push_str(&mut s, " bytes)");
                assert(s@ =~= seq!['('] + dec_digits(b@.len()) + " bytes)"@);
                Some(s)
            },
            Value::U16s(v) => {
                let w = widen_u16(v);
                assert(w@.map_values(|x: u64| dec_digits(x as nat)) =~= v@.map_values(
                    |x: u16| dec_digits(x as nat),
                ));
                Some(unsigned_list(&w))
            },
            Value::U32s(v) => {
                let w = widen_u32(v);
                assert(w@.map_values(|x: u64| dec_digits(x as nat)) =~= v@.map_values(
                    |x: u32| dec_digits(x as nat),
                ));
                Some(unsigned_list(&w))
            },
            Value::I16s(v) => {
                let w = widen_i16(v);
                assert(w@.map_values(|x: i64| signed_dec(x as int)) =~= v@.map_values(
                    |x: i16| signed_dec(x as int),
                ));
                Some(signed_list(&w))
            },
            Value::I32s(v) => {
                let w = widen_i32(v);
                assert(w@.map_values(|x: i64| signed_dec(x as int)) =~= v@.map_values(
                    |x: i32| signed_dec(x as int),
                ));
                Some(signed_list(&w))
            },
            Value::I8s(v) => {
                let w = widen_i8(v);
                assert(w@.map_values(|x: i64| signed_dec(x as int)) =~= v@.map_values(
                    |x: i8| signed_dec(x as int),
                ));
                Some(signed_list(&w))
            },
            _ => None,
        }
    }
}

fn decimal(v: u64) -> (r: String)
    ensures
        r@ == dec_digits(v as nat),
{
    let mut s = String::new();
    push_decimal(&mut s, v);
    assert(s@ =~= dec_digits(v as nat));
    s
}

fn signed(v: i64) -> (r: String)
    ensures
        r@ == signed_dec(v as int),
{
    let mut s = String::new();
    push_signed(&mut s, v);
    assert(s@ =~= signed_dec(v as int));
    s
}

} // verus!
