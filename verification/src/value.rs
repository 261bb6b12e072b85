//! Values held by the shared containers. A double is carried as its IEEE-754
//! bit pattern; a text string and a binary string are both byte strings but
//! stay distinct kinds; an array is carried in its serialised form; a nested
//! shared object by its registry id.

use vstd::prelude::*;

verus! {

/// Abstract value.
pub enum ValueView {
    Null,
    Bool(bool),
    Long(i64),
    Double(u64),
    Str(Seq<u8>),
    Bytes(Seq<u8>),
    Array(Seq<u8>),
    Shared(u64),
}

#[derive(Clone, Debug)]
pub enum SharedValue {
    Null,
    Bool(bool),
    Long(i64),
    Double(u64),
    Str(Vec<u8>),
    Bytes(Vec<u8>),
    Array(Vec<u8>),
    Shared(u64),
}

impl View for SharedValue {
    type V = ValueView;

    open spec fn view(&self) -> ValueView {
        match self {
            SharedValue::Null => ValueView::Null,
            SharedValue::Bool(b) => ValueView::Bool(*b),
            SharedValue::Long(i) => ValueView::Long(*i),
            SharedValue::Double(d) => ValueView::Double(*d),
            SharedValue::Str(s) => ValueView::Str(s@),
            SharedValue::Bytes(b) => ValueView::Bytes(b@),
            SharedValue::Array(a) => ValueView::Array(a@),
            SharedValue::Shared(id) => ValueView::Shared(*id),
        }
    }
}

fn copy_bytes(v: &Vec<u8>) -> (r: Vec<u8>)
    ensures
        r@ == v@,
{
    let r = v.clone();
    assert(r@ =~= v@);
    r
}

impl SharedValue {
    /// A copy with the same abstract value.
    pub fn duplicate(&self) -> (r: SharedValue)
        ensures
            r@ == self@,
    {
        match self {
            SharedValue::Null => SharedValue::Null,
            SharedValue::Bool(b) => SharedValue::Bool(*b),
            SharedValue::Long(i) => SharedValue::Long(*i),
            SharedValue::Double(d) => SharedValue::Double(*d),
            SharedValue::Str(s) => SharedValue::Str(copy_bytes(s)),
            SharedValue::Bytes(b) => SharedValue::Bytes(copy_bytes(b)),
            SharedValue::Array(a) => SharedValue::Array(copy_bytes(a)),
            SharedValue::Shared(id) => SharedValue::Shared(*id),
        }
    }

    pub fn is_null(&self) -> (r: bool)
        ensures
            r == (self@ is Null),
    {
        match self {
            SharedValue::Null => true,
            _ => false,
        }
    }
}

/// A double's bit pattern is a NaN.
pub open spec fn is_nan_bits(x: u64) -> bool {
    (x & 0x7ff0_0000_0000_0000u64) == 0x7ff0_0000_0000_0000u64 && (x & 0x000f_ffff_ffff_ffffu64) != 0
}

/// A double's bit pattern is +0.0 or -0.0.
pub open spec fn is_zero_bits(x: u64) -> bool {
    (x & 0x7fff_ffff_ffff_ffffu64) == 0
}

/// IEEE-754 equality of two doubles given by their bit patterns: NaN equals
/// nothing, the two zeros are equal, otherwise the bits must match.
pub open spec fn double_eq_bits(a: u64, b: u64) -> bool {
    !is_nan_bits(a) && !is_nan_bits(b) && (a == b || (is_zero_bits(a) && is_zero_bits(b)))
}

/// Content equality: scalars by value (doubles by IEEE equality), nested
/// shared objects by registry id, strings, binary strings and arrays by their
/// bytes; values of different kinds (a text and a binary string too) are
/// never equal.
pub open spec fn content_eq(a: ValueView, b: ValueView) -> bool {
    match (a, b) {
        (ValueView::Null, ValueView::Null) => true,
        (ValueView::Bool(x), ValueView::Bool(y)) => x == y,
        (ValueView::Long(x), ValueView::Long(y)) => x == y,
        (ValueView::Double(x), ValueView::Double(y)) => double_eq_bits(x, y),
        (ValueView::Shared(x), ValueView::Shared(y)) => x == y,
        (ValueView::Str(x), ValueView::Str(y)) => x == y,
        (ValueView::Bytes(x), ValueView::Bytes(y)) => x == y,
        (ValueView::Array(x), ValueView::Array(y)) => x == y,
        _ => false,
    }
}

fn double_eq(a: u64, b: u64) -> (r: bool)
    ensures
        r == double_eq_bits(a, b),
{
    let a_nan = (a & 0x7ff0_0000_0000_0000u64) == 0x7ff0_0000_0000_0000u64
        && (a & 0x000f_ffff_ffff_ffffu64) != 0;
    let b_nan = (b & 0x7ff0_0000_0000_0000u64) == 0x7ff0_0000_0000_0000u64
        && (b & 0x000f_ffff_ffff_ffffu64) != 0;
    let a_zero = (a & 0x7fff_ffff_ffff_ffffu64) == 0;
    let b_zero = (b & 0x7fff_ffff_ffff_ffffu64) == 0;
    !a_nan && !b_nan && (a == b || (a_zero && b_zero))
}

pub fn sv_content_eq(a: &SharedValue, b: &SharedValue) -> (r: bool)
    ensures
        r == content_eq(a@, b@),
{
    match (a, b) {
        (SharedValue::Null, SharedValue::Null) => true,
        (SharedValue::Bool(x), SharedValue::Bool(y)) => *x == *y,
        (SharedValue::Long(x), SharedValue::Long(y)) => *x == *y,
        (SharedValue::Double(x), SharedValue::Double(y)) => double_eq(*x, *y),
        (SharedValue::Shared(x), SharedValue::Shared(y)) => *x == *y,
        (SharedValue::Str(x), SharedValue::Str(y)) => crate::map_key::bytes_equal(x.as_slice(), y.as_slice()),
        (SharedValue::Bytes(x), SharedValue::Bytes(y)) => crate::map_key::bytes_equal(x.as_slice(), y.as_slice()),
        (SharedValue::Array(x), SharedValue::Array(y)) => crate::map_key::bytes_equal(x.as_slice(), y.as_slice()),
        _ => false,
    }
}

} // verus!
