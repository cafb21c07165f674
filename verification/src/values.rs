//! Typed values carried by ADS log entries (arguments and context variables).

use vstd::prelude::*;

verus! {

/// A value as the PLC sends it.
///
/// Integers are kept as JSON keeps them: a non-negative integer is always
/// `UInt`, `Int` only ever holds a negative one. Floating-point values keep
/// their IEEE-754 bit pattern (`Real` for 32-bit, `LReal` for 64-bit) and are
/// always finite; a non-finite one is read as `Null`.
#[derive(Debug, Clone, PartialEq)]
pub enum AdsValue {
    Null,
    Bool(bool),
    UInt(u64),
    Int(i64),
    Real(u32),
    LReal(u64),
    Text(String),
}

/// The abstract form of an `AdsValue`: text as a character sequence.
pub enum AdsValueModel {
    Null,
    Bool(bool),
    UInt(u64),
    Int(i64),
    Real(u32),
    LReal(u64),
    Text(Seq<char>),
}

impl View for AdsValue {
    type V = AdsValueModel;

    open spec fn view(&self) -> AdsValueModel {
        match self {
            AdsValue::Null => AdsValueModel::Null,
            AdsValue::Bool(b) => AdsValueModel::Bool(*b),
            AdsValue::UInt(u) => AdsValueModel::UInt(*u),
            AdsValue::Int(i) => AdsValueModel::Int(*i),
            AdsValue::Real(b) => AdsValueModel::Real(*b),
            AdsValue::LReal(b) => AdsValueModel::LReal(*b),
            AdsValue::Text(s) => AdsValueModel::Text(s@),
        }
    }
}

/// The value of an integer `i` (which fits in an `i64` or a `u64`):
/// `UInt` when non-negative, `Int` when negative.
pub open spec fn integer_value(i: int) -> AdsValueModel {
    if i < 0 {
        AdsValueModel::Int(i as i64)
    } else {
        AdsValueModel::UInt(i as u64)
    }
}

/// Whether the bits of an IEEE-754 single are a finite number.
pub open spec fn f32_bits_finite(bits: u32) -> bool {
    bits & 0x7f80_0000u32 != 0x7f80_0000u32
}

/// Whether the bits of an IEEE-754 double are a finite number.
pub open spec fn f64_bits_finite(bits: u64) -> bool {
    bits & 0x7ff0_0000_0000_0000u64 != 0x7ff0_0000_0000_0000u64
}

impl AdsValue {
    /// The value of a signed integer.
    pub fn from_i64(i: i64) -> (v: AdsValue)
        ensures
            v@ == integer_value(i as int),
    {
        if i < 0 {
            AdsValue::Int(i)
        } else {
            AdsValue::UInt(i as u64)
        }
    }

    /// Whether this is a number (integer or floating point).
    pub fn is_number(&self) -> (b: bool)
        ensures
            b <==> (self is UInt || self is Int || self is Real || self is LReal),
    {
        match self {
            AdsValue::UInt(_) | AdsValue::Int(_) | AdsValue::Real(_) | AdsValue::LReal(_) => true,
            _ => false,
        }
    }

    /// Whether this is text.
    pub fn is_string(&self) -> (b: bool)
        ensures
            b <==> self is Text,
    {
        match self {
            AdsValue::Text(_) => true,
            _ => false,
        }
    }

    /// Whether this is a boolean.
    pub fn is_boolean(&self) -> (b: bool)
        ensures
            b <==> self is Bool,
    {
        match self {
            AdsValue::Bool(_) => true,
            _ => false,
        }
    }

    /// Whether this is the null value.
    pub fn is_null(&self) -> (b: bool)
        ensures
            b <==> self is Null,
    {
        match self {
            AdsValue::Null => true,
            _ => false,
        }
    }
}

} // verus!
