//! The JSON value model: numbers and values.
use crate::array::Array;
use crate::object::Object;
use vstd::prelude::*;

verus! {

/// Bits of an IEEE 754 binary64 number that hold the biased exponent.
pub const EXPONENT_MASK: u64 = 0x7ff0_0000_0000_0000u64;

/// Bits of an IEEE 754 binary64 number that hold the fraction.
pub const FRACTION_MASK: u64 = 0x000f_ffff_ffff_ffffu64;

/// Bits of an IEEE 754 binary64 number that hold everything but the sign.
pub const MAGNITUDE_MASK: u64 = 0x7fff_ffff_ffff_ffffu64;

/// The binary64 number with these bits is not a number (NaN).
pub open spec fn decimal_is_nan(bits: u64) -> bool {
    &&& bits & EXPONENT_MASK == EXPONENT_MASK
    &&& bits & FRACTION_MASK != 0
}

/// The binary64 number with these bits is neither infinite nor NaN.
pub open spec fn decimal_is_finite(bits: u64) -> bool {
    bits & EXPONENT_MASK != EXPONENT_MASK
}

/// The binary64 number with these bits is `0.0` or `-0.0`.
pub open spec fn decimal_is_zero(bits: u64) -> bool {
    bits & MAGNITUDE_MASK == 0
}

/// IEEE 754 equality of two binary64 numbers given by their bits: NaN equals nothing,
/// the two zeros are equal, and otherwise equal numbers have equal bits.
pub open spec fn decimal_eq(a: u64, b: u64) -> bool {
    &&& !decimal_is_nan(a)
    &&& !decimal_is_nan(b)
    &&& (a == b || (decimal_is_zero(a) && decimal_is_zero(b)))
}

/// Tells whether a binary64 number, given by its bits, is finite.
pub fn is_finite_decimal(bits: u64) -> (r: bool)
    ensures
        r == decimal_is_finite(bits),
{
    bits & EXPONENT_MASK != EXPONENT_MASK
}

/// A JSON number. A decimal is held as the bit pattern of an IEEE 754 binary64 number
/// (what `f64::to_bits` gives).
#[derive(Clone, Copy, Debug, Hash)]
pub enum Number {
    Decimal(u64),
    Integer(i128),
}

/// Equality of numbers: decimals compare as binary64 numbers, integers as integers, and a
/// decimal never equals an integer.
pub open spec fn number_eq(a: Number, b: Number) -> bool {
    match (a, b) {
        (Number::Decimal(x), Number::Decimal(y)) => decimal_eq(x, y),
        (Number::Integer(x), Number::Integer(y)) => x == y,
        _ => false,
    }
}

impl PartialEq for Number {
    fn eq(&self, other: &Self) -> (r: bool) {
        match (self, other) {
            (Number::Decimal(x), Number::Decimal(y)) => {
                let x_nan = *x & EXPONENT_MASK == EXPONENT_MASK && *x & FRACTION_MASK != 0;
                let y_nan = *y & EXPONENT_MASK == EXPONENT_MASK && *y & FRACTION_MASK != 0;
                let zeros = *x & MAGNITUDE_MASK == 0 && *y & MAGNITUDE_MASK == 0;
                !x_nan && !y_nan && (*x == *y || zeros)
            },
            (Number::Integer(x), Number::Integer(y)) => *x == *y,
            _ => false,
        }
    }
}

impl vstd::std_specs::cmp::PartialEqSpecImpl for Number {
    open spec fn obeys_eq_spec() -> bool {
        true
    }

    open spec fn eq_spec(&self, other: &Number) -> bool {
        number_eq(*self, *other)
    }
}

impl Eq for Number {

}

impl Number {
    /// The bits of the decimal, or `None` for an integer.
    pub fn as_decimal(&self) -> (r: Option<u64>)
        ensures
            r == (match *self {
                Number::Decimal(b) => Some(b),
                Number::Integer(_) => None::<u64>,
            }),
    {
        match self {
            Number::Decimal(v) => Some(*v),
            Number::Integer(_) => None,
        }
    }

    /// The integer, or `None` for a decimal.
    pub fn as_integer(&self) -> (r: Option<i128>)
        ensures
            r == (match *self {
                Number::Decimal(_) => None::<i128>,
                Number::Integer(i) => Some(i),
            }),
    {
        match self {
            Number::Decimal(_) => None,
            Number::Integer(v) => Some(*v),
        }
    }

    pub fn is_decimal(&self) -> (r: bool)
        ensures
            r == (*self is Decimal),
    {
        matches!(self, Number::Decimal(_))
    }

    pub fn is_integer(&self) -> (r: bool)
        ensures
            r == (*self is Integer),
    {
        matches!(self, Number::Integer(_))
    }
}

/// The array that the value is, if it is one.
pub open spec fn value_as_array(v: Value) -> Option<Array> {
    match v {
        Value::Array(a) => Some(a),
        _ => None,
    }
}

/// The Boolean that the value is, if it is one.
pub open spec fn value_as_bool(v: Value) -> Option<bool> {
    match v {
        Value::Bool(b) => Some(b),
        _ => None,
    }
}

/// The bits of the decimal number that the value is, if it is one.
pub open spec fn value_as_decimal(v: Value) -> Option<u64> {
    match v {
        Value::Number(Number::Decimal(b)) => Some(b),
        _ => None,
    }
}

/// The integer that the value is, if it is one.
pub open spec fn value_as_integer(v: Value) -> Option<i128> {
    match v {
        Value::Number(Number::Integer(i)) => Some(i),
        _ => None,
    }
}

/// The number that the value is, if it is one.
pub open spec fn value_as_number(v: Value) -> Option<Number> {
    match v {
        Value::Number(n) => Some(n),
        _ => None,
    }
}

/// The object that the value is, if it is one.
pub open spec fn value_as_object(v: Value) -> Option<Object> {
    match v {
        Value::Object(o) => Some(o),
        _ => None,
    }
}

/// The string that the value is, if it is one.
pub open spec fn value_as_string(v: Value) -> Option<String> {
    match v {
        Value::String(s) => Some(s),
        _ => None,
    }
}

/// The value is a JSON string with exactly these characters.
pub open spec fn is_string_of(v: Value, s: Seq<char>) -> bool {
    v matches Value::String(t) && t@ == s
}

/// A JSON value.
#[derive(Clone, Debug, PartialEq, Eq)]
pub enum Value {
    Array(Array),
    Bool(bool),
    Null,
    Number(Number),
    Object(Object),
    String(String),
}

impl Value {
    /// A copy of the value; arrays and objects share their persistent storage.
    pub fn duplicate(&self) -> (r: Value)
        ensures
            r == *self,
    {
        match self {
            Value::Array(a) => Value::Array(a.duplicate()),
            Value::Bool(b) => Value::Bool(*b),
            Value::Null => Value::Null,
            Value::Number(n) => Value::Number(*n),
            Value::Object(o) => Value::Object(o.duplicate()),
            Value::String(s) => Value::String(s.clone()),
        }
    }

    pub fn as_array(&self) -> (r: Option<Array>)
        ensures
            r == value_as_array(*self),
    {
        match self {
            Value::Array(a) => Some(a.duplicate()),
            _ => None,
        }
    }

    pub fn as_bool(&self) -> (r: Option<bool>)
        ensures
            r == value_as_bool(*self),
    {
        match self {
            Value::Bool(b) => Some(*b),
            _ => None,
        }
    }

    /// The bits of the value if it is a decimal number.
    pub fn as_decimal(&self) -> (r: Option<u64>)
        ensures
            r == value_as_decimal(*self),
    {
        match self {
            Value::Number(n) => n.as_decimal(),
            _ => None,
        }
    }

    pub fn as_integer(&self) -> (r: Option<i128>)
        ensures
            r == value_as_integer(*self),
    {
        match self {
            Value::Number(n) => n.as_integer(),
            _ => None,
        }
    }

    pub fn as_number(&self) -> (r: Option<Number>)
        ensures
            r == value_as_number(*self),
    {
        match self {
            Value::Number(n) => Some(*n),
            _ => None,
        }
    }

    pub fn as_object(&self) -> (r: Option<Object>)
        ensures
            r == value_as_object(*self),
    {
        match self {
            Value::Object(o) => Some(o.duplicate()),
            _ => None,
        }
    }

    pub fn as_string(&self) -> (r: Option<String>)
        ensures
            r == value_as_string(*self),
    {
        match self {
            Value::String(s) => Some(s.clone()),
            _ => None,
        }
    }

    pub fn is_array(&self) -> (r: bool)
        ensures
            r == (*self is Array),
    {
        matches!(self, Value::Array(_))
    }

    pub fn is_bool(&self) -> (r: bool)
        ensures
            r == (*self is Bool),
    {
        matches!(self, Value::Bool(_))
    }

    pub fn is_decimal(&self) -> (r: bool)
        ensures
            r == (*self matches Value::Number(Number::Decimal(_))),
    {
        match self {
            Value::Number(n) => n.is_decimal(),
            _ => false,
        }
    }

    pub fn is_integer(&self) -> (r: bool)
        ensures
            r == (*self matches Value::Number(Number::Integer(_))),
    {
        match self {
            Value::Number(n) => n.is_integer(),
            _ => false,
        }
    }

    pub fn is_null(&self) -> (r: bool)
        ensures
            r == (*self is Null),
    {
        matches!(self, Value::Null)
    }

    pub fn is_number(&self) -> (r: bool)
        ensures
            r == (*self is Number),
    {
        matches!(self, Value::Number(_))
    }

    pub fn is_object(&self) -> (r: bool)
        ensures
            r == (*self is Object),
    {
        matches!(self, Value::Object(_))
    }

    /// Null, Booleans, numbers and strings are scalars.
    pub fn is_scalar(&self) -> (r: bool)
        ensures
            r == (*self is Null || *self is Bool || *self is Number || *self is String),
    {
        self.is_null() || self.is_bool() || self.is_number() || self.is_string()
    }

    pub fn is_string(&self) -> (r: bool)
        ensures
            r == (*self is String),
    {
        matches!(self, Value::String(_))
    }

    /// Arrays and objects are structures.
    pub fn is_structure(&self) -> (r: bool)
        ensures
            r == (*self is Array || *self is Object),
    {
        self.is_array() || self.is_object()
    }
}

} // verus!
