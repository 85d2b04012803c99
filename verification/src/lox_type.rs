//! Runtime values.
//!
//! A number is held as the bit pattern of an IEEE-754 double. Comparing,
//! negating and testing numbers is done here on the bits; arithmetic and the
//! conversion from and to decimal text are the host's.

use vstd::prelude::*;

use crate::native_function::NativeFunction;
use crate::text::{chars_of, text, text_of};

verus! {

/// The sign bit of a double.
pub const SIGN_MASK: u64 = 0x8000_0000_0000_0000;

/// The bits of a double but the sign bit.
pub const MAGNITUDE_MASK: u64 = 0x7fff_ffff_ffff_ffff;

/// The bits of positive infinity.
pub const INFINITY_BITS: u64 = 0x7ff0_0000_0000_0000;

/// The bits of a double without its sign.
pub open spec fn magnitude(bits: u64) -> u64 {
    bits & MAGNITUDE_MASK
}

/// The sign bit of a double is set.
pub open spec fn negative(bits: u64) -> bool {
    bits & SIGN_MASK != 0
}

/// The double is not a number: its magnitude lies above that of infinity.
pub open spec fn is_nan(bits: u64) -> bool {
    magnitude(bits) > INFINITY_BITS
}

/// The place of a double that is a number in the order of the doubles: its
/// magnitude, counted downwards from zero if the sign is set. Both zeros
/// have place 0.
pub open spec fn ordinal(bits: u64) -> int {
    if negative(bits) {
        -(magnitude(bits) as int)
    } else {
        magnitude(bits) as int
    }
}

/// IEEE-754 equality: both are numbers and have the same place (so the two
/// zeros are equal, and a NaN equals nothing, itself included).
pub open spec fn number_equal(a: u64, b: u64) -> bool {
    !is_nan(a) && !is_nan(b) && ordinal(a) == ordinal(b)
}

/// IEEE-754 `<`: both are numbers and the first comes first.
pub open spec fn number_less(a: u64, b: u64) -> bool {
    !is_nan(a) && !is_nan(b) && ordinal(a) < ordinal(b)
}

/// IEEE-754 negation: the sign bit is flipped.
pub open spec fn number_negated(bits: u64) -> u64 {
    bits ^ SIGN_MASK
}

/// The double with these bits is not a number.
pub fn nan(bits: u64) -> (r: bool)
    ensures
        r == is_nan(bits),
{
    bits & MAGNITUDE_MASK > INFINITY_BITS
}

/// `==` on two doubles, by their bits.
pub fn numbers_equal(a: u64, b: u64) -> (r: bool)
    ensures
        r == number_equal(a, b),
{
    if nan(a) || nan(b) {
        return false;
    }
    let ma = a & MAGNITUDE_MASK;
    let mb = b & MAGNITUDE_MASK;
    let na = a & SIGN_MASK != 0;
    let nb = b & SIGN_MASK != 0;
    if na == nb {
        ma == mb
    } else {
        ma == 0 && mb == 0
    }
}

/// `<` on two doubles, by their bits.
pub fn numbers_less(a: u64, b: u64) -> (r: bool)
    ensures
        r == number_less(a, b),
{
    if nan(a) || nan(b) {
        return false;
    }
    let ma = a & MAGNITUDE_MASK;
    let mb = b & MAGNITUDE_MASK;
    let na = a & SIGN_MASK != 0;
    let nb = b & SIGN_MASK != 0;
    if na {
        if nb {
            ma > mb
        } else {
            ma != 0 || mb != 0
        }
    } else {
        if nb {
            false
        } else {
            ma < mb
        }
    }
}

/// `-` on a double, by its bits.
pub fn negate(bits: u64) -> (r: u64)
    ensures
        r == number_negated(bits),
{
    bits ^ SIGN_MASK
}

/// A runtime value.
#[derive(Debug)]
pub enum LoxValue {
    Boolean(bool),
    /// The bits of a double.
    Number(u64),
    LoxString(String),
    Nil,
    /// A function of the program, by its index among the interpreter's
    /// function values.
    Function(usize),
    Native(NativeFunction),
}

/// The mathematical value of a [`LoxValue`].
pub enum Value {
    Boolean(bool),
    Number(u64),
    LoxString(Seq<char>),
    Nil,
    Function(usize),
    Native(NativeFunction),
}

impl View for LoxValue {
    type V = Value;

    open spec fn view(&self) -> Value {
        match *self {
            LoxValue::Boolean(b) => Value::Boolean(b),
            LoxValue::Number(n) => Value::Number(n),
            LoxValue::LoxString(s) => Value::LoxString(s@),
            LoxValue::Nil => Value::Nil,
            LoxValue::Function(f) => Value::Function(f),
            LoxValue::Native(f) => Value::Native(f),
        }
    }
}

/// Only `false` and `nil` are not truthy.
pub open spec fn truthy(v: Value) -> bool {
    match v {
        Value::Boolean(b) => b,
        Value::Nil => false,
        _ => true,
    }
}

/// Equality of values: of the same kind and equal as that kind says.
/// Numbers compare as doubles, strings by content, functions by identity;
/// `nil` equals only `nil`.
pub open spec fn values_equal(a: Value, b: Value) -> bool {
    match (a, b) {
        (Value::Boolean(x), Value::Boolean(y)) => x == y,
        (Value::Number(x), Value::Number(y)) => number_equal(x, y),
        (Value::LoxString(x), Value::LoxString(y)) => x == y,
        (Value::Nil, Value::Nil) => true,
        (Value::Function(x), Value::Function(y)) => x == y,
        (Value::Native(x), Value::Native(y)) => x == y,
        _ => false,
    }
}

/// The value is a number that is not a number.
pub open spec fn nan_value(v: Value) -> bool {
    v matches Value::Number(n) && is_nan(n)
}

/// A decimal numeral without the `.0` that some hosts put behind a whole
/// number.
pub open spec fn without_point_zero(numeral: Seq<char>) -> Seq<char> {
    let n = numeral.len() as int;
    if n > 2 && numeral[n - 2] == '.' && numeral[n - 1] == '0' {
        numeral.subrange(0, n - 2)
    } else {
        numeral
    }
}

/// The text of a number, from the decimal numeral that the host wrote for
/// it: a whole number is shown without a trailing `.0`.
pub fn stringify_double(numeral: &String) -> (r: String)
    ensures
        r@ == without_point_zero(numeral@),
{
    let chars = chars_of(numeral.as_str());
    let n = chars.len();
    if n > 2 && chars[n - 2] == '.' && chars[n - 1] == '0' {
        text_of(&chars, 0, n - 2)
    } else {
        numeral.clone()
    }
}

impl Clone for LoxValue {
    fn clone(&self) -> (r: Self)
        ensures
            r == *self,
    {
        match self {
            LoxValue::Boolean(b) => LoxValue::Boolean(*b),
            LoxValue::Number(n) => LoxValue::Number(*n),
            LoxValue::LoxString(s) => LoxValue::LoxString(s.clone()),
            LoxValue::Nil => LoxValue::Nil,
            LoxValue::Function(f) => LoxValue::Function(*f),
            LoxValue::Native(f) => LoxValue::Native(*f),
        }
    }
}

impl LoxValue {
    /// The value counts as true in a condition: every value does but `false`
    /// and `nil`.
    pub fn is_truthy(&self) -> (r: bool)
        ensures
            r == truthy(self@),
    {
        match self {
            LoxValue::Boolean(val) => *val,
            LoxValue::Nil => false,
            _ => true,
        }
    }

    /// The language's `==`.
    pub fn equals(&self, other: &LoxValue) -> (r: bool)
        ensures
            r == values_equal(self@, other@),
    {
        match (self, other) {
            (LoxValue::Boolean(x), LoxValue::Boolean(y)) => *x == *y,
            (LoxValue::Number(x), LoxValue::Number(y)) => numbers_equal(*x, *y),
            (LoxValue::LoxString(x), LoxValue::LoxString(y)) => *x == *y,
            (LoxValue::Nil, LoxValue::Nil) => true,
            (LoxValue::Function(x), LoxValue::Function(y)) => *x == *y,
            (LoxValue::Native(x), LoxValue::Native(y)) => *x == *y,
            _ => false,
        }
    }
}

/// The language's `!`: the value is not truthy.
pub fn not(value: &LoxValue) -> (r: LoxValue)
    ensures
        r@ == Value::Boolean(!truthy(value@)),
{
    LoxValue::Boolean(!value.is_truthy())
}

/// A value is truthy unless it is `false` or `nil`; so `0` and the empty
/// string are truthy.
pub proof fn lemma_truthy(v: Value)
    ensures
        truthy(v) <==> v != Value::Boolean(false) && v != Value::Nil,
{
}

/// Equality holds between a value and itself, unless it is a NaN.
pub proof fn lemma_equality_reflexive(v: Value)
    requires
        !nan_value(v),
    ensures
        values_equal(v, v),
{
}

/// A NaN equals nothing, itself included.
pub proof fn lemma_nan_equals_nothing(v: Value, w: Value)
    requires
        nan_value(v),
    ensures
        !values_equal(v, w),
        !values_equal(w, v),
{
}

/// Equality is symmetric.
pub proof fn lemma_equality_symmetric(v: Value, w: Value)
    ensures
        values_equal(v, w) == values_equal(w, v),
{
}

/// Equality is transitive.
pub proof fn lemma_equality_transitive(u: Value, v: Value, w: Value)
    requires
        values_equal(u, v),
        values_equal(v, w),
    ensures
        values_equal(u, w),
{
}

} // verus!
