//! Runtime values.
//!
//! A number is an IEEE 754 double, held as its 64 bits. What can be decided on
//! the bits is decided here: sign, order, equality. Arithmetic and the
//! conversions between doubles and text are left to the host of the machine
//! (see [`crate::runner`]).

use vstd::prelude::*;

verus! {

/// A runtime value.
#[derive(Clone, Debug, PartialEq, Eq)]
pub enum Value {
    /// A double, by its bits.
    Number(u64),
    Boolean(bool),
    String(String),
    Nil,
}

/// What [`Value`] stands for in contracts.
pub enum ValueView {
    Number(u64),
    Boolean(bool),
    String(Seq<char>),
    Nil,
}

impl View for Value {
    type V = ValueView;

    open spec fn view(&self) -> ValueView {
        match self {
            Value::Number(bits) => ValueView::Number(*bits),
            Value::Boolean(b) => ValueView::Boolean(*b),
            Value::String(s) => ValueView::String(s@),
            Value::Nil => ValueView::Nil,
        }
    }
}

/// The bits of a double without its sign.
pub open spec fn magnitude(bits: u64) -> u64 {
    bits & 0x7fff_ffff_ffff_ffff
}

/// Whether the sign bit of a double is set.
pub open spec fn negative(bits: u64) -> bool {
    bits & 0x8000_0000_0000_0000 != 0
}

/// Whether the bits are those of a NaN: all exponent bits set, and a
/// fraction that is not zero.
pub open spec fn is_nan(bits: u64) -> bool {
    magnitude(bits) > 0x7ff0_0000_0000_0000
}

/// An integer that orders the doubles other than NaN as their values are
/// ordered. The two zeros have the same rank.
pub open spec fn rank(bits: u64) -> int {
    if negative(bits) {
        -(magnitude(bits) as int)
    } else {
        magnitude(bits) as int
    }
}

/// `a == b` on doubles: no NaN equals anything, the two zeros are equal.
pub open spec fn number_equal(a: u64, b: u64) -> bool {
    !is_nan(a) && !is_nan(b) && rank(a) == rank(b)
}

/// `a < b` on doubles: no NaN is less or greater than anything.
pub open spec fn number_less(a: u64, b: u64) -> bool {
    !is_nan(a) && !is_nan(b) && rank(a) < rank(b)
}

/// `a <= b` on doubles.
pub open spec fn number_at_most(a: u64, b: u64) -> bool {
    !is_nan(a) && !is_nan(b) && rank(a) <= rank(b)
}

/// `-a` on doubles: the same bits, the sign flipped.
pub open spec fn number_negated(a: u64) -> u64 {
    a ^ 0x8000_0000_0000_0000
}

/// Truthiness: `nil` and `false` are falsy, every other value is truthy.
pub open spec fn truthy(v: ValueView) -> bool {
    match v {
        ValueView::Nil => false,
        ValueView::Boolean(b) => b,
        _ => true,
    }
}

/// Equality of values: values of different kinds are never equal; numbers
/// are compared as doubles, strings by their characters.
pub open spec fn values_equal(a: ValueView, b: ValueView) -> bool {
    match (a, b) {
        (ValueView::Number(x), ValueView::Number(y)) => number_equal(x, y),
        (ValueView::Boolean(x), ValueView::Boolean(y)) => x == y,
        (ValueView::String(x), ValueView::String(y)) => x == y,
        (ValueView::Nil, ValueView::Nil) => true,
        _ => false,
    }
}

/// Whether two values are of the same kind.
pub open spec fn same_kind(a: ValueView, b: ValueView) -> bool {
    match (a, b) {
        (ValueView::Number(_), ValueView::Number(_)) => true,
        (ValueView::Boolean(_), ValueView::Boolean(_)) => true,
        (ValueView::String(_), ValueView::String(_)) => true,
        (ValueView::Nil, ValueView::Nil) => true,
        _ => false,
    }
}

/// Equality honors the kind of a value: values of different kinds are not
/// equal, whatever they hold, and `nil` equals `nil`.
pub proof fn lemma_equality_honors_kinds(a: ValueView, b: ValueView)
    ensures
        !same_kind(a, b) ==> !values_equal(a, b),
        values_equal(ValueView::Nil, ValueView::Nil),
        values_equal(a, b) == values_equal(b, a),
{
}

/// How a value other than a number is written by `print`.
pub open spec fn plain_text(v: ValueView) -> Seq<char> {
    match v {
        ValueView::Boolean(true) => "true"@,
        ValueView::Boolean(false) => "false"@,
        ValueView::String(s) => s,
        _ => "nil"@,
    }
}

/// Whether the bits are those of a NaN.
pub fn nan(bits: u64) -> (r: bool)
    ensures
        r == is_nan(bits),
{
    bits & 0x7fff_ffff_ffff_ffff > 0x7ff0_0000_0000_0000
}

/// The rank of a double: see [`rank`].
pub fn rank_of(bits: u64) -> (r: i128)
    ensures
        r == rank(bits),
{
    let m: u64 = bits & 0x7fff_ffff_ffff_ffff;
    if bits & 0x8000_0000_0000_0000 != 0 {
        -(m as i128)
    } else {
        m as i128
    }
}

/// `a == b` on doubles.
pub fn numbers_equal(a: u64, b: u64) -> (r: bool)
    ensures
        r == number_equal(a, b),
{
    !nan(a) && !nan(b) && rank_of(a) == rank_of(b)
}

/// `a < b` on doubles.
pub fn numbers_less(a: u64, b: u64) -> (r: bool)
    ensures
        r == number_less(a, b),
{
    !nan(a) && !nan(b) && rank_of(a) < rank_of(b)
}

/// `a <= b` on doubles.
pub fn numbers_at_most(a: u64, b: u64) -> (r: bool)
    ensures
        r == number_at_most(a, b),
{
    !nan(a) && !nan(b) && rank_of(a) <= rank_of(b)
}

/// `-a` on doubles.
pub fn negated(a: u64) -> (r: u64)
    ensures
        r == number_negated(a),
{
    a ^ 0x8000_0000_0000_0000
}

impl Value {
    /// An equal value.
    pub fn duplicate(&self) -> (r: Value)
        ensures
            r@ == self@,
    {
        match self {
            Value::Number(bits) => Value::Number(*bits),
            Value::Boolean(b) => Value::Boolean(*b),
            Value::String(s) => Value::String(s.clone()),
            Value::Nil => Value::Nil,
        }
    }

    /// Whether the value counts as true in a condition.
    pub fn is_truthy(&self) -> (r: bool)
        ensures
            r == truthy(self@),
    {
        match self {
            Value::Nil => false,
            Value::Boolean(b) => *b,
            _ => true,
        }
    }

    /// Whether the two values are equal, as `==` of the language has it.
    pub fn equals(&self, other: &Value) -> (r: bool)
        ensures
            r == values_equal(self@, other@),
            !same_kind(self@, other@) ==> !r,
    {
        match (self, other) {
            (Value::Number(x), Value::Number(y)) => numbers_equal(*x, *y),
            (Value::Boolean(x), Value::Boolean(y)) => *x == *y,
            (Value::String(x), Value::String(y)) => x.as_str().eq(y.as_str()),
            (Value::Nil, Value::Nil) => true,
            _ => false,
        }
    }

    /// How `print` writes the value, for every value but a number, whose
    /// text only the host can make.
    pub fn text(&self) -> (r: Option<String>)
        ensures
            self@ is Number ==> r.is_none(),
            !(self@ is Number) ==> r.is_some() && r.unwrap()@ == plain_text(self@),
    {
        match self {
            Value::Number(_) => None,
            _ => Some(self.plain()),
        }
    }

    /// How `print` writes a value that is no number.
    pub(crate) fn plain(&self) -> (r: String)
        requires
            !(self@ is Number),
        ensures
            r@ == plain_text(self@),
    {
        match self {
            Value::Boolean(true) => String::from_str("true"),
            Value::Boolean(false) => String::from_str("false"),
            Value::String(s) => s.clone(),
            _ => String::from_str("nil"),
        }
    }
}

} // verus!
