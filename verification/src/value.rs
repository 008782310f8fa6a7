//! The values that records hold and that filters compare against.

use vstd::prelude::*;
use crate::text::{
    bytes_equal, bytes_less, bytes_lt, folded_chars, lowercase, text_equal, text_less, text_lt,
};

verus! {

/// A value of a record or a literal of a filter.
///
/// A real number is held as the integer that stands at its place in numeric
/// order: two reals compare as their keys do.
#[derive(Debug, PartialEq)]
pub enum IsarValue {
    Null,
    Bool(bool),
    Integer(i64),
    Real(i64),
    String(String),
    Bytes(Vec<u8>),
}

/// What a value is to the comparison rules. `Composite` stands for an embedded
/// object or a nested structure: present, and comparable with nothing.
pub ghost enum Value {
    Null,
    Bool(bool),
    Integer(int),
    Real(int),
    Text(Seq<char>),
    Bytes(Seq<u8>),
    Composite,
}

impl View for IsarValue {
    type V = Value;

    open spec fn view(&self) -> Value {
        match self {
            IsarValue::Null => Value::Null,
            IsarValue::Bool(b) => Value::Bool(*b),
            IsarValue::Integer(i) => Value::Integer(*i as int),
            IsarValue::Real(k) => Value::Real(*k as int),
            IsarValue::String(s) => Value::Text(s@),
            IsarValue::Bytes(b) => Value::Bytes(b@),
        }
    }
}

/// A literal of a filter: `None` is the null literal, or, as a bound of a
/// range, the open side.
pub open spec fn literal(o: Option<IsarValue>) -> Option<Value> {
    match o {
        None => None,
        Some(v) => Some(v@),
    }
}

/// The value that a literal is compared as: the null literal is null.
pub open spec fn bound(l: Option<Value>) -> Value {
    match l {
        None => Value::Null,
        Some(v) => v,
    }
}

/// A value with its text in lowercase where `fold` is set; other values are
/// left as they are.
pub open spec fn folded(v: Value, fold: bool) -> Value {
    match v {
        Value::Text(s) => if fold {
            Value::Text(lowercase(s))
        } else {
            v
        },
        _ => v,
    }
}

/// A literal folded as `folded` folds a value.
pub open spec fn folded_literal(l: Option<Value>, fold: bool) -> Option<Value> {
    match l {
        None => None,
        Some(v) => Some(folded(v, fold)),
    }
}

/// Strict order. Null comes before every other value; two values of one kind
/// compare within it; values of two kinds do not compare.
pub open spec fn value_lt(a: Value, b: Value) -> bool {
    match (a, b) {
        (Value::Null, _) => !(b is Null),
        (Value::Bool(x), Value::Bool(y)) => !x && y,
        (Value::Integer(x), Value::Integer(y)) => x < y,
        (Value::Real(x), Value::Real(y)) => x < y,
        (Value::Text(x), Value::Text(y)) => text_lt(x, y),
        (Value::Bytes(x), Value::Bytes(y)) => bytes_lt(x, y),
        _ => false,
    }
}

/// Order or equality.
pub open spec fn value_le(a: Value, b: Value) -> bool {
    a == b || value_lt(a, b)
}

/// A copy of a byte string.
pub fn copy_bytes(bytes: &Vec<u8>) -> (r: Vec<u8>)
    ensures
        r@ == bytes@,
{
    let mut out: Vec<u8> = Vec::new();
    let mut i: usize = 0;
    while i < bytes.len()
        invariant
            i <= bytes.len(),
            out@ == bytes@.take(i as int),
        decreases bytes.len() - i,
    {
        out.push(bytes[i]);
        i += 1;
        assert(out@ =~= bytes@.take(i as int));
    }
    assert(bytes@.take(bytes.len() as int) =~= bytes@);
    out
}

impl Clone for IsarValue {
    /// A copy that is the same value.
    fn clone(&self) -> (r: Self)
        ensures
            r@ == self@,
    {
        match self {
            IsarValue::Null => IsarValue::Null,
            IsarValue::Bool(b) => IsarValue::Bool(*b),
            IsarValue::Integer(i) => IsarValue::Integer(*i),
            IsarValue::Real(k) => IsarValue::Real(*k),
            IsarValue::String(s) => IsarValue::String(s.clone()),
            IsarValue::Bytes(b) => IsarValue::Bytes(copy_bytes(b)),
        }
    }
}

impl IsarValue {
    /// Whether `self` and `other` are the same value, each with its text in
    /// lowercase where its flag is set.
    pub fn equals(&self, fold: bool, other: &IsarValue, fold_other: bool) -> (r: bool)
        ensures
            r == (folded(self@, fold) == folded(other@, fold_other)),
    {
        match (self, other) {
            (IsarValue::Null, IsarValue::Null) => true,
            (IsarValue::Bool(x), IsarValue::Bool(y)) => *x == *y,
            (IsarValue::Integer(x), IsarValue::Integer(y)) => *x == *y,
            (IsarValue::Real(x), IsarValue::Real(y)) => *x == *y,
            (IsarValue::String(x), IsarValue::String(y)) => {
                let xs = folded_chars(x.as_str(), fold);
                let ys = folded_chars(y.as_str(), fold_other);
                text_equal(&xs, &ys)
            },
            (IsarValue::Bytes(x), IsarValue::Bytes(y)) => bytes_equal(x, y),
            _ => false,
        }
    }

    /// Whether `self` comes strictly before `other`, each with its text in
    /// lowercase where its flag is set.
    pub fn less(&self, fold: bool, other: &IsarValue, fold_other: bool) -> (r: bool)
        ensures
            r == value_lt(folded(self@, fold), folded(other@, fold_other)),
    {
        match (self, other) {
            (IsarValue::Null, IsarValue::Null) => false,
            (IsarValue::Null, _) => true,
            (IsarValue::Bool(x), IsarValue::Bool(y)) => !*x && *y,
            (IsarValue::Integer(x), IsarValue::Integer(y)) => *x < *y,
            (IsarValue::Real(x), IsarValue::Real(y)) => *x < *y,
            (IsarValue::String(x), IsarValue::String(y)) => {
                let xs = folded_chars(x.as_str(), fold);
                let ys = folded_chars(y.as_str(), fold_other);
                text_less(&xs, &ys)
            },
            (IsarValue::Bytes(x), IsarValue::Bytes(y)) => bytes_less(x, y),
            _ => false,
        }
    }

    /// The value in lowercase where it is text, unchanged where it is not.
    pub fn to_lowercase(self) -> (r: IsarValue)
        ensures
            r@ == folded(self@, true),
    {
        match self {
            IsarValue::String(s) => IsarValue::String(crate::text::to_lowercase(s.as_str())),
            other => other,
        }
    }
}

} // verus!
