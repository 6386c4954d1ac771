//! The decoded values.

use std::collections::HashMap;
use vstd::prelude::*;

verus! {

/// A decoded value.
///
/// `Object` and `Array` are kept for nested structures; the line decoder never
/// produces them.
#[derive(Debug, PartialEq)]
pub enum Value {
    String(String),
    Integer(i64),
    /// A floating-point number, held as the literal that was read: it has the
    /// grammar that `f64`'s `FromStr` accepts.
    Float(String),
    Boolean(bool),
    Object(HashMap<String, Value>),
    Array(Vec<Value>),
}

/// The mathematical content of a scalar value.
pub enum Scalar {
    Text(Seq<char>),
    Int(int),
    Real(Seq<char>),
    Bool(bool),
}

impl Value {
    /// The scalar that this value holds; composite values hold none.
    pub open spec fn scalar(&self) -> Option<Scalar> {
        match self {
            Value::String(s) => Some(Scalar::Text(s@)),
            Value::Integer(n) => Some(Scalar::Int(*n as int)),
            Value::Float(s) => Some(Scalar::Real(s@)),
            Value::Boolean(b) => Some(Scalar::Bool(*b)),
            Value::Object(_) => None,
            Value::Array(_) => None,
        }
    }
}

/// Why a value text could not be decoded.
#[derive(Debug, Clone, Copy, PartialEq, Eq)]
pub enum CoercionFailure {
    EmptyValue,
}

} // verus!
