//! The runtime values of the language: a tagged union over nil, booleans,
//! numbers and heap objects. A number is carried as the 64 bits of its
//! IEEE-754 double encoding (see `number`).

use vstd::prelude::*;

use crate::number::num_eq_of;
use crate::number::num_eq;
use crate::object::Object;

verus! {

#[derive(Debug)]
pub enum Value {
    Nil,
    Boolean(bool),
    Number(u64),
    Object(Object),
}

impl Clone for Value {
    fn clone(&self) -> (r: Self)
        ensures
            r == *self,
    {
        match self {
            Value::Nil => Value::Nil,
            Value::Boolean(b) => Value::Boolean(*b),
            Value::Number(n) => Value::Number(*n),
            Value::Object(o) => Value::Object(o.clone()),
        }
    }
}

/// Structural equality of two values: the same variant tag and an equal
/// payload. Numbers compare by IEEE-754 equality, so a NaN equals nothing,
/// not even itself; values of differing variants are never equal.
pub open spec fn spec_values_equal(a: Value, b: Value) -> bool {
    match (a, b) {
        (Value::Nil, Value::Nil) => true,
        (Value::Boolean(x), Value::Boolean(y)) => x == y,
        (Value::Number(x), Value::Number(y)) => num_eq_of(x, y),
        (Value::Object(Object::Str(x)), Value::Object(Object::Str(y))) => x@ == y@,
        _ => false,
    }
}

pub fn values_equal(a: &Value, b: &Value) -> (r: bool)
    ensures
        r == spec_values_equal(*a, *b),
        r == spec_values_equal(*b, *a),
{
    match (a, b) {
        (Value::Nil, Value::Nil) => true,
        (Value::Boolean(x), Value::Boolean(y)) => *x == *y,
        (Value::Number(x), Value::Number(y)) => num_eq(*x, *y),
        (Value::Object(Object::Str(x)), Value::Object(Object::Str(y))) => String::eq(x, y),
        _ => false,
    }
}

/// The language's boolean coercion: only nil and false are falsy; every
/// other value, the number zero included, is truthy.
pub open spec fn spec_falsy(v: Value) -> bool {
    v matches Value::Nil || v == Value::Boolean(false)
}

/// Whether the two values carry the same variant tag.
pub open spec fn same_variant(a: Value, b: Value) -> bool {
    match (a, b) {
        (Value::Nil, Value::Nil) => true,
        (Value::Boolean(_), Value::Boolean(_)) => true,
        (Value::Number(_), Value::Number(_)) => true,
        (Value::Object(_), Value::Object(_)) => true,
        _ => false,
    }
}

/// Equality never holds across differing variants.
pub proof fn lemma_values_equal_cross_variant(a: Value, b: Value)
    requires
        !same_variant(a, b),
    ensures
        !spec_values_equal(a, b),
{
}

/// Equality is symmetric wherever at most one side is a number. For two
/// numbers it is symmetric as well, but that rests on the symmetry of the
/// underlying IEEE-754 comparison, which the `values_equal` call itself
/// witnesses (its result equals both orders); a pure lemma cannot reach
/// that trusted fact.
pub proof fn lemma_values_equal_symmetric(a: Value, b: Value)
    requires
        !(a matches Value::Number(_) && b matches Value::Number(_)),
    ensures
        spec_values_equal(a, b) == spec_values_equal(b, a),
{
}

/// Equality is reflexive for every value that is not a number; a number
/// compares by IEEE-754 equality, under which a NaN is not equal to itself.
pub proof fn lemma_values_equal_reflexive(v: Value)
    requires
        !(v matches Value::Number(_)),
    ensures
        spec_values_equal(v, v),
{
}

pub struct ValueArray {
    pub values: Vec<Value>,
}

impl ValueArray {
    pub fn new() -> (r: ValueArray)
        ensures
            r.values@ == Seq::<Value>::empty(),
    {
        ValueArray { values: Vec::new() }
    }

    pub fn write(&mut self, value: Value)
        ensures
            final(self).values@ == old(self).values@.push(value),
    {
        self.values.push(value);
    }
}

} // verus!
