//! SameValue and SameValueZero.
use vstd::prelude::*;
use crate::interp::Value;
use crate::num;

verus! {

/// SameValue: NaN is itself, and the two zeros differ.
pub open spec fn same(a: Value, b: Value) -> bool {
    match (a, b) {
        (Value::Num(x), Value::Num(y)) => x == y || (num::nan(x) && num::nan(y)),
        _ => a == b,
    }
}

/// SameValueZero: NaN is itself, and the two zeros are one.
pub open spec fn same_zero(a: Value, b: Value) -> bool {
    match (a, b) {
        (Value::Num(x), Value::Num(y)) => num::equal(x, y) || (num::nan(x) && num::nan(y)),
        _ => a == b,
    }
}

pub fn same_value(a: Value, b: Value) -> (r: bool)
    ensures
        r == same(a, b),
{
    match (a, b) {
        (Value::Num(x), Value::Num(y)) => x == y || (num::is_nan(x) && num::is_nan(y)),
        _ => a == b,
    }
}

pub fn same_value_zero(a: Value, b: Value) -> (r: bool)
    ensures
        r == same_zero(a, b),
{
    match (a, b) {
        (Value::Num(x), Value::Num(y)) => num::is_equal(x, y) || (num::is_nan(x) && num::is_nan(y)),
        _ => a == b,
    }
}

/// IsStrictlyEqual: NaN equals nothing, and the two zeros are one.
pub open spec fn strictly_same(a: Value, b: Value) -> bool {
    match (a, b) {
        (Value::Num(x), Value::Num(y)) => num::equal(x, y),
        _ => a == b,
    }
}

pub fn strict_equals(a: Value, b: Value) -> (r: bool)
    ensures
        r == strictly_same(a, b),
{
    match (a, b) {
        (Value::Num(x), Value::Num(y)) => num::is_equal(x, y),
        _ => a == b,
    }
}

/// A map key with minus zero replaced by zero.
pub open spec fn canonical_key(v: Value) -> Value {
    match v {
        Value::Num(n) => if num::zero(n) {
            Value::Num(0)
        } else {
            v
        },
        _ => v,
    }
}

/// Map and Set keys treat minus zero as zero.
pub fn canonicalize_map_key(v: Value) -> (r: Value)
    ensures
        r == canonical_key(v),
{
    match v {
        Value::Num(n) => if num::is_zero(n) {
            Value::Num(0)
        } else {
            v
        },
        _ => v,
    }
}

/// SameValue is an equivalence.
pub proof fn law_same_value_is_equivalence(a: Value, b: Value, c: Value)
    ensures
        same(a, a),
        same(a, b) == same(b, a),
        same(a, b) && same(b, c) ==> same(a, c),
{
}

/// SameValueZero is an equivalence, coarser than SameValue.
pub proof fn law_same_value_zero_is_equivalence(a: Value, b: Value, c: Value)
    ensures
        same_zero(a, a),
        same_zero(a, b) == same_zero(b, a),
        same_zero(a, b) && same_zero(b, c) ==> same_zero(a, c),
        same(a, b) ==> same_zero(a, b),
{
}

/// On canonical keys both are one relation.
pub proof fn law_canonical_keys_agree(a: Value, b: Value)
    ensures
        same_zero(a, b) == same(canonical_key(a), canonical_key(b)),
        same_zero(a, canonical_key(a)),
{
}

} // verus!
