//! Which values are equal, and which count as true.
use vstd::prelude::*;
use crate::equality::{canonical_key, same, same_zero, strictly_same};
use crate::interp::{Value, World};
use crate::num;

verus! {

/// The bits of minus zero.
pub const MINUS_ZERO: u64 = 0x8000_0000_0000_0000;

/// The values that count as false are undefined, null, false, both zeros, NaN, the BigInt zero and
/// the empty text; all others count as true.
pub proof fn law_what_counts_as_true(w: World, v: Value)
    ensures
        w.truthy(v) == !({
            ||| v == Value::Undefined
            ||| v == Value::Null
            ||| v == Value::Bool(false)
            ||| v == Value::Num(0)
            ||| v == Value::Num(MINUS_ZERO)
            ||| v is Num && num::nan(v->Num_0)
            ||| v == Value::BigInt(0)
            ||| v is Str && w.units(v->Str_0) == Seq::<u16>::empty()
        }),
{
    if let Value::Str(s) = v {
        if w.units(s).len() == 0 {
            assert(w.units(s) =~= Seq::empty());
        }
    }
}

/// NaN equals itself but for `===`, and the two zeros are one but for `Object.is`; other than that
/// the three relations hold between a value and itself alone.
pub proof fn law_equalities_differ_on_nan_and_zero(a: Value, b: Value)
    ensures
        a is Num && num::nan(a->Num_0) ==> same(a, a) && same_zero(a, a) && !strictly_same(a, a),
        same_zero(Value::Num(0), Value::Num(MINUS_ZERO)),
        strictly_same(Value::Num(0), Value::Num(MINUS_ZERO)),
        !same(Value::Num(0), Value::Num(MINUS_ZERO)),
        !(a is Num && b is Num) ==> same(a, b) == (a == b) && same_zero(a, b) == (a == b)
            && strictly_same(a, b) == (a == b),
        a is Num && b is Num && !num::nan(a->Num_0) && !num::nan(b->Num_0) && !num::zero(a->Num_0)
            ==> same(a, b) == (a == b) && same_zero(a, b) == (a == b) && strictly_same(a, b) == (a
            == b),
        canonical_key(Value::Num(MINUS_ZERO)) == Value::Num(0),
        a != Value::Num(MINUS_ZERO) ==> canonical_key(a) == a,
{
    assert(num::nan(0x7ff8_0000_0000_0000));
}

} // verus!
