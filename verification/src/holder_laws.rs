//! What weak references, registries and typed arrays answer.
use vstd::prelude::*;
use crate::feeds::counter;
use crate::interp::{Answer, Brand, Op, Value, World};
use crate::num;
use crate::trace::question;
use crate::typed_arrays::{measured, receiver_shape, TypedShape};
use crate::weak_refs::{dereferenced, registration, unregistration};

verus! {

/// `deref` gives the target of a weak reference, and keeps it alive; undefined once it is gone.
pub proof fn law_deref_gives_the_target(w: World, this: Value, target: Value)
    requires
        this.object(),
        w.asked.len() + 2 < w.answers.len(),
        w.answers[w.asked.len() as int] == Answer::Value(Value::Bool(true)),
        w.answers[w.asked.len() + 1int] == Answer::Value(target),
    ensures
        ({
            let (w1, r) = dereferenced(w, this);
            let asked = w.asked.push(
                question(Op::HasBrand(this, Brand::WeakRefData), Seq::empty()),
            ).push(question(Op::WeakTarget(this), Seq::empty()));
            &&& r == Ok::<Value, Value>(target)
            &&& target != Value::Undefined ==> w1.asked == asked.push(
                question(Op::KeepAlive(target), Seq::empty()),
            )
            &&& target == Value::Undefined ==> w1.asked == asked
        }),
{
}

/// A registration keeps the target, the held value and the token, in these roles; a target that is the
/// held value itself is refused.
pub proof fn law_registrations_keep_their_parts(
    w: World,
    this: Value,
    target: Value,
    held: Value,
    token: Value,
)
    requires
        this.object(),
        target.object(),
        token.object() || token == Value::Undefined,
        w.asked.len() < w.answers.len(),
        w.answers[w.asked.len() as int] == Answer::Value(Value::Bool(true)),
    ensures
        ({
            let r = registration(w, this, seq![target, held, token]).1;
            &&& target != held ==> r is Ok && r->Ok_0.target == target && r->Ok_0.held == held
                && r->Ok_0.token == token
            &&& target == held ==> r is Err
            &&& token.object() ==> unregistration(w, this, seq![token]).1 == Ok::<Value, Value>(token)
        }),
{
    let args = seq![target, held, token];
    assert(args[0] == target && args[1] == held && args[2] == token);
    assert(seq![token][0] == token);
}

/// What is measured of a typed array goes by its length in elements, the size of an element and its
/// offset, as they are listed in this order; without a length it is out of bounds.
pub proof fn law_typed_arrays_are_measured(
    w: World,
    this: Value,
    length: Option<int>,
    size: int,
    offset: int,
    f: spec_fn(TypedShape) -> int,
)
    requires
        this.object(),
        0 <= size <= num::MAX_SAFE,
        0 <= offset <= num::MAX_SAFE,
        length matches Some(n) ==> 0 <= n <= num::MAX_SAFE,
        w.asked.len() + 1 < w.answers.len(),
        w.answers[w.asked.len() as int] == Answer::Value(Value::Bool(true)),
        w.answers[w.asked.len() + 1int] == Answer::List(
            seq![
                match length {
                    Some(n) => counter(n),
                    None => Value::Undefined,
                },
                counter(size),
                counter(offset),
            ],
        ),
    ensures
        ({
            let s = TypedShape {
                length: match length {
                    Some(n) => Some(n as u64),
                    None => None,
                },
                element_size: size as u64,
                offset: offset as u64,
            };
            &&& receiver_shape(w, this).1 == Ok::<TypedShape, Value>(s)
            &&& 0 <= f(s) <= num::COUNT_LIMIT ==> measured(w, this, f).1 == Ok::<Value, Value>(
                counter(f(s)),
            )
        }),
{
    num::law_numbers_hold_their_integer(size);
    num::law_numbers_hold_their_integer(offset);
    if let Some(n) = length {
        num::law_numbers_hold_their_integer(n);
    }
}

} // verus!
