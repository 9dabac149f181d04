//! The `Iterator` constructor, `Iterator.from`, and the objects around them.
use vstd::prelude::*;
use crate::interp::{arg, arg_at, ErrorKind, Interp, Key, Op, Outcome, Value, World};
use crate::iter_helper::{flattenable, get_iterator_flattenable};
use crate::proxy::{js_get_prototype_of, lemma_prototype_left, prototype_of};
use crate::realm::{created_from, new_from_ctor, set_data, stored};

verus! {

/// SetterThatIgnoresPrototypeProperties.
pub open spec fn weirdly_set(w: World, this: Value, v: Value, key: Key) -> Outcome<Value> {
    if !this.object() {
        w.throw(ErrorKind::Type, "cannot create property on a primitive")
    } else {
        let (w, home) = w.yes(Op::IsIteratorPrototype(this));
        if home {
            w.throw(ErrorKind::Type, "cannot assign to a property of Iterator.prototype")
        } else {
            (stored(w, this, key, v), Ok(Value::Undefined))
        }
    }
}

/// SetterThatIgnoresPrototypeProperties: assigning through Iterator.prototype's accessor throws
/// when the receiver IS the prototype, else creates an own data property on the receiver.
pub fn iterator_proto_weird_set(i: &mut Interp, this: Value, v: Value, key: Key) -> (r: Result<
    Value,
    Value,
>)
    ensures
        (final(i)@, r) == weirdly_set(old(i)@, this, v, key),
{
    if !this.is_object() {
        return i.type_error("cannot create property on a primitive");
    }
    if i.ask_yes(Op::IsIteratorPrototype(this)) {
        return i.type_error("cannot assign to a property of Iterator.prototype");
    }
    set_data(i, this, key, v);
    Ok(Value::Undefined)
}

/// `Iterator` as a constructor.
pub open spec fn iterator_constructed(w: World, this: Value) -> Outcome<Value> {
    let (w, nt) = w.plain(Op::NewTarget, Seq::empty());
    if nt == Value::Undefined {
        w.throw(ErrorKind::Type, "Abstract class Iterator not directly constructable")
    } else {
        let (w, itself) = w.yes(Op::IsIteratorConstructor(nt));
        if itself {
            w.throw(ErrorKind::Type, "Abstract class Iterator not directly constructable")
        } else if this.object() {
            (w, Ok(this))
        } else {
            created_from(w, nt, "%IteratorPrototype%")
        }
    }
}

/// Abstract: NewTarget must be present and must not be %Iterator% itself. `super()` from a subclass
/// arrives with the instance already created.
pub fn iterator_constructor(i: &mut Interp, this: Value) -> (r: Result<Value, Value>)
    ensures
        (final(i)@, r) == iterator_constructed(old(i)@, this),
{
    let nt = i.perform(Op::NewTarget);
    if nt.is_undefined() {
        return i.type_error("Abstract class Iterator not directly constructable");
    }
    if i.ask_yes(Op::IsIteratorConstructor(nt)) {
        return i.type_error("Abstract class Iterator not directly constructable");
    }
    if this.is_object() {
        return Ok(this);
    }
    new_from_ctor(i, nt, "%IteratorPrototype%")
}

/// Whether `Iterator.prototype` is on the prototype chain of an object.
pub open spec fn inherits_iterator(w: World, cur: Value) -> Outcome<bool>
    decreases w.left(),
    via inherits_iterator_decreases
{
    let (w1, p) = prototype_of(w, cur);
    match p {
        Err(e) => (w1, Err(e)),
        Ok(p) => if !p.object() {
            (w1, Ok(false))
        } else {
            let (w2, home) = w1.yes(Op::IsIteratorPrototype(p));
            if home {
                (w2, Ok(true))
            } else if w2.halted() {
                (w2, Ok(false))
            } else {
                inherits_iterator(w2, p)
            }
        },
    }
}

#[via_fn]
proof fn inherits_iterator_decreases(w: World, cur: Value) {
    lemma_prototype_left(w, cur);
}

fn is_iterator_heir(i: &mut Interp, o: Value) -> (r: Result<bool, Value>)
    ensures
        (final(i)@, r) == inherits_iterator(old(i)@, o),
{
    let mut cur = o;
    loop
        invariant
            inherits_iterator(old(i)@, o) == inherits_iterator(i@, cur),
        decreases i@.left(),
    {
        proof {
            lemma_prototype_left(i@, cur);
        }
        let p = js_get_prototype_of(i, cur)?;
        if !p.is_object() {
            return Ok(false);
        }
        if i.ask_yes(Op::IsIteratorPrototype(p)) {
            return Ok(true);
        }
        if i.is_halted() {
            return Ok(false);
        }
        cur = p;
    }
}

/// What `Iterator.from` gives: an iterator that already inherits from `Iterator.prototype`, or the
/// slots of a wrapper for one that does not.
#[derive(Clone, Copy, PartialEq, Eq, Structural, Debug)]
pub enum FromResult {
    Itself(Value),
    Wrapped { iterator: Value, next: Value },
}

/// `Iterator.from`.
pub open spec fn iterator_from_value(w: World, args: Seq<Value>) -> Outcome<FromResult> {
    let (w, it) = flattenable(w, arg_at(args, 0), true);
    match it {
        Err(e) => (w, Err(e)),
        Ok(it) => {
            let (w, next) = w.get(it, Key::Name("next"));
            match next {
                Err(e) => (w, Err(e)),
                Ok(next) => {
                    let (w, heir) = inherits_iterator(w, it);
                    match heir {
                        Err(e) => (w, Err(e)),
                        Ok(heir) => if heir {
                            (w, Ok(FromResult::Itself(it)))
                        } else {
                            (w, Ok(FromResult::Wrapped { iterator: it, next }))
                        },
                    }
                },
            }
        },
    }
}

/// `Iterator.from`: a string/iterable via @@iterator, or an iterator used directly. `next` is read
/// before the prototype walk, which a proxy observes.
pub fn iterator_from(i: &mut Interp, args: &[Value]) -> (r: Result<FromResult, Value>)
    ensures
        (final(i)@, r) == iterator_from_value(old(i)@, args@),
{
    let it = get_iterator_flattenable(i, arg(args, 0), true)?;
    let next = i.get_member(it, Key::Name("next"))?;
    if is_iterator_heir(i, it)? {
        Ok(FromResult::Itself(it))
    } else {
        Ok(FromResult::Wrapped { iterator: it, next })
    }
}

/// `next` of a wrapper forwards to the wrapped iterator.
pub fn wrap_next(i: &mut Interp, iterator: Value, next: Value) -> (r: Result<Value, Value>)
    ensures
        (final(i)@, r) == old(i)@.call(next, iterator, Seq::empty()),
{
    let none: Vec<Value> = Vec::new();
    assert(none@ =~= Seq::<Value>::empty());
    i.call(next, iterator, none)
}

/// `return` of a wrapper.
pub open spec fn wrap_returned(w: World, iterator: Value) -> Outcome<Value> {
    let (w, m) = w.get(iterator, Key::Name("return"));
    match m {
        Err(e) => (w, Err(e)),
        Ok(m) => if m.nullish() {
            w.iter_result(Value::Undefined, true)
        } else if !m.callable() {
            w.throw(ErrorKind::Type, "iterator return is not callable")
        } else {
            w.call(m, iterator, Seq::empty())
        },
    }
}

/// `return` of a wrapper: the result of the wrapped iterator's `return` is returned as-is.
pub fn wrap_return(i: &mut Interp, iterator: Value) -> (r: Result<Value, Value>)
    ensures
        (final(i)@, r) == wrap_returned(old(i)@, iterator),
{
    let m = i.get_member(iterator, Key::Name("return"))?;
    if m.is_nullish() {
        return i.iter_result(Value::Undefined, true);
    }
    if !m.is_callable() {
        return i.type_error("iterator return is not callable");
    }
    let none: Vec<Value> = Vec::new();
    assert(none@ =~= Seq::<Value>::empty());
    i.call(m, iterator, none)
}

/// `Iterator.prototype[@@dispose]`: close the iterator (calls its return method).
pub fn iterator_dispose(i: &mut Interp, this: Value) -> (r: Value)
    ensures
        final(i)@ == old(i)@.plain(Op::Close(this), Seq::empty()).0,
        r == Value::Undefined,
{
    i.iterator_close(this);
    Value::Undefined
}

} // verus!
