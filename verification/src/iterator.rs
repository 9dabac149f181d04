//! Iterator protocol: the consuming methods of `Iterator.prototype`.
use vstd::prelude::*;
use crate::interp::{arg, arg_at, ErrorKind, Interp, Key, Op, Outcome, Value, World};
use crate::equality::{same_value_zero, same_zero};
use crate::num;

verus! {

/// One step of an iterator with an already-captured `next` method: a value, or nothing when the
/// iterator is done.
pub open spec fn stepped(w: World, src: Value, next: Value) -> Outcome<Option<Value>> {
    if !next.callable() {
        w.throw(ErrorKind::Type, "iterator.next is not a function")
    } else {
        let (w, res) = w.call(next, src, Seq::empty());
        match res {
            Err(e) => (w, Err(e)),
            Ok(res) => if !res.object() {
                w.throw(ErrorKind::Type, "iterator result is not an object")
            } else {
                let (w, done) = w.get(res, Key::Name("done"));
                match done {
                    Err(e) => (w, Err(e)),
                    Ok(done) => if w.truthy(done) {
                        (w, Ok(None))
                    } else {
                        let (w, value) = w.get(res, Key::Name("value"));
                        match value {
                            Err(e) => (w, Err(e)),
                            Ok(value) => (w, Ok(Some(value))),
                        }
                    },
                }
            },
        }
    }
}

/// Advance an iterator using an already-captured `next` method (iterator helpers read `next`
/// exactly once at creation per GetIteratorDirect, then reuse it).
pub fn step_iter_with(i: &mut Interp, src: Value, next: Value) -> (r: Result<Option<Value>, Value>)
    ensures
        (final(i)@, r) == stepped(old(i)@, src, next),
{
    if !next.is_callable() {
        return i.type_error("iterator.next is not a function");
    }
    let args: Vec<Value> = Vec::new();
    assert(args@ =~= Seq::<Value>::empty());
    let res = i.call(next, src, args)?;
    if !res.is_object() {
        return i.type_error("iterator result is not an object");
    }
    let done = i.get_member(res, Key::Name("done"))?;
    if i.to_boolean(done) {
        Ok(None)
    } else {
        let value = i.get_member(res, Key::Name("value"))?;
        Ok(Some(value))
    }
}

/// A successful step uses up at least one answer.
pub proof fn lemma_step_asks(w: World, src: Value, next: Value)
    ensures
        stepped(w, src, next).1 is Ok ==> stepped(w, src, next).0.left() < w.left(),
        stepped(w, src, next).0.left() <= w.left(),
{
}

pub open spec fn iterator_checked(w: World, this: Value) -> Outcome<()> {
    if this.object() {
        (w, Ok(()))
    } else {
        w.throw(ErrorKind::Type, "Iterator method called on a non-object")
    }
}

/// GetIteratorDirect's receiver check: an Iterator.prototype helper requires an Object `this`.
pub fn require_iterator_object(i: &mut Interp, this: Value) -> (r: Result<(), Value>)
    ensures
        (final(i)@, r) == iterator_checked(old(i)@, this),
{
    if this.is_object() {
        Ok(())
    } else {
        i.type_error("Iterator method called on a non-object")
    }
}

/// The rest of a search: steps until the predicate's truth is `want`, then closes the iterator.
pub open spec fn some_every_from(
    w: World,
    this: Value,
    next: Value,
    f: Value,
    want: bool,
    k: int,
) -> Outcome<Value>
    decreases w.left(),
{
    let (w1, step) = stepped(w, this, next);
    match step {
        Err(e) => (w1, Err(e)),
        Ok(None) => (w1, Ok(Value::Bool(!want))),
        Ok(Some(v)) => {
            let (w2, r) = w1.call(f, Value::Undefined, seq![v, Value::Num(num::number(k))]);
            match r {
                Err(e) => w2.close_and_throw(this, e),
                Ok(r) => if w2.truthy(r) == want {
                    let (w3, c) = w2.value(Op::CloseNormal(this), Seq::empty());
                    match c {
                        Err(e) => (w3, Err(e)),
                        Ok(_) => (w3, Ok(Value::Bool(want))),
                    }
                } else {
                    some_every_from(w2, this, next, f, want, num::counted(k))
                },
            }
        },
    }
}

/// `Iterator.prototype.some` (`want` true) and `every` (`want` false).
pub open spec fn some_every(w: World, this: Value, args: Seq<Value>, want: bool) -> Outcome<Value> {
    let (w, c) = iterator_checked(w, this);
    match c {
        Err(e) => (w, Err(e)),
        Ok(_) => {
            let f = arg_at(args, 0);
            if !f.callable() {
                w.close_and_fail(this, ErrorKind::Type, "predicate is not callable")
            } else {
                let (w, next) = w.get(this, Key::Name("next"));
                match next {
                    Err(e) => (w, Err(e)),
                    Ok(next) => some_every_from(w, this, next, f, want, 0),
                }
            }
        },
    }
}

pub fn iter_some_every(i: &mut Interp, this: Value, args: &[Value], want: bool) -> (r: Result<
    Value,
    Value,
>)
    ensures
        (final(i)@, r) == some_every(old(i)@, this, args@, want),
{
    require_iterator_object(i, this)?;
    let f = arg(args, 0);
    if !f.is_callable() {
        // Closes the underlying iterator without reading `next`; the TypeError wins.
        i.iterator_close(this);
        return i.type_error("predicate is not callable");
    }
    let next = i.get_member(this, Key::Name("next"))?;
    let mut k: u64 = 0;
    loop
        invariant
            k <= num::COUNT_LIMIT,
            some_every(old(i)@, this, args@, want) == some_every_from(
                i@,
                this,
                next,
                f,
                want,
                k as int,
            ),
        decreases i@.left(),
    {
        match step_iter_with(i, this, next)? {
            None => return Ok(Value::Bool(!want)),
            Some(v) => {
                let list = vec![v, Value::Num(num::of_u64(k))];
                assert(list@ =~= seq![v, Value::Num(num::number(k as int))]);
                match i.call(f, Value::Undefined, list) {
                    Err(e) => {
                        i.iterator_close(this);
                        return Err(e);
                    },
                    Ok(r) => {
                        if i.to_boolean(r) == want {
                            i.iterator_close_normal(this)?;
                            return Ok(Value::Bool(want));
                        }
                    },
                }
            },
        }
        k = num::next_count(k);
    }
}

/// The values an iterator gives until it is done, after those in `out`.
pub open spec fn drained_from(w: World, this: Value, next: Value, out: Seq<Value>) -> Outcome<
    Seq<Value>,
>
    decreases w.left(),
{
    let (w1, step) = stepped(w, this, next);
    match step {
        Err(e) => (w1, Err(e)),
        Ok(None) => (w1, Ok(out)),
        Ok(Some(v)) => drained_from(w1, this, next, out.push(v)),
    }
}

/// `Iterator.prototype.toArray`.
pub open spec fn to_array(w: World, this: Value) -> Outcome<Value> {
    let (w, c) = iterator_checked(w, this);
    match c {
        Err(e) => (w, Err(e)),
        Ok(_) => {
            let (w, next) = w.get(this, Key::Name("next"));
            match next {
                Err(e) => (w, Err(e)),
                Ok(next) => {
                    let (w, all) = drained_from(w, this, next, Seq::empty());
                    match all {
                        Err(e) => (w, Err(e)),
                        Ok(all) => {
                            let (w, a) = w.plain(Op::NewArray, all);
                            (w, Ok(a))
                        },
                    }
                },
            }
        },
    }
}

pub fn iterator_to_array(i: &mut Interp, this: Value) -> (r: Result<Value, Value>)
    ensures
        (final(i)@, r) == to_array(old(i)@, this),
{
    require_iterator_object(i, this)?;
    let next = i.get_member(this, Key::Name("next"))?;
    let mut out: Vec<Value> = Vec::new();
    let ghost start = i@;
    assert(out@ =~= Seq::<Value>::empty());
    loop
        invariant
            drained_from(start, this, next, Seq::empty()) == drained_from(i@, this, next, out@),
            to_array(old(i)@, this) == {
                let (w, all) = drained_from(start, this, next, Seq::empty());
                match all {
                    Err(e) => (w, Err(e)),
                    Ok(all) => {
                        let (w, a) = w.plain(Op::NewArray, all);
                        (w, Ok(a))
                    },
                }
            },
        decreases i@.left(),
    {
        match step_iter_with(i, this, next)? {
            None => return Ok(i.make_array(out)),
            Some(v) => out.push(v),
        }
    }
}

/// The rest of `forEach`.
pub open spec fn for_each_from(w: World, this: Value, next: Value, f: Value, k: int) -> Outcome<
    Value,
>
    decreases w.left(),
{
    let (w1, step) = stepped(w, this, next);
    match step {
        Err(e) => (w1, Err(e)),
        Ok(None) => (w1, Ok(Value::Undefined)),
        Ok(Some(v)) => {
            let (w2, r) = w1.call(f, Value::Undefined, seq![v, Value::Num(num::number(k))]);
            match r {
                Err(e) => w2.close_and_throw(this, e),
                Ok(_) => for_each_from(w2, this, next, f, num::counted(k)),
            }
        },
    }
}

/// `Iterator.prototype.forEach`.
pub open spec fn for_each(w: World, this: Value, args: Seq<Value>) -> Outcome<Value> {
    let (w, c) = iterator_checked(w, this);
    match c {
        Err(e) => (w, Err(e)),
        Ok(_) => {
            let f = arg_at(args, 0);
            if !f.callable() {
                w.close_and_fail(
                    this,
                    ErrorKind::Type,
                    "Iterator.prototype.forEach argument is not callable",
                )
            } else {
                let (w, next) = w.get(this, Key::Name("next"));
                match next {
                    Err(e) => (w, Err(e)),
                    Ok(next) => for_each_from(w, this, next, f, 0),
                }
            }
        },
    }
}

pub fn iterator_for_each(i: &mut Interp, this: Value, args: &[Value]) -> (r: Result<Value, Value>)
    ensures
        (final(i)@, r) == for_each(old(i)@, this, args@),
{
    require_iterator_object(i, this)?;
    let f = arg(args, 0);
    if !f.is_callable() {
        // Closes the underlying iterator without reading `next`; the TypeError wins.
        i.iterator_close(this);
        return i.type_error("Iterator.prototype.forEach argument is not callable");
    }
    let next = i.get_member(this, Key::Name("next"))?;
    let mut k: u64 = 0;
    loop
        invariant
            k <= num::COUNT_LIMIT,
            for_each(old(i)@, this, args@) == for_each_from(i@, this, next, f, k as int),
        decreases i@.left(),
    {
        match step_iter_with(i, this, next)? {
            None => return Ok(Value::Undefined),
            Some(v) => {
                let list = vec![v, Value::Num(num::of_u64(k))];
                assert(list@ =~= seq![v, Value::Num(num::number(k as int))]);
                if let Err(e) = i.call(f, Value::Undefined, list) {
                    i.iterator_close(this);
                    return Err(e);
                }
            },
        }
        k = num::next_count(k);
    }
}

/// The rest of `reduce`.
pub open spec fn reduced_from(
    w: World,
    this: Value,
    next: Value,
    f: Value,
    acc: Value,
    k: int,
) -> Outcome<Value>
    decreases w.left(),
{
    let (w1, step) = stepped(w, this, next);
    match step {
        Err(e) => (w1, Err(e)),
        Ok(None) => (w1, Ok(acc)),
        Ok(Some(v)) => {
            let (w2, r) = w1.call(f, Value::Undefined, seq![acc, v, Value::Num(num::number(k))]);
            match r {
                Err(e) => w2.close_and_throw(this, e),
                Ok(r) => reduced_from(w2, this, next, f, r, num::counted(k)),
            }
        },
    }
}

/// `Iterator.prototype.reduce`.
pub open spec fn reduced(w: World, this: Value, args: Seq<Value>) -> Outcome<Value> {
    let (w, c) = iterator_checked(w, this);
    match c {
        Err(e) => (w, Err(e)),
        Ok(_) => {
            let f = arg_at(args, 0);
            if !f.callable() {
                w.close_and_fail(this, ErrorKind::Type, "reducer is not callable")
            } else {
                let (w, next) = w.get(this, Key::Name("next"));
                match next {
                    Err(e) => (w, Err(e)),
                    Ok(next) => if args.len() >= 2 {
                        reduced_from(w, this, next, f, args[1], 0)
                    } else {
                        let (w, first) = stepped(w, this, next);
                        match first {
                            Err(e) => (w, Err(e)),
                            Ok(None) => w.throw(
                                ErrorKind::Type,
                                "Reduce of empty iterator with no initial value",
                            ),
                            Ok(Some(v)) => reduced_from(w, this, next, f, v, 1),
                        }
                    },
                }
            }
        },
    }
}

pub fn iterator_reduce(i: &mut Interp, this: Value, args: &[Value]) -> (r: Result<Value, Value>)
    ensures
        (final(i)@, r) == reduced(old(i)@, this, args@),
{
    require_iterator_object(i, this)?;
    let f = arg(args, 0);
    if !f.is_callable() {
        // Closes the underlying iterator without reading `next`; the TypeError wins.
        i.iterator_close(this);
        return i.type_error("reducer is not callable");
    }
    let next = i.get_member(this, Key::Name("next"))?;
    let mut acc: Value = Value::Undefined;
    let mut k: u64 = 0;
    if args.len() >= 2 {
        acc = args[1];
    } else {
        match step_iter_with(i, this, next)? {
            Some(v) => {
                acc = v;
            },
            None => return i.type_error("Reduce of empty iterator with no initial value"),
        }
        k = 1;
    }
    loop
        invariant
            k <= num::COUNT_LIMIT,
            reduced(old(i)@, this, args@) == reduced_from(i@, this, next, f, acc, k as int),
        decreases i@.left(),
    {
        match step_iter_with(i, this, next)? {
            None => return Ok(acc),
            Some(v) => {
                let list = vec![acc, v, Value::Num(num::of_u64(k))];
                assert(list@ =~= seq![acc, v, Value::Num(num::number(k as int))]);
                match i.call(f, Value::Undefined, list) {
                    Ok(r) => {
                        acc = r;
                    },
                    Err(e) => {
                        i.iterator_close(this);
                        return Err(e);
                    },
                }
            },
        }
        k = num::next_count(k);
    }
}

/// The rest of `find`.
pub open spec fn found_from(w: World, this: Value, next: Value, f: Value, k: int) -> Outcome<Value>
    decreases w.left(),
{
    let (w1, step) = stepped(w, this, next);
    match step {
        Err(e) => (w1, Err(e)),
        Ok(None) => (w1, Ok(Value::Undefined)),
        Ok(Some(v)) => {
            let (w2, r) = w1.call(f, Value::Undefined, seq![v, Value::Num(num::number(k))]);
            match r {
                Err(e) => w2.close_and_throw(this, e),
                Ok(r) => if w2.truthy(r) {
                    let (w3, c) = w2.value(Op::CloseNormal(this), Seq::empty());
                    match c {
                        Err(e) => (w3, Err(e)),
                        Ok(_) => (w3, Ok(v)),
                    }
                } else {
                    found_from(w2, this, next, f, num::counted(k))
                },
            }
        },
    }
}

/// `Iterator.prototype.find`.
pub open spec fn found(w: World, this: Value, args: Seq<Value>) -> Outcome<Value> {
    let (w, c) = iterator_checked(w, this);
    match c {
        Err(e) => (w, Err(e)),
        Ok(_) => {
            let f = arg_at(args, 0);
            if !f.callable() {
                w.close_and_fail(this, ErrorKind::Type, "predicate is not callable")
            } else {
                let (w, next) = w.get(this, Key::Name("next"));
                match next {
                    Err(e) => (w, Err(e)),
                    Ok(next) => found_from(w, this, next, f, 0),
                }
            }
        },
    }
}

pub fn iterator_find(i: &mut Interp, this: Value, args: &[Value]) -> (r: Result<Value, Value>)
    ensures
        (final(i)@, r) == found(old(i)@, this, args@),
{
    require_iterator_object(i, this)?;
    let f = arg(args, 0);
    if !f.is_callable() {
        // Closes the underlying iterator without reading `next`; the TypeError wins.
        i.iterator_close(this);
        return i.type_error("predicate is not callable");
    }
    let next = i.get_member(this, Key::Name("next"))?;
    let mut k: u64 = 0;
    loop
        invariant
            k <= num::COUNT_LIMIT,
            found(old(i)@, this, args@) == found_from(i@, this, next, f, k as int),
        decreases i@.left(),
    {
        match step_iter_with(i, this, next)? {
            None => return Ok(Value::Undefined),
            Some(v) => {
                let list = vec![v, Value::Num(num::of_u64(k))];
                assert(list@ =~= seq![v, Value::Num(num::number(k as int))]);
                match i.call(f, Value::Undefined, list) {
                    Err(e) => {
                        i.iterator_close(this);
                        return Err(e);
                    },
                    Ok(r) => {
                        if i.to_boolean(r) {
                            i.iterator_close_normal(this)?;
                            return Ok(v);
                        }
                    },
                }
            },
        }
        k = num::next_count(k);
    }
}

/// How many elements `includes` skips: a number, or all of them.
#[derive(Clone, Copy, PartialEq, Eq, Structural, Debug)]
pub enum Bound {
    Finite(u64),
    Infinite,
}

impl Bound {
    /// `n` lies below the bound.
    pub open spec fn above(self, n: int) -> bool {
        match self {
            Bound::Finite(b) => n < b,
            Bound::Infinite => true,
        }
    }

    pub fn is_above(self, n: u64) -> (r: bool)
        ensures
            r == self.above(n as int),
    {
        match self {
            Bound::Finite(b) => n < b,
            Bound::Infinite => true,
        }
    }
}

/// The number of elements to skip, which is not coerced: an integral Number in the range of safe
/// integers, or plus infinity.
pub open spec fn skip_bound(w: World, this: Value, v: Value) -> Outcome<Bound> {
    match v {
        Value::Undefined => (w, Ok(Bound::Finite(0))),
        Value::Num(n) => if !num::infinite(n) && !num::integral(n) {
            w.close_and_fail(this, ErrorKind::Type, "skippedElements must be an integral number")
        } else if (num::negative(n) && !num::zero(n)) || (num::finite(n) && num::magnitude(n)
            > num::MAX_SAFE) {
            w.close_and_fail(
                this,
                ErrorKind::Range,
                "skippedElements is outside the permitted range",
            )
        } else if num::infinite(n) {
            (w, Ok(Bound::Infinite))
        } else {
            (w, Ok(Bound::Finite(num::magnitude(n) as u64)))
        },
        _ => w.close_and_fail(
            this,
            ErrorKind::Type,
            "skippedElements must be an integral number",
        ),
    }
}

fn read_skip_bound(i: &mut Interp, this: Value, v: Value) -> (r: Result<Bound, Value>)
    ensures
        (final(i)@, r) == skip_bound(old(i)@, this, v),
{
    match v {
        Value::Undefined => Ok(Bound::Finite(0)),
        Value::Num(n) => {
            if !num::is_infinite(n) && !num::is_integral(n) {
                i.iterator_close(this);
                return i.type_error("skippedElements must be an integral number");
            }
            let negative = num::is_negative(n) && !num::is_zero(n);
            if negative || (num::is_finite(n) && num::magnitude_u64(n) > num::MAX_SAFE) {
                proof {
                    num::lemma_magnitude_nonneg(n);
                }
                i.iterator_close(this);
                return i.fail(ErrorKind::Range, "skippedElements is outside the permitted range");
            }
            if num::is_infinite(n) {
                Ok(Bound::Infinite)
            } else {
                proof {
                    num::lemma_magnitude_nonneg(n);
                }
                Ok(Bound::Finite(num::magnitude_u64(n)))
            }
        },
        _ => {
            i.iterator_close(this);
            i.type_error("skippedElements must be an integral number")
        },
    }
}

/// The rest of `includes`, with `skipped` elements passed over.
pub open spec fn included_from(
    w: World,
    this: Value,
    next: Value,
    search: Value,
    bound: Bound,
    skipped: int,
) -> Outcome<Value>
    decreases w.left(),
{
    let (w1, step) = stepped(w, this, next);
    match step {
        Err(e) => (w1, Err(e)),
        Ok(None) => (w1, Ok(Value::Bool(false))),
        Ok(Some(v)) => if bound.above(skipped) {
            included_from(w1, this, next, search, bound, num::counted(skipped))
        } else if same_zero(v, search) {
            let (w2, c) = w1.value(Op::CloseNormal(this), Seq::empty());
            match c {
                Err(e) => (w2, Err(e)),
                Ok(_) => (w2, Ok(Value::Bool(true))),
            }
        } else {
            included_from(w1, this, next, search, bound, skipped)
        },
    }
}

/// `Iterator.prototype.includes`.
pub open spec fn included(w: World, this: Value, args: Seq<Value>) -> Outcome<Value> {
    let (w, c) = iterator_checked(w, this);
    match c {
        Err(e) => (w, Err(e)),
        Ok(_) => {
            let (w, bound) = skip_bound(w, this, arg_at(args, 1));
            match bound {
                Err(e) => (w, Err(e)),
                Ok(bound) => {
                    let (w, next) = w.get(this, Key::Name("next"));
                    match next {
                        Err(e) => (w, Err(e)),
                        Ok(next) => included_from(w, this, next, arg_at(args, 0), bound, 0),
                    }
                },
            }
        },
    }
}

/// Iterator.prototype.includes, from the TC39 stage-3 Iterator Includes proposal.
///
/// `skippedElements` deliberately is not coerced: the proposal accepts only an integral Number
/// (or either infinity), and validates it before GetIteratorDirect observes `next`.
pub fn iterator_includes(i: &mut Interp, this: Value, args: &[Value]) -> (r: Result<Value, Value>)
    ensures
        (final(i)@, r) == included(old(i)@, this, args@),
{
    require_iterator_object(i, this)?;
    let search = arg(args, 0);
    let bound = read_skip_bound(i, this, arg(args, 1))?;
    let next = i.get_member(this, Key::Name("next"))?;
    let mut skipped: u64 = 0;
    loop
        invariant
            skipped <= num::COUNT_LIMIT,
            included(old(i)@, this, args@) == included_from(
                i@,
                this,
                next,
                search,
                bound,
                skipped as int,
            ),
        decreases i@.left(),
    {
        match step_iter_with(i, this, next)? {
            None => return Ok(Value::Bool(false)),
            Some(v) => {
                if bound.is_above(skipped) {
                    skipped = num::next_count(skipped);
                } else if same_value_zero(v, search) {
                    i.iterator_close_normal(this)?;
                    return Ok(Value::Bool(true));
                }
            },
        }
    }
}

/// The rest of `join`, after the units in `acc`.
pub open spec fn joined_from(
    w: World,
    this: Value,
    next: Value,
    sep: Seq<u16>,
    acc: Seq<u16>,
    first: bool,
) -> Outcome<Value>
    decreases w.left(),
{
    let (w1, step) = stepped(w, this, next);
    match step {
        Err(e) => (w1, Err(e)),
        Ok(None) => w1.text_value(acc),
        Ok(Some(v)) => {
            let acc = if first {
                acc
            } else {
                acc + sep
            };
            if v.nullish() {
                joined_from(w1, this, next, sep, acc, false)
            } else {
                let (w2, s) = w1.text(v);
                match s {
                    Err(e) => w2.close_and_throw(this, e),
                    Ok(s) => joined_from(w2, this, next, sep, acc + w2.units(s), false),
                }
            }
        },
    }
}

/// `Iterator.prototype.join`.
pub open spec fn joined(w: World, this: Value, args: Seq<Value>) -> Outcome<Value> {
    let (w, c) = iterator_checked(w, this);
    match c {
        Err(e) => (w, Err(e)),
        Ok(_) => {
            let (w, sep) = separator(w, arg_at(args, 0));
            match sep {
                Err(e) => w.close_and_throw(this, e),
                Ok(sep) => {
                    let (w, next) = w.get(this, Key::Name("next"));
                    match next {
                        Err(e) => (w, Err(e)),
                        Ok(next) => joined_from(w, this, next, sep, Seq::empty(), true),
                    }
                },
            }
        },
    }
}

/// The units of a separator argument: a comma where it is undefined.
pub open spec fn separator(w: World, v: Value) -> Outcome<Seq<u16>> {
    if v == Value::Undefined {
        (w, Ok(seq![0x2cu16]))
    } else {
        let (w, s) = w.text(v);
        match s {
            Err(e) => (w, Err(e)),
            Ok(s) => (w, Ok(w.units(s))),
        }
    }
}

/// The units of a separator argument.
pub fn read_separator(i: &mut Interp, v: Value) -> (r: Result<Vec<u16>, Value>)
    ensures
        final(i)@ == separator(old(i)@, v).0,
        match r {
            Ok(u) => separator(old(i)@, v).1 == Ok::<Seq<u16>, Value>(u@),
            Err(e) => separator(old(i)@, v).1 == Err::<Seq<u16>, Value>(e),
        },
{
    if v.is_undefined() {
        let comma: Vec<u16> = vec![0x2cu16];
        assert(comma@ =~= seq![0x2cu16]);
        return Ok(comma);
    }
    let s: u64 = i.to_text(v)?;
    Ok(i.units(s))
}

/// Iterator.prototype.join, from the TC39 stage-3 Iterator Join proposal.
/// Separator conversion precedes GetIteratorDirect; conversion of an element closes the iterator
/// on an abrupt completion, whereas iterator-protocol errors do not perform an additional close.
pub fn iterator_join(i: &mut Interp, this: Value, args: &[Value]) -> (r: Result<Value, Value>)
    ensures
        (final(i)@, r) == joined(old(i)@, this, args@),
{
    require_iterator_object(i, this)?;
    let sep: Vec<u16> = match read_separator(i, arg(args, 0)) {
        Ok(s) => s,
        Err(e) => {
            i.iterator_close(this);
            return Err(e);
        },
    };
    let next = i.get_member(this, Key::Name("next"))?;
    let mut result: Vec<u16> = Vec::new();
    assert(result@ =~= Seq::<u16>::empty());
    let mut first = true;
    loop
        invariant
            joined(old(i)@, this, args@) == joined_from(i@, this, next, sep@, result@, first),
        decreases i@.left(),
    {
        match step_iter_with(i, this, next)? {
            None => return i.text_value(result),
            Some(v) => {
                if first {
                    first = false;
                } else {
                    crate::text::push_units(&mut result, &sep);
                }
                if !v.is_nullish() {
                    match i.to_text(v) {
                        Ok(s) => {
                            let u = i.units(s);
                            crate::text::push_units(&mut result, &u);
                        },
                        Err(e) => {
                            i.iterator_close(this);
                            return Err(e);
                        },
                    }
                }
            },
        }
    }
}

} // verus!
