//! The array methods that call back, those that copy, and `Array.of` and `Array.from`.
use vstd::prelude::*;
use crate::array::{
    arr_to_object, array_get_present_index, array_species_create, checked_array_len,
    checked_length, created_at, inserts, is_constructor_value, is_ctor, length_put, present,
    receiver, relative, set_length_throw, species_created,
};
use crate::interp::{
    arg, arg_at, ErrorKind, Interp, Key, Op, Outcome, Value, WellKnown, World,
};
use crate::iterator::{read_separator, separator, step_iter_with, stepped};
use crate::num;
use crate::states::{State, StateView};
use crate::object::{
    array_tested, json_is_array, object_for, object_to_string, stringified, to_object_arg,
};
use crate::proxy::{length_of, number_to_length, length_of_number, to_length};
use crate::realm::{ctor_realm_proto, realm_prototype};

verus! {

/// The receiver, its length and the callback of a method.
pub open spec fn callback_setup(w: World, this: Value, cb: Value, complaint: &'static str) -> Outcome<
    (Value, u64),
> {
    let (w, o) = receiver(w, this);
    match o {
        Err(e) => (w, Err(e)),
        Ok(o) => {
            let (w, len) = length_of(w, o);
            match len {
                Err(e) => (w, Err(e)),
                Ok(len) => if !cb.callable() {
                    w.throw(ErrorKind::Type, complaint)
                } else {
                    (w, Ok((o, len)))
                },
            }
        },
    }
}

fn read_callback_setup(i: &mut Interp, this: Value, cb: Value, complaint: &'static str) -> (r: Result<
    (Value, u64),
    Value,
>)
    ensures
        (final(i)@, r) == callback_setup(old(i)@, this, cb, complaint),
        r matches Ok(p) ==> p.0.object() && p.1 <= num::MAX_SAFE,
{
    let o = arr_to_object(i, this)?;
    let len: u64 = to_length(i, o)?;
    if !cb.is_callable() {
        return i.type_error(complaint);
    }
    Ok((o, len))
}

/// The callback on an element.
pub open spec fn called_on(w: World, cb: Value, cb_this: Value, v: Value, k: int, o: Value) -> Outcome<Value> {
    w.call(cb, cb_this, seq![v, Value::Num(num::number(k)), o])
}

fn call_on(i: &mut Interp, cb: Value, cb_this: Value, v: Value, k: u64, o: Value) -> (r: Result<
    Value,
    Value,
>)
    requires
        k <= num::MAX_SAFE,
    ensures
        (final(i)@, r) == called_on(old(i)@, cb, cb_this, v, k as int, o),
{
    let list = vec![v, Value::Num(num::of_u64(k)), o];
    assert(list@ =~= seq![v, Value::Num(num::number(k as int)), o]);
    i.call(cb, cb_this, list)
}

/// forEach from `k` on: holes are skipped.
pub open spec fn each_from(w: World, o: Value, cb: Value, cb_this: Value, k: int, len: int) -> Outcome<Value>
    decreases len - k,
{
    if k >= len {
        (w, Ok(Value::Undefined))
    } else {
        let (w1, v) = present(w, o, k as u64);
        match v {
            Err(e) => (w1, Err(e)),
            Ok(None) => each_from(w1, o, cb, cb_this, k + 1, len),
            Ok(Some(v)) => {
                let (w2, r) = called_on(w1, cb, cb_this, v, k, o);
                match r {
                    Err(e) => (w2, Err(e)),
                    Ok(_) => each_from(w2, o, cb, cb_this, k + 1, len),
                }
            },
        }
    }
}

/// `Array.prototype.forEach`.
pub open spec fn each(w: World, this: Value, args: Seq<Value>) -> Outcome<Value> {
    let (w, s) = callback_setup(
        w,
        this,
        arg_at(args, 0),
        "Array.prototype.forEach callback is not callable",
    );
    match s {
        Err(e) => (w, Err(e)),
        Ok((o, len)) => each_from(w, o, arg_at(args, 0), arg_at(args, 1), 0, len as int),
    }
}

pub fn array_for_each(i: &mut Interp, this: Value, args: &[Value]) -> (r: Result<Value, Value>)
    ensures
        (final(i)@, r) == each(old(i)@, this, args@),
{
    let cb = arg(args, 0);
    let (o, len) = read_callback_setup(
        i,
        this,
        cb,
        "Array.prototype.forEach callback is not callable",
    )?;
    let cb_this = arg(args, 1);
    let mut k: u64 = 0;
    while k < len
        invariant
            len <= num::MAX_SAFE,
            each(old(i)@, this, args@) == each_from(i@, o, cb, cb_this, k as int, len as int),
        decreases len - k,
    {
        if let Some(v) = array_get_present_index(i, o, k)? {
            call_on(i, cb, cb_this, v, k, o)?;
        }
        k += 1;
    }
    Ok(Value::Undefined)
}

/// map from `k` on: holes stay holes in the result.
pub open spec fn mapped_from(
    w: World,
    o: Value,
    cb: Value,
    cb_this: Value,
    k: int,
    len: int,
    result: Value,
) -> Outcome<Value>
    decreases len - k,
{
    if k >= len {
        (w, Ok(result))
    } else {
        let (w1, v) = present(w, o, k as u64);
        match v {
            Err(e) => (w1, Err(e)),
            Ok(None) => mapped_from(w1, o, cb, cb_this, k + 1, len, result),
            Ok(Some(v)) => {
                let (w2, r) = called_on(w1, cb, cb_this, v, k, o);
                match r {
                    Err(e) => (w2, Err(e)),
                    Ok(r) => {
                        let (w3, c) = created_at(w2, result, k, r);
                        match c {
                            Err(e) => (w3, Err(e)),
                            Ok(_) => mapped_from(w3, o, cb, cb_this, k + 1, len, result),
                        }
                    },
                }
            },
        }
    }
}

/// `Array.prototype.map`.
pub open spec fn mapped(w: World, this: Value, args: Seq<Value>) -> Outcome<Value> {
    let (w, s) = callback_setup(
        w,
        this,
        arg_at(args, 0),
        "Array.prototype.map callback is not callable",
    );
    match s {
        Err(e) => (w, Err(e)),
        Ok((o, len)) => {
            let (w, result) = species_created(w, this, len as int);
            match result {
                Err(e) => (w, Err(e)),
                Ok(result) => mapped_from(
                    w,
                    o,
                    arg_at(args, 0),
                    arg_at(args, 1),
                    0,
                    len as int,
                    result,
                ),
            }
        },
    }
}

pub fn array_map(i: &mut Interp, this: Value, args: &[Value]) -> (r: Result<Value, Value>)
    ensures
        (final(i)@, r) == mapped(old(i)@, this, args@),
{
    let cb = arg(args, 0);
    let (o, len) = read_callback_setup(
        i,
        this,
        cb,
        "Array.prototype.map callback is not callable",
    )?;
    let cb_this = arg(args, 1);
    let result = array_species_create(i, this, len)?;
    let mut k: u64 = 0;
    while k < len
        invariant
            len <= num::MAX_SAFE,
            mapped(old(i)@, this, args@) == mapped_from(
                i@,
                o,
                cb,
                cb_this,
                k as int,
                len as int,
                result,
            ),
        decreases len - k,
    {
        if let Some(v) = array_get_present_index(i, o, k)? {
            let m = call_on(i, cb, cb_this, v, k, o)?;
            i.value_of(Op::CreateData(result, Key::Index(k), m))?;
        }
        k += 1;
    }
    Ok(result)
}

/// filter from `k` on, with `to` elements kept.
pub open spec fn kept_from(
    w: World,
    o: Value,
    cb: Value,
    cb_this: Value,
    k: int,
    len: int,
    result: Value,
    to: int,
) -> Outcome<Value>
    decreases len - k,
{
    if k >= len {
        (w, Ok(result))
    } else {
        let (w1, v) = present(w, o, k as u64);
        match v {
            Err(e) => (w1, Err(e)),
            Ok(None) => kept_from(w1, o, cb, cb_this, k + 1, len, result, to),
            Ok(Some(v)) => {
                let (w2, r) = called_on(w1, cb, cb_this, v, k, o);
                match r {
                    Err(e) => (w2, Err(e)),
                    Ok(r) => if w2.truthy(r) {
                        let (w3, c) = created_at(w2, result, to, v);
                        match c {
                            Err(e) => (w3, Err(e)),
                            Ok(_) => kept_from(w3, o, cb, cb_this, k + 1, len, result, to + 1),
                        }
                    } else {
                        kept_from(w2, o, cb, cb_this, k + 1, len, result, to)
                    },
                }
            },
        }
    }
}

/// `Array.prototype.filter`.
pub open spec fn filtered(w: World, this: Value, args: Seq<Value>) -> Outcome<Value> {
    let (w, s) = callback_setup(
        w,
        this,
        arg_at(args, 0),
        "Array.prototype.filter callback is not callable",
    );
    match s {
        Err(e) => (w, Err(e)),
        Ok((o, len)) => {
            let (w, result) = species_created(w, this, 0);
            match result {
                Err(e) => (w, Err(e)),
                Ok(result) => kept_from(
                    w,
                    o,
                    arg_at(args, 0),
                    arg_at(args, 1),
                    0,
                    len as int,
                    result,
                    0,
                ),
            }
        },
    }
}

pub fn array_filter(i: &mut Interp, this: Value, args: &[Value]) -> (r: Result<Value, Value>)
    ensures
        (final(i)@, r) == filtered(old(i)@, this, args@),
{
    let cb = arg(args, 0);
    let (o, len) = read_callback_setup(
        i,
        this,
        cb,
        "Array.prototype.filter callback is not callable",
    )?;
    let cb_this = arg(args, 1);
    let result = array_species_create(i, this, 0)?;
    let mut to: u64 = 0;
    let mut k: u64 = 0;
    while k < len
        invariant
            len <= num::MAX_SAFE,
            to <= k,
            filtered(old(i)@, this, args@) == kept_from(
                i@,
                o,
                cb,
                cb_this,
                k as int,
                len as int,
                result,
                to as int,
            ),
        decreases len - k,
    {
        if let Some(v) = array_get_present_index(i, o, k)? {
            let keep = call_on(i, cb, cb_this, v, k, o)?;
            if i.to_boolean(keep) {
                i.value_of(Op::CreateData(result, Key::Index(to), v))?;
                to += 1;
            }
        }
        k += 1;
    }
    Ok(result)
}

/// some and every from `k` on.
pub open spec fn tested_from(
    w: World,
    o: Value,
    cb: Value,
    cb_this: Value,
    k: int,
    len: int,
    every: bool,
) -> Outcome<Value>
    decreases len - k,
{
    if k >= len {
        (w, Ok(Value::Bool(every)))
    } else {
        let (w1, v) = present(w, o, k as u64);
        match v {
            Err(e) => (w1, Err(e)),
            Ok(None) => tested_from(w1, o, cb, cb_this, k + 1, len, every),
            Ok(Some(v)) => {
                let (w2, r) = called_on(w1, cb, cb_this, v, k, o);
                match r {
                    Err(e) => (w2, Err(e)),
                    Ok(r) => if w2.truthy(r) != every {
                        (w2, Ok(Value::Bool(!every)))
                    } else {
                        tested_from(w2, o, cb, cb_this, k + 1, len, every)
                    },
                }
            },
        }
    }
}

/// `Array.prototype.some` and `Array.prototype.every`.
pub open spec fn tested(w: World, this: Value, args: Seq<Value>, every: bool) -> Outcome<Value> {
    let (w, s) = callback_setup(w, this, arg_at(args, 0), "predicate is not callable");
    match s {
        Err(e) => (w, Err(e)),
        Ok((o, len)) => tested_from(
            w,
            o,
            arg_at(args, 0),
            arg_at(args, 1),
            0,
            len as int,
            every,
        ),
    }
}

pub fn array_some_every(i: &mut Interp, this: Value, args: &[Value], every: bool) -> (r: Result<
    Value,
    Value,
>)
    ensures
        (final(i)@, r) == tested(old(i)@, this, args@, every),
{
    let cb = arg(args, 0);
    let (o, len) = read_callback_setup(i, this, cb, "predicate is not callable")?;
    let cb_this = arg(args, 1);
    let mut k: u64 = 0;
    while k < len
        invariant
            len <= num::MAX_SAFE,
            tested(old(i)@, this, args@, every) == tested_from(
                i@,
                o,
                cb,
                cb_this,
                k as int,
                len as int,
                every,
            ),
        decreases len - k,
    {
        if let Some(v) = array_get_present_index(i, o, k)? {
            let r = call_on(i, cb, cb_this, v, k, o)?;
            if i.to_boolean(r) != every {
                return Ok(Value::Bool(!every));
            }
        }
        k += 1;
    }
    Ok(Value::Bool(every))
}

/// find and its relatives with `step` elements gone through, from either end.
pub open spec fn found_from(
    w: World,
    o: Value,
    cb: Value,
    cb_this: Value,
    step: int,
    len: int,
    want_value: bool,
    from_last: bool,
) -> Outcome<Value>
    decreases len - step,
{
    if step >= len {
        (
            w,
            Ok(
                if want_value {
                    Value::Undefined
                } else {
                    Value::Num(num::MINUS_ONE)
                },
            ),
        )
    } else {
        let k = if from_last {
            len - 1 - step
        } else {
            step
        };
        let (w1, v) = w.get(o, Key::Index(k as u64));
        match v {
            Err(e) => (w1, Err(e)),
            Ok(v) => {
                let (w2, r) = called_on(w1, cb, cb_this, v, k, o);
                match r {
                    Err(e) => (w2, Err(e)),
                    Ok(r) => if w2.truthy(r) {
                        (
                            w2,
                            Ok(
                                if want_value {
                                    v
                                } else {
                                    Value::Num(num::number(k))
                                },
                            ),
                        )
                    } else {
                        found_from(w2, o, cb, cb_this, step + 1, len, want_value, from_last)
                    },
                }
            },
        }
    }
}

/// `find`, `findIndex`, `findLast` and `findLastIndex`.
pub open spec fn found(
    w: World,
    this: Value,
    args: Seq<Value>,
    want_value: bool,
    from_last: bool,
) -> Outcome<Value> {
    let (w, s) = callback_setup(w, this, arg_at(args, 0), "predicate is not callable");
    match s {
        Err(e) => (w, Err(e)),
        Ok((o, len)) => found_from(
            w,
            o,
            arg_at(args, 0),
            arg_at(args, 1),
            0,
            len as int,
            want_value,
            from_last,
        ),
    }
}

pub fn array_find(
    i: &mut Interp,
    this: Value,
    args: &[Value],
    want_value: bool,
    from_last: bool,
) -> (r: Result<Value, Value>)
    ensures
        (final(i)@, r) == found(old(i)@, this, args@, want_value, from_last),
{
    let cb = arg(args, 0);
    let (o, len) = read_callback_setup(i, this, cb, "predicate is not callable")?;
    let cb_this = arg(args, 1);
    let mut step: u64 = 0;
    while step < len
        invariant
            len <= num::MAX_SAFE,
            found(old(i)@, this, args@, want_value, from_last) == found_from(
                i@,
                o,
                cb,
                cb_this,
                step as int,
                len as int,
                want_value,
                from_last,
            ),
        decreases len - step,
    {
        let k: u64 = if from_last {
            len - 1 - step
        } else {
            step
        };
        let v = i.get_member(o, Key::Index(k))?;
        let r = call_on(i, cb, cb_this, v, k, o)?;
        if i.to_boolean(r) {
            return if want_value {
                Ok(v)
            } else {
                Ok(Value::Num(num::of_u64(k)))
            };
        }
        step += 1;
    }
    if want_value {
        Ok(Value::Undefined)
    } else {
        Ok(Value::Num(num::MINUS_ONE))
    }
}

/// The index of a step of a reduction.
pub open spec fn reduce_index(step: int, len: int, right: bool) -> int {
    if right {
        len - 1 - step
    } else {
        step
    }
}

/// A reduction with `step` elements gone through; no accumulator means none is there yet.
pub open spec fn reduced_from(
    w: World,
    o: Value,
    cb: Value,
    step: int,
    len: int,
    acc: Option<Value>,
    right: bool,
) -> Outcome<Value>
    decreases len - step,
{
    if step >= len {
        match acc {
            Some(acc) => (w, Ok(acc)),
            None => w.throw(ErrorKind::Type, "Reduce of empty array with no initial value"),
        }
    } else {
        let k = reduce_index(step, len, right);
        let (w1, v) = present(w, o, k as u64);
        match v {
            Err(e) => (w1, Err(e)),
            Ok(None) => reduced_from(w1, o, cb, step + 1, len, acc, right),
            Ok(Some(v)) => match acc {
                None => reduced_from(w1, o, cb, step + 1, len, Some(v), right),
                Some(acc) => {
                    let (w2, r) = w1.call(
                        cb,
                        Value::Undefined,
                        seq![acc, v, Value::Num(num::number(k)), o],
                    );
                    match r {
                        Err(e) => (w2, Err(e)),
                        Ok(r) => reduced_from(w2, o, cb, step + 1, len, Some(r), right),
                    }
                },
            },
        }
    }
}

/// `Array.prototype.reduce` and `Array.prototype.reduceRight`.
pub open spec fn reduced(w: World, this: Value, args: Seq<Value>, right: bool) -> Outcome<Value> {
    let (w, s) = callback_setup(
        w,
        this,
        arg_at(args, 0),
        if right {
            "Array.prototype.reduceRight callback is not callable"
        } else {
            "Array.prototype.reduce callback is not callable"
        },
    );
    match s {
        Err(e) => (w, Err(e)),
        Ok((o, len)) => reduced_from(
            w,
            o,
            arg_at(args, 0),
            0,
            len as int,
            if args.len() >= 2 {
                Some(args[1])
            } else {
                None
            },
            right,
        ),
    }
}

pub fn array_reduce(i: &mut Interp, this: Value, args: &[Value], right: bool) -> (r: Result<
    Value,
    Value,
>)
    ensures
        (final(i)@, r) == reduced(old(i)@, this, args@, right),
{
    let cb = arg(args, 0);
    let complaint: &'static str = if right {
        "Array.prototype.reduceRight callback is not callable"
    } else {
        "Array.prototype.reduce callback is not callable"
    };
    let (o, len) = read_callback_setup(i, this, cb, complaint)?;
    // Without an initial value the first present element seeds the accumulator.
    let mut acc: Option<Value> = if args.len() >= 2 {
        Some(args[1])
    } else {
        None
    };
    let mut step: u64 = 0;
    while step < len
        invariant
            len <= num::MAX_SAFE,
            reduced(old(i)@, this, args@, right) == reduced_from(
                i@,
                o,
                cb,
                step as int,
                len as int,
                acc,
                right,
            ),
        decreases len - step,
    {
        let k: u64 = if right {
            len - 1 - step
        } else {
            step
        };
        if let Some(v) = array_get_present_index(i, o, k)? {
            match acc {
                None => {
                    acc = Some(v);
                },
                Some(a) => {
                    let list = vec![a, v, Value::Num(num::of_u64(k)), o];
                    assert(list@ =~= seq![a, v, Value::Num(num::number(k as int)), o]);
                    let r = i.call(cb, Value::Undefined, list)?;
                    acc = Some(r);
                },
            }
        }
        step += 1;
    }
    match acc {
        Some(a) => Ok(a),
        None => i.type_error("Reduce of empty array with no initial value"),
    }
}

// flat and flatMap

/// Puts one element at `at`, or, where it is an array and there is depth left, its elements.
/// The next index.
pub open spec fn flattened_one(w: World, target: Value, v: Value, at: int) -> Outcome<u64> {
    if at >= num::MAX_SAFE {
        w.throw(ErrorKind::Type, "flattened array length exceeds 2^53 - 1")
    } else {
        let (w, r) = created_at(w, target, at, v);
        match r {
            Err(e) => (w, Err(e)),
            Ok(_) => (w, Ok((at + 1) as u64)),
        }
    }
}

/// FlattenIntoArray: the elements of `source` from `k` on are mapped, flattened by `depth` and
/// written to `target` from `at` on.
pub open spec fn flattened_from(
    w: World,
    target: Value,
    source: Value,
    k: int,
    len: int,
    at: int,
    depth: nat,
    mapper: Option<(Value, Value)>,
) -> Outcome<u64>
    decreases depth, len - k,
{
    if k >= len {
        (w, Ok(at as u64))
    } else {
        let (w1, v) = present(w, source, k as u64);
        match v {
            Err(e) => (w1, Err(e)),
            Ok(None) => flattened_from(w1, target, source, k + 1, len, at, depth, mapper),
            Ok(Some(v)) => {
                let (w2, v) = match mapper {
                    Some((f, f_this)) => called_on(w1, f, f_this, v, k, source),
                    None => (w1, Ok(v)),
                };
                match v {
                    Err(e) => (w2, Err(e)),
                    Ok(v) => {
                        let (w3, nested) = if depth > 0 {
                            array_tested(w2, v)
                        } else {
                            (w2, Ok(false))
                        };
                        match nested {
                            Err(e) => (w3, Err(e)),
                            Ok(nested) => {
                                let (w4, next) = if nested && depth > 0 {
                                    let (w4, n) = length_of(w3, v);
                                    match n {
                                        Err(e) => (w4, Err(e)),
                                        Ok(n) => flattened_from(
                                            w4,
                                            target,
                                            v,
                                            0,
                                            n as int,
                                            at,
                                            (depth - 1) as nat,
                                            None,
                                        ),
                                    }
                                } else {
                                    flattened_one(w3, target, v, at)
                                };
                                match next {
                                    Err(e) => (w4, Err(e)),
                                    Ok(next) => flattened_from(
                                        w4,
                                        target,
                                        source,
                                        k + 1,
                                        len,
                                        next as int,
                                        depth,
                                        mapper,
                                    ),
                                }
                            },
                        }
                    },
                }
            },
        }
    }
}

fn flatten_one(i: &mut Interp, target: Value, v: Value, at: u64) -> (r: Result<u64, Value>)
    ensures
        (final(i)@, r) == flattened_one(old(i)@, target, v, at as int),
        r matches Ok(n) ==> n <= num::MAX_SAFE,
{
    if at >= num::MAX_SAFE {
        return i.type_error("flattened array length exceeds 2^53 - 1");
    }
    i.value_of(Op::CreateData(target, Key::Index(at), v))?;
    Ok(at + 1)
}

/// FlattenIntoArray: write `source`'s (mapped, one-level-per-depth flattened) elements onto
/// `target` starting at `start`, via CreateDataPropertyOrThrow. Returns the next target index.
pub fn flatten_into(
    i: &mut Interp,
    target: Value,
    source: Value,
    source_len: u64,
    start: u64,
    depth: u64,
    mapper: Option<(Value, Value)>,
) -> (r: Result<u64, Value>)
    requires
        source_len <= num::MAX_SAFE,
        start <= num::MAX_SAFE,
    ensures
        (final(i)@, r) == flattened_from(
            old(i)@,
            target,
            source,
            0,
            source_len as int,
            start as int,
            depth as nat,
            mapper,
        ),
        r matches Ok(n) ==> n <= num::MAX_SAFE,
    decreases depth,
{
    let mut at: u64 = start;
    let mut k: u64 = 0;
    while k < source_len
        invariant
            source_len <= num::MAX_SAFE,
            at <= num::MAX_SAFE,
            flattened_from(
                old(i)@,
                target,
                source,
                0,
                source_len as int,
                start as int,
                depth as nat,
                mapper,
            ) == flattened_from(
                i@,
                target,
                source,
                k as int,
                source_len as int,
                at as int,
                depth as nat,
                mapper,
            ),
        decreases source_len - k,
    {
        // FlattenIntoArray skips holes
        if let Some(element) = array_get_present_index(i, source, k)? {
            let v = match mapper {
                Some((f, f_this)) => call_on(i, f, f_this, element, k, source)?,
                None => element,
            };
            let nested = if depth > 0 {
                json_is_array(i, v)?
            } else {
                false
            };
            if nested && depth > 0 {
                let n: u64 = to_length(i, v)?;
                at = flatten_into(i, target, v, n, at, depth - 1, None)?;
            } else {
                at = flatten_one(i, target, v, at)?;
            }
        }
        k += 1;
    }
    Ok(at)
}

/// ToIntegerOrInfinity of a depth, held between 0 and the largest `i64`; 1 where it is undefined.
pub open spec fn depth_of(w: World, v: Value) -> Outcome<u64> {
    if v == Value::Undefined {
        (w, Ok(1))
    } else {
        let (w, n) = w.number(v);
        match n {
            Err(e) => (w, Err(e)),
            Ok(n) => (w, Ok(num::clamp(num::cast_i64(n), 0, i64::MAX as int) as u64)),
        }
    }
}

fn read_depth(i: &mut Interp, v: Value) -> (r: Result<u64, Value>)
    ensures
        (final(i)@, r) == depth_of(old(i)@, v),
{
    if v.is_undefined() {
        return Ok(1);
    }
    let n: u64 = i.to_number(v)?;
    let d: i64 = num::as_i64(n);
    if d < 0 {
        Ok(0)
    } else {
        Ok(d as u64)
    }
}

/// `Array.prototype.flat`.
pub open spec fn flattened(w: World, this: Value, args: Seq<Value>) -> Outcome<Value> {
    let (w, o) = receiver(w, this);
    match o {
        Err(e) => (w, Err(e)),
        Ok(o) => {
            let (w, len) = length_of(w, o);
            match len {
                Err(e) => (w, Err(e)),
                Ok(len) => {
                    let (w, depth) = depth_of(w, arg_at(args, 0));
                    match depth {
                        Err(e) => (w, Err(e)),
                        Ok(depth) => {
                            let (w, a) = species_created(w, this, 0);
                            match a {
                                Err(e) => (w, Err(e)),
                                Ok(a) => {
                                    let (w, r) = flattened_from(
                                        w,
                                        a,
                                        o,
                                        0,
                                        len as int,
                                        0,
                                        depth as nat,
                                        None,
                                    );
                                    match r {
                                        Err(e) => (w, Err(e)),
                                        Ok(_) => (w, Ok(a)),
                                    }
                                },
                            }
                        },
                    }
                },
            }
        },
    }
}

pub fn array_flat(i: &mut Interp, this: Value, args: &[Value]) -> (r: Result<Value, Value>)
    ensures
        (final(i)@, r) == flattened(old(i)@, this, args@),
{
    let o = arr_to_object(i, this)?;
    let len: u64 = to_length(i, o)?;
    let depth: u64 = read_depth(i, arg(args, 0))?;
    let a = array_species_create(i, this, 0)?;
    flatten_into(i, a, o, len, 0, depth, None)?;
    Ok(a)
}

/// `Array.prototype.flatMap`: one level.
pub open spec fn flat_mapped(w: World, this: Value, args: Seq<Value>) -> Outcome<Value> {
    let (w, s) = callback_setup(
        w,
        this,
        arg_at(args, 0),
        "Array.prototype.flatMap mapper is not callable",
    );
    match s {
        Err(e) => (w, Err(e)),
        Ok((o, len)) => {
            let (w, a) = species_created(w, this, 0);
            match a {
                Err(e) => (w, Err(e)),
                Ok(a) => {
                    let (w, r) = flattened_from(
                        w,
                        a,
                        o,
                        0,
                        len as int,
                        0,
                        1,
                        Some((arg_at(args, 0), arg_at(args, 1))),
                    );
                    match r {
                        Err(e) => (w, Err(e)),
                        Ok(_) => (w, Ok(a)),
                    }
                },
            }
        },
    }
}

pub fn array_flat_map(i: &mut Interp, this: Value, args: &[Value]) -> (r: Result<Value, Value>)
    ensures
        (final(i)@, r) == flat_mapped(old(i)@, this, args@),
{
    let cb = arg(args, 0);
    let (o, len) = read_callback_setup(
        i,
        this,
        cb,
        "Array.prototype.flatMap mapper is not callable",
    )?;
    let a = array_species_create(i, this, 0)?;
    flatten_into(i, a, o, len, 0, 1, Some((cb, arg(args, 1))))?;
    Ok(a)
}

// join and the strings

/// The elements from `k` on, joined to `acc`.
pub open spec fn joined_from(w: World, o: Value, k: int, len: int, sep: Seq<u16>, acc: Seq<u16>) -> Outcome<
    Seq<u16>,
>
    decreases len - k,
{
    if k >= len {
        (w, Ok(acc))
    } else {
        let acc = if k > 0 {
            acc + sep
        } else {
            acc
        };
        let (w1, v) = w.get(o, Key::Index(k as u64));
        match v {
            Err(e) => (w1, Err(e)),
            Ok(v) => if v.nullish() {
                joined_from(w1, o, k + 1, len, sep, acc)
            } else {
                let (w2, s) = w1.text(v);
                match s {
                    Err(e) => (w2, Err(e)),
                    Ok(s) => joined_from(w2, o, k + 1, len, sep, acc + w2.units(s)),
                }
            },
        }
    }
}

/// `Array.prototype.join`: the length is read before the separator is coerced.
pub open spec fn joined(w: World, this: Value, args: Seq<Value>, limit: u64) -> Outcome<Value> {
    let (w, o) = receiver(w, this);
    match o {
        Err(e) => (w, Err(e)),
        Ok(o) => {
            let (w, len) = checked_length(w, o, limit);
            match len {
                Err(e) => (w, Err(e)),
                Ok(len) => {
                    let (w, sep) = separator(w, arg_at(args, 0));
                    match sep {
                        Err(e) => (w, Err(e)),
                        Ok(sep) => {
                            let (w, u) = joined_from(w, o, 0, len as int, sep, Seq::empty());
                            match u {
                                Err(e) => (w, Err(e)),
                                Ok(u) => w.text_value(u),
                            }
                        },
                    }
                },
            }
        },
    }
}

pub fn array_join(i: &mut Interp, this: Value, args: &[Value], limit: u64) -> (r: Result<
    Value,
    Value,
>)
    ensures
        (final(i)@, r) == joined(old(i)@, this, args@, limit),
{
    let o = arr_to_object(i, this)?;
    let len: u64 = checked_array_len(i, o, limit)?;
    let sep: Vec<u16> = read_separator(i, arg(args, 0))?;
    let mut out: Vec<u16> = Vec::new();
    let mut k: u64 = 0;
    let ghost start = i@;
    assert(out@ =~= Seq::<u16>::empty());
    while k < len
        invariant
            k <= len,
            joined_from(start, o, 0, len as int, sep@, Seq::empty()) == joined_from(
                i@,
                o,
                k as int,
                len as int,
                sep@,
                out@,
            ),
            joined(old(i)@, this, args@, limit) == {
                let (w, u) = joined_from(start, o, 0, len as int, sep@, Seq::empty());
                match u {
                    Err(e) => (w, Err(e)),
                    Ok(u) => w.text_value(u),
                }
            },
        decreases len - k,
    {
        if k > 0 {
            crate::text::push_units(&mut out, &sep);
        }
        let v = i.get_member(o, Key::Index(k))?;
        if !v.is_nullish() {
            let s: u64 = i.to_text(v)?;
            let u = i.units(s);
            crate::text::push_units(&mut out, &u);
        }
        k += 1;
    }
    i.text_value(out)
}

/// `Array.prototype.toString`: the receiver's own `join`, or what `Object.prototype.toString`
/// gives.
pub open spec fn array_stringified(w: World, this: Value) -> Outcome<Value> {
    let (w, o) = receiver(w, this);
    match o {
        Err(e) => (w, Err(e)),
        Ok(o) => {
            let (w, join) = w.get(o, Key::Name("join"));
            match join {
                Err(e) => (w, Err(e)),
                Ok(join) => if join.callable() {
                    w.call(join, o, Seq::empty())
                } else {
                    stringified(w, o)
                },
            }
        },
    }
}

pub fn array_to_string(i: &mut Interp, this: Value) -> (r: Result<Value, Value>)
    ensures
        (final(i)@, r) == array_stringified(old(i)@, this),
{
    let o = arr_to_object(i, this)?;
    let join = i.get_member(o, Key::Name("join"))?;
    if join.is_callable() {
        let none: Vec<Value> = Vec::new();
        assert(none@ =~= Seq::<Value>::empty());
        i.call(join, o, none)
    } else {
        object_to_string(i, o)
    }
}

/// The elements from `k` on in their local form, joined to `acc` by commas.
pub open spec fn local_from(
    w: World,
    o: Value,
    k: int,
    len: int,
    locales: Value,
    options: Value,
    acc: Seq<u16>,
) -> Outcome<Value>
    decreases len - k,
{
    if k >= len {
        w.text_value(acc)
    } else {
        let acc = if k > 0 {
            acc.push(0x2c)
        } else {
            acc
        };
        let (w1, v) = w.get(o, Key::Index(k as u64));
        match v {
            Err(e) => (w1, Err(e)),
            Ok(v) => if v.nullish() {
                local_from(w1, o, k + 1, len, locales, options, acc)
            } else {
                let (w2, f) = w1.get(v, Key::Name("toLocaleString"));
                match f {
                    Err(e) => (w2, Err(e)),
                    Ok(f) => if !f.callable() {
                        w2.throw(ErrorKind::Type, "toLocaleString is not a function")
                    } else {
                        let (w3, r) = w2.call(f, v, seq![locales, options]);
                        match r {
                            Err(e) => (w3, Err(e)),
                            Ok(r) => {
                                let (w4, s) = w3.text(r);
                                match s {
                                    Err(e) => (w4, Err(e)),
                                    Ok(s) => local_from(
                                        w4,
                                        o,
                                        k + 1,
                                        len,
                                        locales,
                                        options,
                                        acc + w4.units(s),
                                    ),
                                }
                            },
                        }
                    },
                }
            },
        }
    }
}

/// `Array.prototype.toLocaleString`.
pub open spec fn localized(w: World, this: Value, args: Seq<Value>, limit: u64) -> Outcome<Value> {
    let (w, o) = receiver(w, this);
    match o {
        Err(e) => (w, Err(e)),
        Ok(o) => {
            let (w, len) = checked_length(w, o, limit);
            match len {
                Err(e) => (w, Err(e)),
                Ok(len) => local_from(
                    w,
                    o,
                    0,
                    len as int,
                    arg_at(args, 0),
                    arg_at(args, 1),
                    Seq::empty(),
                ),
            }
        },
    }
}

pub fn array_to_locale_string(i: &mut Interp, this: Value, args: &[Value], limit: u64) -> (r: Result<
    Value,
    Value,
>)
    ensures
        (final(i)@, r) == localized(old(i)@, this, args@, limit),
{
    let o = arr_to_object(i, this)?;
    let len: u64 = checked_array_len(i, o, limit)?;
    let locales = arg(args, 0);
    let options = arg(args, 1);
    let mut out: Vec<u16> = Vec::new();
    let mut k: u64 = 0;
    assert(out@ =~= Seq::<u16>::empty());
    while k < len
        invariant
            k <= len,
            localized(old(i)@, this, args@, limit) == local_from(
                i@,
                o,
                k as int,
                len as int,
                locales,
                options,
                out@,
            ),
        decreases len - k,
    {
        if k > 0 {
            out.push(0x2c);
        }
        let v = i.get_member(o, Key::Index(k))?;
        if !v.is_nullish() {
            let f = i.get_member(v, Key::Name("toLocaleString"))?;
            if !f.is_callable() {
                return i.type_error("toLocaleString is not a function");
            }
            let list = vec![locales, options];
            assert(list@ =~= seq![locales, options]);
            let r = i.call(f, v, list)?;
            let s: u64 = i.to_text(r)?;
            let u = i.units(s);
            crate::text::push_units(&mut out, &u);
        }
        k += 1;
    }
    i.text_value(out)
}

// Copies

/// The elements from `k` to `end`, after `acc`; a hole reads as undefined.
pub open spec fn read_from(w: World, o: Value, k: int, end: int, acc: Seq<Value>) -> Outcome<Seq<Value>>
    decreases end - k,
{
    if k >= end {
        (w, Ok(acc))
    } else {
        let (w1, v) = w.get(o, Key::Index(k as u64));
        match v {
            Err(e) => (w1, Err(e)),
            Ok(v) => read_from(w1, o, k + 1, end, acc.push(v)),
        }
    }
}

/// Reads the elements from `start` to `end` behind those in `out`.
pub fn read_elements(i: &mut Interp, o: Value, start: u64, end: u64, out: &mut Vec<Value>) -> (r: Result<
    (),
    Value,
>)
    ensures
        final(i)@ == read_from(old(i)@, o, start as int, end as int, old(out)@).0,
        match r {
            Ok(_) => read_from(old(i)@, o, start as int, end as int, old(out)@).1 == Ok::<
                Seq<Value>,
                Value,
            >(final(out)@),
            Err(e) => read_from(old(i)@, o, start as int, end as int, old(out)@).1 == Err::<
                Seq<Value>,
                Value,
            >(e),
        },
{
    let mut k: u64 = start;
    while k < end
        invariant
            start <= k,
            read_from(old(i)@, o, start as int, end as int, old(out)@) == read_from(
                i@,
                o,
                k as int,
                end as int,
                out@,
            ),
        decreases end - k,
    {
        let v = i.get_member(o, Key::Index(k))?;
        out.push(v);
        k += 1;
    }
    Ok(())
}

/// The elements below `k`, the last first, after `acc`.
pub open spec fn read_down(w: World, o: Value, k: int, acc: Seq<Value>) -> Outcome<Seq<Value>>
    decreases k,
{
    if k <= 0 {
        (w, Ok(acc))
    } else {
        let (w1, v) = w.get(o, Key::Index((k - 1) as u64));
        match v {
            Err(e) => (w1, Err(e)),
            Ok(v) => read_down(w1, o, k - 1, acc.push(v)),
        }
    }
}

/// A fresh array of what was read.
pub open spec fn array_of(o: Outcome<Seq<Value>>) -> Outcome<Value> {
    match o.1 {
        Err(e) => (o.0, Err(e)),
        Ok(l) => {
            let (w, a) = o.0.plain(Op::NewArray, l);
            (w, Ok(a))
        },
    }
}

/// `Array.prototype.toReversed`: elements are read from the end down.
pub open spec fn reversed_copy(w: World, this: Value, limit: u64) -> Outcome<Value> {
    let (w, o) = receiver(w, this);
    match o {
        Err(e) => (w, Err(e)),
        Ok(o) => {
            let (w, len) = checked_length(w, o, limit);
            match len {
                Err(e) => (w, Err(e)),
                Ok(len) => array_of(read_down(w, o, len as int, Seq::empty())),
            }
        },
    }
}

pub fn array_to_reversed(i: &mut Interp, this: Value, limit: u64) -> (r: Result<Value, Value>)
    ensures
        (final(i)@, r) == reversed_copy(old(i)@, this, limit),
{
    let o = arr_to_object(i, this)?;
    let len: u64 = checked_array_len(i, o, limit)?;
    let mut out: Vec<Value> = Vec::new();
    let mut k: u64 = len;
    let ghost start = i@;
    assert(out@ =~= Seq::<Value>::empty());
    while k > 0
        invariant
            read_down(start, o, len as int, Seq::empty()) == read_down(i@, o, k as int, out@),
            reversed_copy(old(i)@, this, limit) == array_of(
                read_down(start, o, len as int, Seq::empty()),
            ),
        decreases k,
    {
        let v = i.get_member(o, Key::Index(k - 1))?;
        out.push(v);
        k -= 1;
    }
    Ok(i.make_array(out))
}

/// `Array.prototype.with`: the replaced index is never read.
pub open spec fn replaced_copy(w: World, this: Value, args: Seq<Value>, limit: u64) -> Outcome<Value> {
    let (w, o) = receiver(w, this);
    match o {
        Err(e) => (w, Err(e)),
        Ok(o) => {
            let (w, len) = checked_length(w, o, limit);
            match len {
                Err(e) => (w, Err(e)),
                Ok(len) => {
                    let (w, n) = w.number(arg_at(args, 0));
                    match n {
                        Err(e) => (w, Err(e)),
                        Ok(n) => {
                            let k = crate::array::counted_position(n, len as int);
                            if k < 0 || k >= len {
                                w.throw(ErrorKind::Range, "invalid index")
                            } else {
                                let (w, front) = read_from(w, o, 0, k, Seq::empty());
                                match front {
                                    Err(e) => (w, Err(e)),
                                    Ok(front) => array_of(
                                        read_from(
                                            w,
                                            o,
                                            k + 1,
                                            len as int,
                                            front.push(arg_at(args, 1)),
                                        ),
                                    ),
                                }
                            }
                        },
                    }
                },
            }
        },
    }
}

pub fn array_with(i: &mut Interp, this: Value, args: &[Value], limit: u64) -> (r: Result<
    Value,
    Value,
>)
    ensures
        (final(i)@, r) == replaced_copy(old(i)@, this, args@, limit),
{
    let o = arr_to_object(i, this)?;
    let len: u64 = checked_array_len(i, o, limit)?;
    // ToIntegerOrInfinity truncates first (so -0.5 → 0), then negatives count from the end.
    let n: u64 = i.to_number(arg(args, 0))?;
    let mut k: i64 = num::as_i64(n);
    if k < 0 {
        k = k + len as i64;
    }
    if k < 0 || k >= len as i64 {
        return i.fail(ErrorKind::Range, "invalid index");
    }
    let mut out: Vec<Value> = Vec::new();
    assert(out@ =~= Seq::<Value>::empty());
    read_elements(i, o, 0, k as u64, &mut out)?;
    out.push(arg(args, 1));
    read_elements(i, o, k as u64 + 1, len, &mut out)?;
    Ok(i.make_array(out))
}

/// `Array.prototype.toSpliced`: the discarded span is never read.
pub open spec fn spliced_copy(w: World, this: Value, args: Seq<Value>, limit: u64) -> Outcome<Value> {
    let (w, o) = receiver(w, this);
    match o {
        Err(e) => (w, Err(e)),
        Ok(o) => {
            let (w, len) = length_of(w, o);
            match len {
                Err(e) => (w, Err(e)),
                Ok(len) => {
                    let (w, start) = relative(w, arg_at(args, 0), len);
                    match start {
                        Err(e) => (w, Err(e)),
                        Ok(start) => {
                            let (w, del) = crate::array::delete_count(w, args, len - start);
                            match del {
                                Err(e) => (w, Err(e)),
                                Ok(del) => {
                                    let items = inserts(args);
                                    let new_len = len - del + items.len();
                                    if new_len > num::MAX_SAFE {
                                        w.throw(ErrorKind::Type, "toSpliced result is too long")
                                    } else if new_len > limit {
                                        w.throw(
                                            ErrorKind::Range,
                                            "array length exceeds engine limit",
                                        )
                                    } else {
                                        let (w, front) = read_from(
                                            w,
                                            o,
                                            0,
                                            start as int,
                                            Seq::empty(),
                                        );
                                        match front {
                                            Err(e) => (w, Err(e)),
                                            Ok(front) => array_of(
                                                read_from(
                                                    w,
                                                    o,
                                                    start + del,
                                                    len as int,
                                                    front + items,
                                                ),
                                            ),
                                        }
                                    }
                                },
                            }
                        },
                    }
                },
            }
        },
    }
}

pub fn array_to_spliced(i: &mut Interp, this: Value, args: &[Value], limit: u64) -> (r: Result<
    Value,
    Value,
>)
    ensures
        (final(i)@, r) == spliced_copy(old(i)@, this, args@, limit),
{
    let o = arr_to_object(i, this)?;
    let len: u64 = to_length(i, o)?;
    let start: u64 = crate::array::read_relative(i, arg(args, 0), len)?;
    // No start → skip 0; start but no deleteCount → delete through the end.
    let del: u64 = crate::array::read_delete_count(i, args, len - start)?;
    let items: Vec<Value> = crate::array::read_inserts(args);
    let count: u64 = items.len() as u64;
    if count > num::MAX_SAFE - (len - del) {
        return i.type_error("toSpliced result is too long");
    }
    if len - del + count > limit {
        return i.fail(ErrorKind::Range, "array length exceeds engine limit");
    }
    let mut out: Vec<Value> = Vec::new();
    assert(out@ =~= Seq::<Value>::empty());
    read_elements(i, o, 0, start, &mut out)?;
    push_all(&mut out, &items);
    read_elements(i, o, start + del, len, &mut out)?;
    Ok(i.make_array(out))
}

/// Appends values.
pub fn push_all(out: &mut Vec<Value>, more: &Vec<Value>)
    ensures
        final(out)@ == old(out)@ + more@,
{
    let mut j: usize = 0;
    while j < more.len()
        invariant
            j <= more@.len(),
            out@ == old(out)@ + more@.subrange(0, j as int),
        decreases more@.len() - j,
    {
        out.push(more[j]);
        assert(more@.subrange(0, j + 1) =~= more@.subrange(0, j as int).push(more@[j as int]));
        assert(out@ =~= old(out)@ + more@.subrange(0, j + 1));
        j += 1;
    }
    assert(more@.subrange(0, j as int) =~= more@);
}

// Array.of, Array.from, Array

/// An empty result: built by the constructor where there is one, else a plain array.
pub open spec fn result_made(w: World, this: Value, args: Seq<Value>) -> Outcome<Value> {
    if is_ctor(this) {
        w.value(Op::Construct(this, this), args)
    } else {
        let (w, a) = w.plain(Op::NewArray, Seq::empty());
        (w, Ok(a))
    }
}

fn make_result(i: &mut Interp, this: Value, args: Vec<Value>) -> (r: Result<Value, Value>)
    ensures
        (final(i)@, r) == result_made(old(i)@, this, args@),
{
    if is_constructor_value(this) {
        i.ask_value(Op::Construct(this, this), args)
    } else {
        let none: Vec<Value> = Vec::new();
        assert(none@ =~= Seq::<Value>::empty());
        Ok(i.make_array(none))
    }
}

/// Stores the arguments from `k` on.
pub open spec fn stored_from(w: World, arr: Value, args: Seq<Value>, k: int) -> Outcome<Value>
    decreases args.len() - k,
{
    if k < 0 || k >= args.len() {
        let (w1, r) = w.value(
            Op::Put(arr, Key::Name("length"), Value::Num(num::position(args.len() as int))),
            Seq::empty(),
        );
        match r {
            Err(e) => (w1, Err(e)),
            Ok(_) => (w1, Ok(arr)),
        }
    } else {
        let (w1, r) = created_at(w, arr, k, args[k]);
        match r {
            Err(e) => (w1, Err(e)),
            Ok(_) => stored_from(w1, arr, args, k + 1),
        }
    }
}

/// `Array.of`.
pub open spec fn made_of(w: World, this: Value, args: Seq<Value>) -> Outcome<Value> {
    let (w, arr) = result_made(w, this, seq![Value::Num(num::position(args.len() as int))]);
    match arr {
        Err(e) => (w, Err(e)),
        Ok(arr) => stored_from(w, arr, args, 0),
    }
}

pub fn array_of_method(i: &mut Interp, this: Value, args: &[Value]) -> (r: Result<Value, Value>)
    ensures
        (final(i)@, r) == made_of(old(i)@, this, args@),
{
    let len = vec![Value::Num(num::of_position(args.len()))];
    assert(len@ =~= seq![Value::Num(num::position(args@.len() as int))]);
    let arr = make_result(i, this, len)?;
    let mut k: usize = 0;
    while k < args.len()
        invariant
            k <= args@.len(),
            made_of(old(i)@, this, args@) == stored_from(i@, arr, args@, k as int),
        decreases args@.len() - k,
    {
        i.value_of(Op::CreateData(arr, Key::Index(k as u64), args[k]))?;
        k += 1;
    }
    let n = Value::Num(num::of_position(args.len()));
    i.value_of(Op::Put(arr, Key::Name("length"), n))?;
    Ok(arr)
}

/// One element of `Array.from`, mapped and stored at `k`.
pub open spec fn element_stored(
    w: World,
    arr: Value,
    raw: Value,
    k: int,
    mapfn: Value,
    this_arg: Value,
) -> Outcome<Value> {
    let (w, v) = if mapfn.callable() {
        w.call(mapfn, this_arg, seq![raw, Value::Num(num::number(k))])
    } else {
        (w, Ok(raw))
    };
    match v {
        Err(e) => (w, Err(e)),
        Ok(v) => created_at(w, arr, k, v),
    }
}

fn store_element(
    i: &mut Interp,
    arr: Value,
    raw: Value,
    k: u64,
    mapfn: Value,
    this_arg: Value,
) -> (r: Result<Value, Value>)
    requires
        k <= num::COUNT_LIMIT,
    ensures
        (final(i)@, r) == element_stored(old(i)@, arr, raw, k as int, mapfn, this_arg),
{
    let v = if mapfn.is_callable() {
        let list = vec![raw, Value::Num(num::of_u64(k))];
        assert(list@ =~= seq![raw, Value::Num(num::number(k as int))]);
        i.call(mapfn, this_arg, list)?
    } else {
        raw
    };
    i.value_of(Op::CreateData(arr, Key::Index(k), v))
}

/// `Array.from` over an iterator from element `k` on: a failed map or definition closes it.
pub open spec fn gathered(
    w: World,
    arr: Value,
    iter: Value,
    next: Value,
    k: int,
    mapfn: Value,
    this_arg: Value,
) -> Outcome<Value>
    decreases w.left(),
{
    let (w1, step) = stepped(w, iter, next);
    match step {
        Err(e) => (w1, Err(e)),
        Ok(None) => {
            let (w2, r) = length_put(w1, arr, k);
            match r {
                Err(e) => (w2, Err(e)),
                Ok(_) => (w2, Ok(arr)),
            }
        },
        Ok(Some(raw)) => {
            let (w2, r) = element_stored(w1, arr, raw, k, mapfn, this_arg);
            match r {
                Err(e) => w2.close_and_throw(iter, e),
                Ok(_) => gathered(w2, arr, iter, next, num::counted(k), mapfn, this_arg),
            }
        },
    }
}

/// `Array.from` over an array-like from element `k` on.
pub open spec fn collected(
    w: World,
    arr: Value,
    o: Value,
    k: int,
    len: int,
    mapfn: Value,
    this_arg: Value,
) -> Outcome<Value>
    decreases len - k,
{
    if k >= len {
        let (w1, r) = length_put(w, arr, len);
        match r {
            Err(e) => (w1, Err(e)),
            Ok(_) => (w1, Ok(arr)),
        }
    } else {
        let (w1, raw) = w.get(o, Key::Index(k as u64));
        match raw {
            Err(e) => (w1, Err(e)),
            Ok(raw) => {
                let (w2, r) = element_stored(w1, arr, raw, k, mapfn, this_arg);
                match r {
                    Err(e) => (w2, Err(e)),
                    Ok(_) => collected(w2, arr, o, k + 1, len, mapfn, this_arg),
                }
            },
        }
    }
}

/// The array-like half of `Array.from`.
pub open spec fn collected_all(w: World, this: Value, source: Value, mapfn: Value, this_arg: Value) -> Outcome<
    Value,
> {
    let (w, o) = object_for(w, source, "Array.from called on null or undefined");
    match o {
        Err(e) => (w, Err(e)),
        Ok(o) => {
            let (w, len) = length_of(w, o);
            match len {
                Err(e) => (w, Err(e)),
                Ok(len) => if !is_ctor(this) && len > 0xffff_ffff {
                    w.throw(ErrorKind::Range, "invalid array length")
                } else {
                    let (w, arr) = result_made(
                        w,
                        this,
                        seq![Value::Num(num::number(len as int))],
                    );
                    match arr {
                        Err(e) => (w, Err(e)),
                        Ok(arr) => collected(w, arr, o, 0, len as int, mapfn, this_arg),
                    }
                },
            }
        },
    }
}

fn collect_all(i: &mut Interp, this: Value, source: Value, mapfn: Value, this_arg: Value) -> (r: Result<
    Value,
    Value,
>)
    ensures
        (final(i)@, r) == collected_all(old(i)@, this, source, mapfn, this_arg),
{
    // Array-like path: ToObject, read length, construct with «len», then per-index Get (lazily, so
    // mutations during mapping are observed).
    let o = to_object_arg(i, source, "Array.from called on null or undefined")?;
    let len: u64 = to_length(i, o)?;
    if !is_constructor_value(this) && len > 0xffff_ffff {
        return i.fail(ErrorKind::Range, "invalid array length");
    }
    let list = vec![Value::Num(num::of_u64(len))];
    assert(list@ =~= seq![Value::Num(num::number(len as int))]);
    let arr = make_result(i, this, list)?;
    let mut k: u64 = 0;
    while k < len
        invariant
            len <= num::MAX_SAFE,
            k <= len,
            collected_all(old(i)@, this, source, mapfn, this_arg) == collected(
                i@,
                arr,
                o,
                k as int,
                len as int,
                mapfn,
                this_arg,
            ),
        decreases len - k,
    {
        let raw = i.get_member(o, Key::Index(k))?;
        store_element(i, arr, raw, k, mapfn, this_arg)?;
        k += 1;
    }
    set_length_throw(i, arr, len)?;
    Ok(arr)
}

/// The iterator half of `Array.from`: the result is constructed before the iterator is opened.
pub open spec fn gathered_all(
    w: World,
    this: Value,
    source: Value,
    method: Value,
    mapfn: Value,
    this_arg: Value,
) -> Outcome<Value> {
    let (w, arr) = result_made(w, this, Seq::empty());
    match arr {
        Err(e) => (w, Err(e)),
        Ok(arr) => {
            let (w, iter) = w.call(method, source, Seq::empty());
            match iter {
                Err(e) => (w, Err(e)),
                Ok(iter) => {
                    let (w, next) = w.get(iter, Key::Name("next"));
                    match next {
                        Err(e) => (w, Err(e)),
                        Ok(next) => gathered(w, arr, iter, next, 0, mapfn, this_arg),
                    }
                },
            }
        },
    }
}

fn gather_all(
    i: &mut Interp,
    this: Value,
    source: Value,
    method: Value,
    mapfn: Value,
    this_arg: Value,
) -> (r: Result<Value, Value>)
    ensures
        (final(i)@, r) == gathered_all(old(i)@, this, source, method, mapfn, this_arg),
{
    let none: Vec<Value> = Vec::new();
    assert(none@ =~= Seq::<Value>::empty());
    let arr = make_result(i, this, none)?;
    let none: Vec<Value> = Vec::new();
    assert(none@ =~= Seq::<Value>::empty());
    let iter = i.call(method, source, none)?;
    let next = i.get_member(iter, Key::Name("next"))?;
    let mut k: u64 = 0;
    loop
        invariant
            k <= num::COUNT_LIMIT,
            gathered_all(old(i)@, this, source, method, mapfn, this_arg) == gathered(
                i@,
                arr,
                iter,
                next,
                k as int,
                mapfn,
                this_arg,
            ),
        decreases i@.left(),
    {
        match step_iter_with(i, iter, next)? {
            None => {
                set_length_throw(i, arr, k)?;
                return Ok(arr);
            },
            Some(raw) => {
                if let Err(e) = store_element(i, arr, raw, k, mapfn, this_arg) {
                    i.iterator_close(iter);
                    return Err(e);
                }
            },
        }
        k = num::next_count(k);
    }
}

/// `Array.from`.
pub open spec fn made_from(w: World, this: Value, args: Seq<Value>) -> Outcome<Value> {
    let source = arg_at(args, 0);
    let mapfn = arg_at(args, 1);
    let this_arg = arg_at(args, 2);
    if mapfn != Value::Undefined && !mapfn.callable() {
        w.throw(ErrorKind::Type, "Array.from: mapFn is not callable")
    } else {
        let (w, method) = if source.nullish() {
            (w, Ok(Value::Undefined))
        } else {
            w.get(source, Key::Symbol(WellKnown::Iterator))
        };
        match method {
            Err(e) => (w, Err(e)),
            Ok(method) => if !method.nullish() && !method.callable() {
                w.throw(ErrorKind::Type, "@@iterator is not callable")
            } else if method.callable() {
                gathered_all(w, this, source, method, mapfn, this_arg)
            } else {
                collected_all(w, this, source, mapfn, this_arg)
            },
        }
    }
}

pub fn array_from(i: &mut Interp, this: Value, args: &[Value]) -> (r: Result<Value, Value>)
    ensures
        (final(i)@, r) == made_from(old(i)@, this, args@),
{
    let source = arg(args, 0);
    let mapfn = arg(args, 1);
    let this_arg = arg(args, 2);
    if !mapfn.is_undefined() && !mapfn.is_callable() {
        return i.type_error("Array.from: mapFn is not callable");
    }
    // GetMethod(items, @@iterator): a throwing getter propagates; non-callable non-nullish is a
    // TypeError.
    let method = if source.is_nullish() {
        Value::Undefined
    } else {
        i.get_member(source, Key::Symbol(WellKnown::Iterator))?
    };
    if !method.is_nullish() && !method.is_callable() {
        return i.type_error("@@iterator is not callable");
    }
    if method.is_callable() {
        gather_all(i, this, source, method, mapfn, this_arg)
    } else {
        collect_all(i, this, source, mapfn, this_arg)
    }
}

/// The `Array` constructor: a single Number is a length, anything else the elements; a new target
/// gives the prototype.
pub open spec fn array_constructed(w: World, args: Seq<Value>) -> Outcome<Value> {
    let (w, a) = if args.len() == 1 && args[0] is Num {
        let (w, a) = w.plain(Op::NewArray, Seq::empty());
        let (w, r) = w.value(Op::Put(a, Key::Name("length"), args[0]), Seq::empty());
        match r {
            Err(e) => (w, Err(e)),
            Ok(_) => (w, Ok(a)),
        }
    } else {
        let (w, a) = w.plain(Op::NewArray, args);
        (w, Ok(a))
    };
    match a {
        Err(e) => (w, Err(e)),
        Ok(a) => {
            let (w, nt) = w.plain(Op::NewTarget, Seq::empty());
            if !nt.object() {
                (w, Ok(a))
            } else {
                let (w, p) = w.get(nt, Key::Name("prototype"));
                match p {
                    Err(e) => (w, Err(e)),
                    Ok(p) => {
                        let (w, proto) = if p.object() {
                            (w, Ok(p))
                        } else {
                            realm_prototype(w, nt, "Array", 64)
                        };
                        match proto {
                            Err(e) => (w, Err(e)),
                            Ok(proto) => if proto.object() {
                                let (w, _) = w.plain(Op::StorePrototype(a, proto), Seq::empty());
                                (w, Ok(a))
                            } else {
                                (w, Ok(a))
                            },
                        }
                    },
                }
            }
        },
    }
}

pub fn nf_array_ctor(i: &mut Interp, args: &[Value]) -> (r: Result<Value, Value>)
    ensures
        (final(i)@, r) == array_constructed(old(i)@, args@),
{
    let one_number = if args.len() == 1 {
        match args[0] {
            Value::Num(_) => true,
            _ => false,
        }
    } else {
        false
    };
    let mut elems: Vec<Value> = Vec::new();
    assert(elems@ =~= Seq::<Value>::empty());
    let a = if one_number {
        // `new Array(len)` sets length without materializing elements; the length setter validates
        // that it is a valid uint32 (else RangeError: Invalid array length).
        let a = i.make_array(elems);
        i.value_of(Op::Put(a, Key::Name("length"), args[0]))?;
        a
    } else {
        let mut k: usize = 0;
        while k < args.len()
            invariant
                k <= args@.len(),
                elems@ == args@.subrange(0, k as int),
            decreases args@.len() - k,
        {
            elems.push(args[k]);
            assert(args@.subrange(0, k + 1) =~= args@.subrange(0, k as int).push(args@[k as int]));
            k += 1;
        }
        assert(args@.subrange(0, k as int) =~= args@);
        i.make_array(elems)
    };
    // GetPrototypeFromConstructor: a subclass / cross-realm new.target redirects the instance
    // prototype (falling back to new.target's realm's %Array.prototype%).
    let nt = i.perform(Op::NewTarget);
    if nt.is_object() {
        let p = i.get_member(nt, Key::Name("prototype"))?;
        let proto = if p.is_object() {
            p
        } else {
            ctor_realm_proto(i, nt, "Array")?
        };
        if proto.is_object() {
            let _ = i.perform(Op::StorePrototype(a, proto));
        }
    }
    Ok(a)
}

// The array iterator

/// What an array iterator gives for an element.
#[derive(Clone, Copy, PartialEq, Eq, Structural, Debug)]
pub enum ElementKind {
    Values,
    Keys,
    Entries,
}

/// The state of an array iterator; an exhausted one has no target.
#[derive(Clone, Copy, PartialEq, Eq, Structural, Debug)]
pub struct ArrayIter {
    pub target: Value,
    pub index: u64,
    pub kind: ElementKind,
}

/// `values`, `keys` and `entries`.
pub open spec fn array_iterator_made(w: World, this: Value, kind: ElementKind) -> Outcome<ArrayIter> {
    if this.nullish() {
        w.throw(ErrorKind::Type, "Array.prototype method called on null or undefined")
    } else {
        (w, Ok(ArrayIter { target: this, index: 0, kind }))
    }
}

pub fn make_array_iterator(i: &mut Interp, this: Value, kind: ElementKind) -> (r: Result<
    ArrayIter,
    Value,
>)
    ensures
        (final(i)@, r) == array_iterator_made(old(i)@, this, kind),
        r matches Ok(it) ==> it.index <= num::MAX_SAFE,
{
    if this.is_nullish() {
        return i.type_error("Array.prototype method called on null or undefined");
    }
    Ok(ArrayIter { target: this, index: 0, kind })
}

/// The length that an array iterator goes by: a typed array must be in bounds, and a primitive
/// that is no string has no elements.
pub open spec fn iteration_length(w: World, target: Value) -> Outcome<u64> {
    match target {
        Value::Obj(_) => {
            let (w, n) = w.value(Op::TypedLength(target), Seq::empty());
            match n {
                Err(e) => (w, Err(e)),
                Ok(Value::Num(n)) => (w, Ok(length_of_number(n) as u64)),
                Ok(_) => length_of(w, target),
            }
        },
        Value::Str(s) => (w, Ok(w.units(s).len() as u64)),
        _ => (w, Ok(0)),
    }
}

fn read_iteration_length(i: &mut Interp, target: Value) -> (r: Result<u64, Value>)
    ensures
        (final(i)@, r) == iteration_length(old(i)@, target),
{
    match target {
        Value::Obj(_) => match i.value_of(Op::TypedLength(target))? {
            Value::Num(n) => Ok(number_to_length(n)),
            _ => to_length(i, target),
        },
        Value::Str(s) => {
            let u = i.units(s);
            Ok(u.len() as u64)
        },
        _ => Ok(0),
    }
}

/// The result for the element that an array iterator stands at.
pub open spec fn element_given(w: World, it: ArrayIter) -> Outcome<Value> {
    let (w, v) = w.get(it.target, Key::Index(it.index));
    match v {
        Err(e) => (w, Err(e)),
        Ok(v) => {
            let k = Value::Num(num::number(it.index as int));
            let (w, given) = match it.kind {
                ElementKind::Values => (w, v),
                ElementKind::Keys => (w, k),
                ElementKind::Entries => w.plain(Op::NewArray, seq![k, v]),
            };
            w.iter_result(given, false)
        },
    }
}

fn give_element(i: &mut Interp, it: ArrayIter) -> (r: Result<Value, Value>)
    requires
        it.index < num::MAX_SAFE,
    ensures
        (final(i)@, r) == element_given(old(i)@, it),
{
    let v = i.get_member(it.target, Key::Index(it.index))?;
    let k = Value::Num(num::of_u64(it.index));
    let given = match it.kind {
        ElementKind::Values => v,
        ElementKind::Keys => k,
        ElementKind::Entries => {
            let list = vec![k, v];
            assert(list@ =~= seq![k, v]);
            i.make_array(list)
        },
    };
    i.iter_result(given, false)
}

/// `next()` of an array iterator object. It moves on before it reads the element.
pub open spec fn array_iterator_stepped(w: World, this: Value) -> Outcome<Value> {
    let (w, s) = w.state(this);
    match s {
        Some(StateView::Array(it)) => if it.target == Value::Undefined {
            w.iter_result(Value::Undefined, true)
        } else {
            let (w, len) = iteration_length(w, it.target);
            match len {
                Err(e) => (w, Err(e)),
                Ok(len) => if it.index >= len || it.index >= num::MAX_SAFE {
                    let end = ArrayIter { target: Value::Undefined, ..it };
                    w.keep(this, StateView::Array(end)).iter_result(Value::Undefined, true)
                } else {
                    let after = ArrayIter { index: (it.index + 1) as u64, ..it };
                    element_given(w.keep(this, StateView::Array(after)), it)
                },
            }
        },
        _ => w.throw(ErrorKind::Type, "Array Iterator next called on an incompatible receiver"),
    }
}

/// %ArrayIteratorPrototype%.next.
pub fn array_iterator_next(i: &mut Interp, this: Value) -> (r: Result<Value, Value>)
    ensures
        (final(i)@, r) == array_iterator_stepped(old(i)@, this),
{
    match i.read_state(this) {
        Some(State::Array(it)) => {
            if it.target.is_undefined() {
                return i.iter_result(Value::Undefined, true);
            }
            let len: u64 = read_iteration_length(i, it.target)?;
            if it.index >= len || it.index >= num::MAX_SAFE {
                let mut end = it;
                end.target = Value::Undefined;
                i.keep(this, State::Array(end));
                return i.iter_result(Value::Undefined, true);
            }
            let mut after = it;
            after.index = it.index + 1;
            i.keep(this, State::Array(after));
            give_element(i, it)
        },
        _ => i.type_error("Array Iterator next called on an incompatible receiver"),
    }
}

/// `next()` of an array iterator.
pub open spec fn array_iterated(w: World, it: ArrayIter) -> (World, ArrayIter, Result<Value, Value>) {
    if it.target == Value::Undefined {
        let (w, r) = w.iter_result(Value::Undefined, true);
        (w, it, r)
    } else {
        let (w, len) = iteration_length(w, it.target);
        match len {
            Err(e) => (w, it, Err(e)),
            Ok(len) => if it.index >= len || it.index >= num::MAX_SAFE {
                let (w, r) = w.iter_result(Value::Undefined, true);
                (w, ArrayIter { target: Value::Undefined, ..it }, r)
            } else {
                let after = ArrayIter { index: (it.index + 1) as u64, ..it };
                let (w, r) = element_given(w, it);
                (w, after, r)
            },
        }
    }
}

pub fn array_iter_next(i: &mut Interp, it: &mut ArrayIter) -> (r: Result<Value, Value>)
    ensures
        (final(i)@, *final(it), r) == array_iterated(old(i)@, *old(it)),
{
    // An exhausted iterator clears its target so it stays done even if the source later grows.
    if it.target.is_undefined() {
        return i.iter_result(Value::Undefined, true);
    }
    let target = it.target;
    let len: u64 = read_iteration_length(i, target)?;
    let idx: u64 = it.index;
    if idx >= len || idx >= num::MAX_SAFE {
        it.target = Value::Undefined;
        return i.iter_result(Value::Undefined, true);
    }
    let at = *it;
    it.index = idx + 1;
    give_element(i, at)
}

// Laws

/// An exhausted array iterator stays done.
pub proof fn law_exhausted_array_iterator_stays_done(w: World, it: ArrayIter)
    requires
        it.target == Value::Undefined,
    ensures
        array_iterated(w, it).1 == it,
        array_iterated(w, it).2 is Ok,
{
}

/// `some` on a receiver without elements is false, and `every` is true.
pub proof fn law_tests_of_nothing(w: World, o: Value, cb: Value, cb_this: Value, every: bool)
    ensures
        tested_from(w, o, cb, cb_this, 0, 0, every) == (w, Ok::<Value, Value>(Value::Bool(every))),
{
}

/// A callback is never handed a hole.
pub proof fn law_holes_are_never_passed(
    w: World,
    o: Value,
    cb: Value,
    cb_this: Value,
    k: int,
    len: int,
)
    requires
        0 <= k < len,
        present(w, o, k as u64).1 == Ok::<Option<Value>, Value>(None),
    ensures
        each_from(w, o, cb, cb_this, k, len) == each_from(
            present(w, o, k as u64).0,
            o,
            cb,
            cb_this,
            k + 1,
            len,
        ),
        tested_from(w, o, cb, cb_this, k, len, true) == tested_from(
            present(w, o, k as u64).0,
            o,
            cb,
            cb_this,
            k + 1,
            len,
            true,
        ),
{
}

} // verus!
