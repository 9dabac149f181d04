//! Promise machinery: capabilities, combinators and the functions that settle them.
use vstd::prelude::*;
use crate::array::{is_constructor_value, is_ctor};
use crate::interp::{arg, arg_at, ErrorKind, Interp, Key, Native, Op, Outcome, Value, WellKnown, World};
use crate::num;
use crate::proxy::{js_own_keys, js_own_property, own_keys_of, own_property_of};
use crate::realm::{set_data, stored};

verus! {

// Slots

pub open spec fn slot_read(w: World, o: Value, name: &'static str) -> (World, Value) {
    w.plain(Op::ReadSlot(o, name), Seq::empty())
}

pub open spec fn slot_written(w: World, o: Value, name: &'static str, v: Value) -> World {
    w.plain(Op::WriteSlot(o, name, v), Seq::empty()).0
}

fn read_slot(i: &mut Interp, o: Value, name: &'static str) -> (r: Value)
    ensures
        (final(i)@, r) == slot_read(old(i)@, o, name),
{
    i.perform(Op::ReadSlot(o, name))
}

fn write_slot(i: &mut Interp, o: Value, name: &'static str, v: Value)
    ensures
        final(i)@ == slot_written(old(i)@, o, name, v),
{
    let _ = i.perform(Op::WriteSlot(o, name, v));
}

// Capabilities

/// GetCapabilitiesExecutor: captures the resolve and reject functions, once.
pub open spec fn executor_called(w: World, args: Seq<Value>) -> Outcome<Value> {
    let cap = arg_at(args, 0);
    let (w, resolve) = slot_read(w, cap, "resolve");
    if resolve != Value::Undefined {
        w.throw(ErrorKind::Type, "promise capability executor already invoked")
    } else {
        let (w, reject) = slot_read(w, cap, "reject");
        if reject != Value::Undefined {
            w.throw(ErrorKind::Type, "promise capability executor already invoked")
        } else {
            let w = slot_written(w, cap, "resolve", arg_at(args, 1));
            (slot_written(w, cap, "reject", arg_at(args, 2)), Ok(Value::Undefined))
        }
    }
}

/// The executor passed to `new C(executor)` inside NewPromiseCapability: capture the resolve/reject
/// functions (and reject a second invocation). `args = [cap, resolve, reject]`.
pub fn capability_executor(i: &mut Interp, args: &[Value]) -> (r: Result<Value, Value>)
    ensures
        (final(i)@, r) == executor_called(old(i)@, args@),
{
    let cap = arg(args, 0);
    if !read_slot(i, cap, "resolve").is_undefined() {
        return i.type_error("promise capability executor already invoked");
    }
    if !read_slot(i, cap, "reject").is_undefined() {
        return i.type_error("promise capability executor already invoked");
    }
    write_slot(i, cap, "resolve", arg(args, 1));
    write_slot(i, cap, "reject", arg(args, 2));
    Ok(Value::Undefined)
}

/// A promise with the functions that settle it.
#[derive(Clone, Copy, PartialEq, Eq, Structural, Debug)]
pub struct Capability {
    pub promise: Value,
    pub resolve: Value,
    pub reject: Value,
}

/// NewPromiseCapability.
pub open spec fn capability_made(w: World, ctor: Value) -> Outcome<Capability> {
    if !ctor.callable() {
        w.throw(ErrorKind::Type, "NewPromiseCapability: receiver is not a constructor")
    } else {
        let (w, cap) = w.plain(Op::NewObject, Seq::empty());
        let (w, executor) = w.plain(Op::NewBound(Native::CapabilityExecutor, 2), seq![cap]);
        let (w, promise) = w.value(Op::Construct(ctor, ctor), seq![executor]);
        match promise {
            Err(e) => (w, Err(e)),
            Ok(promise) => {
                let (w, resolve) = slot_read(w, cap, "resolve");
                let (w, reject) = slot_read(w, cap, "reject");
                if !resolve.callable() || !reject.callable() {
                    w.throw(ErrorKind::Type, "promise capability functions are not callable")
                } else {
                    (w, Ok(Capability { promise, resolve, reject }))
                }
            },
        }
    }
}

/// NewPromiseCapability(C): `new C(executor)`, capturing the resolve/reject functions the executor
/// is called with (and validating they're callable), so that a combinator that settles through them
/// works with a subclass / foreign Promise constructor.
pub fn new_promise_capability_full(i: &mut Interp, ctor: Value) -> (r: Result<Capability, Value>)
    ensures
        (final(i)@, r) == capability_made(old(i)@, ctor),
{
    if !ctor.is_callable() {
        return i.type_error("NewPromiseCapability: receiver is not a constructor");
    }
    let cap = i.perform(Op::NewObject);
    let bound = vec![cap];
    assert(bound@ =~= seq![cap]);
    let executor = i.ask_plain(Op::NewBound(Native::CapabilityExecutor, 2), bound);
    let list = vec![executor];
    assert(list@ =~= seq![executor]);
    let promise = i.ask_value(Op::Construct(ctor, ctor), list)?;
    let resolve = read_slot(i, cap, "resolve");
    let reject = read_slot(i, cap, "reject");
    if !resolve.is_callable() || !reject.is_callable() {
        return i.type_error("promise capability functions are not callable");
    }
    Ok(Capability { promise, resolve, reject })
}

/// NewPromiseCapability, for its promise alone.
pub fn new_promise_capability(i: &mut Interp, ctor: Value) -> (r: Result<Value, Value>)
    ensures
        final(i)@ == capability_made(old(i)@, ctor).0,
        match capability_made(old(i)@, ctor).1 {
            Ok(c) => r == Ok::<Value, Value>(c.promise),
            Err(e) => r == Err::<Value, Value>(e),
        },
{
    let c = new_promise_capability_full(i, ctor)?;
    Ok(c.promise)
}

/// Calls a function with one argument; a throw is dropped.
pub open spec fn called_quietly(w: World, f: Value, v: Value) -> World {
    w.call(f, Value::Undefined, seq![v]).0
}

fn call_quietly(i: &mut Interp, f: Value, v: Value)
    ensures
        final(i)@ == called_quietly(old(i)@, f, v),
{
    let list = vec![v];
    assert(list@ =~= seq![v]);
    let _ = i.call(f, Value::Undefined, list);
}

/// The combinators' final call of the resolve function: an abrupt completion rejects.
pub open spec fn resolved_or_rejected(w: World, c: Capability, v: Value) -> World {
    let (w, r) = w.call(c.resolve, Value::Undefined, seq![v]);
    match r {
        Ok(_) => w,
        Err(e) => called_quietly(w, c.reject, e),
    }
}

/// The combinators' final `Call(capability.[[Resolve]])`: an abrupt completion rejects the
/// capability instead of being swallowed (IfAbruptRejectPromise).
pub fn capability_resolve_or_reject(i: &mut Interp, c: Capability, v: Value)
    ensures
        final(i)@ == resolved_or_rejected(old(i)@, c, v),
{
    let list = vec![v];
    assert(list@ =~= seq![v]);
    match i.call(c.resolve, Value::Undefined, list) {
        Ok(_) => {},
        Err(e) => {
            call_quietly(i, c.reject, e);
        },
    }
}

/// PromiseResolveThenableJob. `args = [then, thenable, resolve, reject]`.
pub open spec fn thenable_job(w: World, args: Seq<Value>) -> World {
    let (w, r) = w.call(
        arg_at(args, 0),
        arg_at(args, 1),
        seq![arg_at(args, 2), arg_at(args, 3)],
    );
    match r {
        Ok(_) => w,
        Err(e) => called_quietly(w, arg_at(args, 3), e),
    }
}

/// PromiseResolveThenableJob: invokes `then.call(thenable, res, rej)`, rejecting through `rej` if
/// the call throws.
pub fn thenable_job_run(i: &mut Interp, args: &[Value]) -> (r: Result<Value, Value>)
    ensures
        final(i)@ == thenable_job(old(i)@, args@),
        r == Ok::<Value, Value>(Value::Undefined),
{
    let list = vec![arg(args, 2), arg(args, 3)];
    assert(list@ =~= seq![arg_at(args@, 2), arg_at(args@, 3)]);
    match i.call(arg(args, 0), arg(args, 1), list) {
        Ok(_) => {},
        Err(e) => {
            call_quietly(i, arg(args, 3), e);
        },
    }
    Ok(Value::Undefined)
}

/// A microtask handler that runs PromiseResolveThenableJob.
pub fn make_thenable_job(i: &mut Interp, then: Value, thenable: Value, res: Value, rej: Value) -> (r:
    Value)
    ensures
        (final(i)@, r) == old(i)@.plain(
            Op::NewBound(Native::ThenableJob, 1),
            seq![then, thenable, res, rej],
        ),
{
    let list = vec![then, thenable, res, rej];
    assert(list@ =~= seq![then, thenable, res, rej]);
    i.ask_plain(Op::NewBound(Native::ThenableJob, 1), list)
}

// finally

/// What runs behind a settled promise with an `onFinally`: it is called, its result is resolved
/// through `C`, and the original settlement is passed on.
pub open spec fn finally_run(w: World, args: Seq<Value>, pass: Native) -> Outcome<Value> {
    let c = arg_at(args, 1);
    let (w, result) = w.call(arg_at(args, 0), Value::Undefined, Seq::empty());
    match result {
        Err(e) => (w, Err(e)),
        Ok(result) => {
            let (w, resolve) = w.get(c, Key::Name("resolve"));
            match resolve {
                Err(e) => (w, Err(e)),
                Ok(resolve) => {
                    let (w, p) = w.call(resolve, c, seq![result]);
                    match p {
                        Err(e) => (w, Err(e)),
                        Ok(p) => {
                            let (w, thunk) = w.plain(
                                Op::NewBound(pass, 0),
                                seq![arg_at(args, 2)],
                            );
                            let (w, then) = w.get(p, Key::Name("then"));
                            match then {
                                Err(e) => (w, Err(e)),
                                Ok(then) => w.call(then, p, seq![thunk]),
                            }
                        },
                    }
                },
            }
        },
    }
}

fn run_finally(i: &mut Interp, args: &[Value], pass: Native) -> (r: Result<Value, Value>)
    ensures
        (final(i)@, r) == finally_run(old(i)@, args@, pass),
{
    let c = arg(args, 1);
    let none: Vec<Value> = Vec::new();
    assert(none@ =~= Seq::<Value>::empty());
    let result = i.call(arg(args, 0), Value::Undefined, none)?;
    let resolve = i.get_member(c, Key::Name("resolve"))?;
    let list = vec![result];
    assert(list@ =~= seq![result]);
    let p = i.call(resolve, c, list)?;
    let bound = vec![arg(args, 2)];
    assert(bound@ =~= seq![arg_at(args@, 2)]);
    let thunk = i.ask_plain(Op::NewBound(pass, 0), bound);
    let then = i.get_member(p, Key::Name("then"))?;
    let list = vec![thunk];
    assert(list@ =~= seq![thunk]);
    i.call(then, p, list)
}

/// The fulfilled side of `finally`; `args = [onFinally, C, value]`.
pub fn pf_then_finally(i: &mut Interp, args: &[Value]) -> (r: Result<Value, Value>)
    ensures
        (final(i)@, r) == finally_run(old(i)@, args@, Native::PassValue),
{
    run_finally(i, args, Native::PassValue)
}

/// The rejected side of `finally`; `args = [onFinally, C, reason]`.
pub fn pf_catch_finally(i: &mut Interp, args: &[Value]) -> (r: Result<Value, Value>)
    ensures
        (final(i)@, r) == finally_run(old(i)@, args@, Native::PassReason),
{
    run_finally(i, args, Native::PassReason)
}

/// The value thunk.
pub fn pf_return(args: &[Value]) -> (r: Result<Value, Value>)
    ensures
        r == Ok::<Value, Value>(arg_at(args@, 0)),
{
    Ok(arg(args, 0))
}

/// The thrower.
pub fn pf_throw(args: &[Value]) -> (r: Result<Value, Value>)
    ensures
        r == Err::<Value, Value>(arg_at(args@, 0)),
{
    Err(arg(args, 0))
}

// Constructors

/// SpeciesConstructor.
pub open spec fn species_of(w: World, obj: Value, default_ctor: Value) -> Outcome<Value> {
    let (w, c) = w.get(obj, Key::Name("constructor"));
    match c {
        Err(e) => (w, Err(e)),
        Ok(c) => if c == Value::Undefined {
            (w, Ok(default_ctor))
        } else if !c.object() {
            w.throw(ErrorKind::Type, "constructor is not an object")
        } else {
            let (w, s) = w.get(c, Key::Symbol(WellKnown::Species));
            match s {
                Err(e) => (w, Err(e)),
                Ok(s) => if s.nullish() {
                    (w, Ok(default_ctor))
                } else if !is_ctor(s) {
                    w.throw(ErrorKind::Type, "@@species is not a constructor")
                } else {
                    (w, Ok(s))
                },
            }
        },
    }
}

/// SpeciesConstructor(O, defaultCtor): O.constructor[@@species], or the default.
pub fn species_constructor(i: &mut Interp, obj: Value, default_ctor: Value) -> (r: Result<
    Value,
    Value,
>)
    ensures
        (final(i)@, r) == species_of(old(i)@, obj, default_ctor),
{
    let c = i.get_member(obj, Key::Name("constructor"))?;
    if c.is_undefined() {
        return Ok(default_ctor);
    }
    if !c.is_object() {
        return i.type_error("constructor is not an object");
    }
    let s = i.get_member(c, Key::Symbol(WellKnown::Species))?;
    if s.is_nullish() {
        return Ok(default_ctor);
    }
    if !is_constructor_value(s) {
        return i.type_error("@@species is not a constructor");
    }
    Ok(s)
}

/// GetPromiseResolve.
pub open spec fn resolve_of(w: World, ctor: Value) -> Outcome<Value> {
    let (w, r) = w.get(ctor, Key::Name("resolve"));
    match r {
        Err(e) => (w, Err(e)),
        Ok(r) => if !r.callable() {
            w.throw(ErrorKind::Type, "Promise combinator: this.resolve is not callable")
        } else {
            (w, Ok(r))
        },
    }
}

/// GetPromiseResolve(C): read `C.resolve` once, requiring it to be callable.
pub fn get_promise_resolve(i: &mut Interp, ctor: Value) -> (r: Result<Value, Value>)
    ensures
        (final(i)@, r) == resolve_of(old(i)@, ctor),
{
    let r = i.get_member(ctor, Key::Name("resolve"))?;
    if !r.is_callable() {
        return i.type_error("Promise combinator: this.resolve is not callable");
    }
    Ok(r)
}

// Elements of combinators

/// [[AlreadyCalled]]: whether this element was settled before; from now on it was.
pub open spec fn claimed(w: World, already: Value) -> (World, bool) {
    if !already.object() {
        (w, true)
    } else {
        let (w, c) = slot_read(w, already, "called");
        if c == Value::Bool(true) {
            (w, false)
        } else {
            (slot_written(w, already, "called", Value::Bool(true)), true)
        }
    }
}

fn claim(i: &mut Interp, already: Value) -> (r: bool)
    ensures
        (final(i)@, r) == claimed(old(i)@, already),
{
    if !already.is_object() {
        return true;
    }
    match read_slot(i, already, "called") {
        Value::Bool(true) => false,
        _ => {
            write_slot(i, already, "called", Value::Bool(true));
            true
        },
    }
}

/// A count as a slot holds it.
pub open spec fn count_in(v: Value) -> int {
    match v {
        Value::Num(n) => num::cast_u64(n),
        _ => 0,
    }
}

fn read_count(v: Value) -> (r: u64)
    ensures
        r == count_in(v),
{
    match v {
        Value::Num(n) => num::as_u64(n),
        _ => 0,
    }
}

/// A count as a Number; below zero there is only minus one.
pub open spec fn count_number(n: int) -> Value {
    if n < 0 {
        Value::Num(num::MINUS_ONE)
    } else {
        Value::Num(num::position(n))
    }
}

fn make_count(n: u64) -> (r: Value)
    ensures
        r == count_number(n as int),
{
    if n > num::COUNT_LIMIT {
        Value::Num(num::of_u64(num::COUNT_LIMIT))
    } else {
        Value::Num(num::of_u64(n))
    }
}

/// One element fewer is outstanding; whether it was the last.
pub open spec fn one_fewer(w: World, state: Value) -> (World, bool) {
    let (w, v) = slot_read(w, state, "remaining");
    let n = count_in(v);
    (slot_written(w, state, "remaining", count_number(n - 1)), n == 1)
}

fn count_down(i: &mut Interp, state: Value) -> (r: bool)
    ensures
        (final(i)@, r) == one_fewer(old(i)@, state),
{
    let v = read_slot(i, state, "remaining");
    let n: u64 = read_count(v);
    let next = if n == 0 {
        Value::Num(num::MINUS_ONE)
    } else {
        make_count(n - 1)
    };
    write_slot(i, state, "remaining", next);
    n == 1
}

/// One element more is outstanding.
pub open spec fn one_more(w: World, state: Value) -> World {
    let (w, v) = slot_read(w, state, "remaining");
    slot_written(w, state, "remaining", count_number(count_in(v) + 1))
}

fn count_up(i: &mut Interp, state: Value)
    ensures
        final(i)@ == one_more(old(i)@, state),
{
    let v = read_slot(i, state, "remaining");
    let n: u64 = read_count(v);
    let next = if n >= num::COUNT_LIMIT {
        Value::Num(num::of_u64(num::COUNT_LIMIT))
    } else {
        make_count(n + 1)
    };
    write_slot(i, state, "remaining", next);
}

/// The index that an element carries.
pub open spec fn element_index(v: Value) -> u64 {
    count_in(v) as u64
}

/// `{ status, value }` or `{ status, reason }`.
pub open spec fn status_made(w: World, v: Value, fulfilled: bool) -> (World, Value) {
    let (w, o) = w.plain(Op::NewObject, Seq::empty());
    let (w, s) = w.intern(
        if fulfilled {
            fulfilled_text()
        } else {
            rejected_text()
        },
    );
    let w = stored(w, o, Key::Name("status"), Value::Str(s));
    (
        stored(
            w,
            o,
            if fulfilled {
                Key::Name("value")
            } else {
                Key::Name("reason")
            },
            v,
        ),
        o,
    )
}

/// "fulfilled".
pub open spec fn fulfilled_text() -> Seq<u16> {
    seq![0x66u16, 0x75, 0x6c, 0x66, 0x69, 0x6c, 0x6c, 0x65, 0x64]
}

/// "rejected".
pub open spec fn rejected_text() -> Seq<u16> {
    seq![0x72u16, 0x65, 0x6a, 0x65, 0x63, 0x74, 0x65, 0x64]
}

fn make_status(i: &mut Interp, v: Value, fulfilled: bool) -> (r: Value)
    ensures
        (final(i)@, r) == status_made(old(i)@, v, fulfilled),
{
    let o = i.perform(Op::NewObject);
    if fulfilled {
        let t: Vec<u16> = vec![0x66u16, 0x75, 0x6c, 0x66, 0x69, 0x6c, 0x6c, 0x65, 0x64];
        assert(t@ =~= fulfilled_text());
        let s: u64 = i.intern(t);
        set_data(i, o, Key::Name("status"), Value::Str(s));
        set_data(i, o, Key::Name("value"), v);
    } else {
        let t: Vec<u16> = vec![0x72u16, 0x65, 0x6a, 0x65, 0x63, 0x74, 0x65, 0x64];
        assert(t@ =~= rejected_text());
        let s: u64 = i.intern(t);
        set_data(i, o, Key::Name("status"), Value::Str(s));
        set_data(i, o, Key::Name("reason"), v);
    }
    o
}

/// Stores a payload under the index of its element, and resolves with the array of them when it
/// was the last. `args = [state, index, already, resolve, value]`.
pub open spec fn element_recorded(w: World, args: Seq<Value>, payload: Value) -> Outcome<Value> {
    let state = arg_at(args, 0);
    let (w, results) = slot_read(w, state, "results");
    let w = if results.object() {
        stored(w, results, Key::Index(element_index(arg_at(args, 1))), payload)
    } else {
        w
    };
    let (w, last) = one_fewer(w, state);
    if last {
        let (w, r) = w.call(arg_at(args, 3), Value::Undefined, seq![results]);
        match r {
            Err(e) => (w, Err(e)),
            Ok(_) => (w, Ok(Value::Undefined)),
        }
    } else {
        (w, Ok(Value::Undefined))
    }
}

fn record_element(i: &mut Interp, args: &[Value], payload: Value) -> (r: Result<Value, Value>)
    ensures
        (final(i)@, r) == element_recorded(old(i)@, args@, payload),
{
    let state = arg(args, 0);
    let results = read_slot(i, state, "results");
    if results.is_object() {
        let k: u64 = read_count(arg(args, 1));
        set_data(i, results, Key::Index(k), payload);
    }
    if count_down(i, state) {
        let list = vec![results];
        assert(list@ =~= seq![results]);
        let _ = i.call(arg(args, 3), Value::Undefined, list)?;
    }
    Ok(Value::Undefined)
}

/// `Promise.all`: an element was fulfilled. A second settlement of the same element is a no-op.
pub open spec fn all_element(w: World, args: Seq<Value>) -> Outcome<Value> {
    let (w, first) = claimed(w, arg_at(args, 2));
    if !first {
        (w, Ok(Value::Undefined))
    } else {
        element_recorded(w, args, arg_at(args, 4))
    }
}

/// `Promise.all` per-element fulfill reaction.
pub fn promise_all_element(i: &mut Interp, args: &[Value]) -> (r: Result<Value, Value>)
    ensures
        (final(i)@, r) == all_element(old(i)@, args@),
{
    if !claim(i, arg(args, 2)) {
        return Ok(Value::Undefined);
    }
    record_element(i, args, arg(args, 4))
}

/// `Promise.allSettled`: an element was settled either way.
pub open spec fn settled_element(w: World, args: Seq<Value>, fulfilled: bool) -> Outcome<Value> {
    let (w, first) = claimed(w, arg_at(args, 2));
    if !first {
        (w, Ok(Value::Undefined))
    } else {
        let (w, s) = status_made(w, arg_at(args, 4), fulfilled);
        element_recorded(w, args, s)
    }
}

/// `Promise.allSettled` per-element reaction. The fulfill and reject functions for one index share
/// the [[AlreadyCalled]] record.
pub fn promise_settled(i: &mut Interp, args: &[Value], fulfilled: bool) -> (r: Result<Value, Value>)
    ensures
        (final(i)@, r) == settled_element(old(i)@, args@, fulfilled),
{
    if !claim(i, arg(args, 2)) {
        return Ok(Value::Undefined);
    }
    let s = make_status(i, arg(args, 4), fulfilled);
    record_element(i, args, s)
}

/// `Promise.any`: an element was rejected; the last rejection rejects with all the errors.
pub open spec fn any_rejected(w: World, args: Seq<Value>) -> Outcome<Value> {
    let state = arg_at(args, 0);
    let (w, first) = claimed(w, arg_at(args, 2));
    if !first {
        (w, Ok(Value::Undefined))
    } else {
        let (w, errors) = slot_read(w, state, "errors");
        let (w, p) = w.value(
            Op::Put(errors, Key::Index(element_index(arg_at(args, 1))), arg_at(args, 4)),
            Seq::empty(),
        );
        match p {
            Err(e) => (w, Err(e)),
            Ok(_) => {
                let (w, last) = one_fewer(w, state);
                if !last {
                    (w, Ok(Value::Undefined))
                } else {
                    let (w, agg) = w.value(Op::NewAggregateError(errors), Seq::empty());
                    match agg {
                        Err(e) => (w, Err(e)),
                        Ok(agg) => {
                            let (w, r) = w.call(
                                arg_at(args, 3),
                                Value::Undefined,
                                seq![agg],
                            );
                            match r {
                                Err(e) => (w, Err(e)),
                                Ok(_) => (w, Ok(Value::Undefined)),
                            }
                        },
                    }
                }
            },
        }
    }
}

/// `Promise.any` per-element reject reaction. `args = [state, index, already, reject, reason]`.
pub fn promise_any_reject(i: &mut Interp, args: &[Value]) -> (r: Result<Value, Value>)
    ensures
        (final(i)@, r) == any_rejected(old(i)@, args@),
{
    let state = arg(args, 0);
    if !claim(i, arg(args, 2)) {
        return Ok(Value::Undefined);
    }
    let errors = read_slot(i, state, "errors");
    let k: u64 = read_count(arg(args, 1));
    let _ = i.value_of(Op::Put(errors, Key::Index(k), arg(args, 4)))?;
    if count_down(i, state) {
        let agg = i.value_of(Op::NewAggregateError(errors))?;
        let list = vec![agg];
        assert(list@ =~= seq![agg]);
        let _ = i.call(arg(args, 3), Value::Undefined, list)?;
    }
    Ok(Value::Undefined)
}

// Keyed combinators

/// The recorded values from `k` on, stored under their keys.
pub open spec fn keyed_from(
    w: World,
    out: Value,
    keys: Value,
    values: Value,
    len: int,
    k: int,
) -> Outcome<Value>
    decreases len - k,
{
    if k < 0 || k >= len {
        (w, Ok(out))
    } else {
        let (w, kv) = w.get(keys, Key::Index(k as u64));
        match kv {
            Err(e) => (w, Err(e)),
            Ok(kv) => {
                let (w, key) = w.key(kv);
                match key {
                    Err(e) => (w, Err(e)),
                    Ok(key) => {
                        let (w, v) = w.get(values, Key::Index(k as u64));
                        match v {
                            Err(e) => (w, Err(e)),
                            Ok(v) => keyed_from(
                                stored(w, out, Key::Of(key), v),
                                out,
                                keys,
                                values,
                                len,
                                k + 1,
                            ),
                        }
                    },
                }
            },
        }
    }
}

/// The keyed combinator's result: a null-prototype object with the recorded values in key order.
pub open spec fn keyed_result(w: World, state: Value) -> Outcome<Value> {
    let (w, keys) = slot_read(w, state, "keys");
    let (w, values) = slot_read(w, state, "values");
    let (w, n) = w.get(keys, Key::Name("length"));
    match n {
        Err(e) => (w, Err(e)),
        Ok(n) => {
            let (w, out) = w.plain(Op::NewWithPrototype(Value::Null), Seq::empty());
            keyed_from(w, out, keys, values, count_in(n), 0)
        },
    }
}

/// Assemble the keyed combinator's result.
pub fn promise_keyed_result(i: &mut Interp, state: Value) -> (r: Result<Value, Value>)
    ensures
        (final(i)@, r) == keyed_result(old(i)@, state),
{
    let keys = read_slot(i, state, "keys");
    let values = read_slot(i, state, "values");
    let n = i.get_member(keys, Key::Name("length"))?;
    let len: u64 = read_count(n);
    let out = i.perform(Op::NewWithPrototype(Value::Null));
    let mut k: u64 = 0;
    while k < len
        invariant
            k <= len,
            keyed_result(old(i)@, state) == keyed_from(
                i@,
                out,
                keys,
                values,
                len as int,
                k as int,
            ),
        decreases len - k,
    {
        let kv = i.get_member(keys, Key::Index(k))?;
        let key = i.to_key(kv)?;
        let v = i.get_member(values, Key::Index(k))?;
        set_data(i, out, Key::Of(key), v);
        k += 1;
    }
    Ok(out)
}

/// Shared bookkeeping of the keyed combinators: the last settlement assembles and resolves the
/// keyed result. `args = [state, index, already, resolve, value]`.
pub open spec fn keyed_recorded(w: World, args: Seq<Value>, payload: Value) -> Outcome<Value> {
    let state = arg_at(args, 0);
    let (w, first) = claimed(w, arg_at(args, 2));
    if !first {
        (w, Ok(Value::Undefined))
    } else {
        let (w, values) = slot_read(w, state, "values");
        let w = if values.object() {
            stored(w, values, Key::Index(element_index(arg_at(args, 1))), payload)
        } else {
            w
        };
        let (w, last) = one_fewer(w, state);
        if !last {
            (w, Ok(Value::Undefined))
        } else {
            let (w, out) = keyed_result(w, state);
            match out {
                Err(e) => (w, Err(e)),
                Ok(out) => {
                    let (w, r) = w.call(arg_at(args, 3), Value::Undefined, seq![out]);
                    match r {
                        Err(e) => (w, Err(e)),
                        Ok(_) => (w, Ok(Value::Undefined)),
                    }
                },
            }
        }
    }
}

pub fn promise_keyed_record(i: &mut Interp, args: &[Value], payload: Value) -> (r: Result<
    Value,
    Value,
>)
    ensures
        (final(i)@, r) == keyed_recorded(old(i)@, args@, payload),
{
    let state = arg(args, 0);
    if !claim(i, arg(args, 2)) {
        return Ok(Value::Undefined);
    }
    let values = read_slot(i, state, "values");
    if values.is_object() {
        let k: u64 = read_count(arg(args, 1));
        set_data(i, values, Key::Index(k), payload);
    }
    if count_down(i, state) {
        let out = promise_keyed_result(i, state)?;
        let list = vec![out];
        assert(list@ =~= seq![out]);
        let _ = i.call(arg(args, 3), Value::Undefined, list)?;
    }
    Ok(Value::Undefined)
}

/// `Promise.allKeyed` per-element reaction.
pub fn promise_keyed_element(i: &mut Interp, args: &[Value]) -> (r: Result<Value, Value>)
    ensures
        (final(i)@, r) == keyed_recorded(old(i)@, args@, arg_at(args@, 4)),
{
    promise_keyed_record(i, args, arg(args, 4))
}

/// `Promise.allSettledKeyed`: an element was settled either way.
pub open spec fn keyed_settled(w: World, args: Seq<Value>, fulfilled: bool) -> Outcome<Value> {
    let (w, s) = status_made(w, arg_at(args, 4), fulfilled);
    keyed_recorded(w, args, s)
}

/// `Promise.allSettledKeyed` per-element reaction.
pub fn promise_keyed_settle(i: &mut Interp, args: &[Value], fulfilled: bool) -> (r: Result<
    Value,
    Value,
>)
    ensures
        (final(i)@, r) == keyed_settled(old(i)@, args@, fulfilled),
{
    let s = make_status(i, arg(args, 4), fulfilled);
    promise_keyed_record(i, args, s)
}

/// The enumerable string keys among the keys from `k` on.
pub open spec fn enumerable_keys(
    w: World,
    input: Value,
    keys: Seq<Value>,
    k: int,
    out: Seq<Value>,
) -> Outcome<Seq<Value>>
    decreases keys.len() - k,
{
    if k < 0 || k >= keys.len() {
        (w, Ok(out))
    } else if !(keys[k] is Str) {
        enumerable_keys(w, input, keys, k + 1, out)
    } else {
        let (w, p) = own_property_of(w, input, keys[k]);
        match p {
            Err(e) => (w, Err(e)),
            Ok(p) => enumerable_keys(
                w,
                input,
                keys,
                k + 1,
                match p {
                    Some(p) => if p.enumerable {
                        out.push(keys[k])
                    } else {
                        out
                    },
                    None => out,
                },
            ),
        }
    }
}

/// The keys of the input that take part: its enumerable own string keys.
pub open spec fn input_keys(w: World, input: Value) -> Outcome<Seq<Value>> {
    let (w, keys) = own_keys_of(w, input);
    match keys {
        Err(e) => (w, Err(e)),
        Ok(keys) => enumerable_keys(w, input, keys, 0, Seq::empty()),
    }
}

fn read_input_keys(i: &mut Interp, input: Value) -> (r: Result<Vec<Value>, Value>)
    ensures
        final(i)@ == input_keys(old(i)@, input).0,
        match r {
            Ok(l) => input_keys(old(i)@, input).1 == Ok::<Seq<Value>, Value>(l@),
            Err(e) => input_keys(old(i)@, input).1 == Err::<Seq<Value>, Value>(e),
        },
{
    let keys = js_own_keys(i, input)?;
    let mut out: Vec<Value> = Vec::new();
    let mut k: usize = 0;
    assert(out@ =~= Seq::<Value>::empty());
    while k < keys.len()
        invariant
            k <= keys@.len(),
            input_keys(old(i)@, input) == enumerable_keys(i@, input, keys@, k as int, out@),
        decreases keys@.len() - k,
    {
        let text = match keys[k] {
            Value::Str(_) => true,
            _ => false,
        };
        if text {
            match js_own_property(i, input, keys[k])? {
                Some(p) => {
                    if p.enumerable {
                        out.push(keys[k]);
                    }
                },
                None => {},
            }
        }
        k += 1;
    }
    Ok(out)
}

/// Only string keys take part, whatever the input is.
pub proof fn law_only_string_keys_take_part(
    w: World,
    input: Value,
    keys: Seq<Value>,
    k: int,
    out: Seq<Value>,
)
    requires
        forall|j: int| 0 <= j < out.len() ==> (#[trigger] out[j]) is Str,
    ensures
        enumerable_keys(w, input, keys, k, out).1 matches Ok(l) ==> forall|j: int|
            0 <= j < l.len() ==> (#[trigger] l[j]) is Str,
    decreases keys.len() - k,
{
    if 0 <= k < keys.len() {
        if !(keys[k] is Str) {
            law_only_string_keys_take_part(w, input, keys, k + 1, out);
        } else {
            let (w1, p) = own_property_of(w, input, keys[k]);
            if let Ok(p) = p {
                if p is Some && p->0.enumerable {
                    law_only_string_keys_take_part(w1, input, keys, k + 1, out.push(keys[k]));
                } else {
                    law_only_string_keys_take_part(w1, input, keys, k + 1, out);
                }
            }
        }
    }
}

/// The two reactions of an element.
pub open spec fn keyed_reactions(
    w: World,
    state: Value,
    k: int,
    already: Value,
    c: Capability,
    settled: bool,
) -> (World, Value, Value) {
    let bound = seq![state, Value::Num(num::position(k)), already, c.resolve];
    if settled {
        let (w, f) = w.plain(Op::NewBound(Native::KeyedFulfilled, 1), bound);
        let (w, r) = w.plain(Op::NewBound(Native::KeyedRejected, 1), bound);
        (w, f, r)
    } else {
        let (w, f) = w.plain(Op::NewBound(Native::KeyedElement, 1), bound);
        (w, f, c.reject)
    }
}

fn bound_args(state: Value, k: usize, already: Value, c: Capability) -> (r: Vec<Value>)
    ensures
        r@ == seq![state, Value::Num(num::position(k as int)), already, c.resolve],
{
    let v = vec![state, Value::Num(num::of_position(k)), already, c.resolve];
    assert(v@ =~= seq![state, Value::Num(num::position(k as int)), already, c.resolve]);
    v
}

fn make_keyed_reactions(
    i: &mut Interp,
    state: Value,
    k: usize,
    already: Value,
    c: Capability,
    settled: bool,
) -> (r: (Value, Value))
    ensures
        (final(i)@, r.0, r.1) == keyed_reactions(old(i)@, state, k as int, already, c, settled),
{
    let bound = bound_args(state, k, already, c);
    if settled {
        let f = i.ask_plain(Op::NewBound(Native::KeyedFulfilled, 1), bound);
        let again = bound_args(state, k, already, c);
        let r = i.ask_plain(Op::NewBound(Native::KeyedRejected, 1), again);
        (f, r)
    } else {
        let f = i.ask_plain(Op::NewBound(Native::KeyedElement, 1), bound);
        (f, c.reject)
    }
}

/// One element: its value is resolved through `C.resolve` and gets its reactions.
pub open spec fn element_attached(
    w: World,
    ctor: Value,
    resolve: Value,
    input: Value,
    key: Value,
    k: int,
    state: Value,
    c: Capability,
    settled: bool,
) -> Outcome<()> {
    let (w, v) = w.get(input, Key::Of(key));
    match v {
        Err(e) => (w, Err(e)),
        Ok(v) => {
            let w = one_more(w, state);
            let (w, p) = w.call(resolve, ctor, seq![v]);
            match p {
                Err(e) => (w, Err(e)),
                Ok(p) => {
                    let (w, already) = w.plain(Op::NewObject, Seq::empty());
                    let w = slot_written(w, already, "called", Value::Bool(false));
                    let (w, f, r) = keyed_reactions(w, state, k, already, c, settled);
                    let (w, then) = w.get(p, Key::Name("then"));
                    match then {
                        Err(e) => (w, Err(e)),
                        Ok(then) => {
                            let (w, t) = w.call(then, p, seq![f, r]);
                            match t {
                                Err(e) => (w, Err(e)),
                                Ok(_) => (w, Ok(())),
                            }
                        },
                    }
                },
            }
        },
    }
}

fn attach_element(
    i: &mut Interp,
    ctor: Value,
    resolve: Value,
    input: Value,
    key: Value,
    k: usize,
    state: Value,
    c: Capability,
    settled: bool,
) -> (r: Result<(), Value>)
    ensures
        (final(i)@, r) == element_attached(
            old(i)@,
            ctor,
            resolve,
            input,
            key,
            k as int,
            state,
            c,
            settled,
        ),
{
    let v = i.get_member(input, Key::Of(key))?;
    count_up(i, state);
    let list = vec![v];
    assert(list@ =~= seq![v]);
    let p = i.call(resolve, ctor, list)?;
    let already = i.perform(Op::NewObject);
    write_slot(i, already, "called", Value::Bool(false));
    let fr = make_keyed_reactions(i, state, k, already, c, settled);
    let then = i.get_member(p, Key::Name("then"))?;
    let list = vec![fr.0, fr.1];
    assert(list@ =~= seq![fr.0, fr.1]);
    let _ = i.call(then, p, list)?;
    Ok(())
}

/// The elements from `k` on.
pub open spec fn elements_attached(
    w: World,
    ctor: Value,
    resolve: Value,
    input: Value,
    keys: Seq<Value>,
    k: int,
    state: Value,
    c: Capability,
    settled: bool,
) -> Outcome<()>
    decreases keys.len() - k,
{
    if k < 0 || k >= keys.len() {
        (w, Ok(()))
    } else {
        let (w, r) = element_attached(w, ctor, resolve, input, keys[k], k, state, c, settled);
        match r {
            Err(e) => (w, Err(e)),
            Ok(_) => elements_attached(w, ctor, resolve, input, keys, k + 1, state, c, settled),
        }
    }
}

fn attach_elements(
    i: &mut Interp,
    ctor: Value,
    resolve: Value,
    input: Value,
    keys: &Vec<Value>,
    state: Value,
    c: Capability,
    settled: bool,
) -> (r: Result<(), Value>)
    ensures
        (final(i)@, r) == elements_attached(
            old(i)@,
            ctor,
            resolve,
            input,
            keys@,
            0,
            state,
            c,
            settled,
        ),
{
    let mut k: usize = 0;
    while k < keys.len()
        invariant
            k <= keys@.len(),
            elements_attached(old(i)@, ctor, resolve, input, keys@, 0, state, c, settled)
                == elements_attached(
                i@,
                ctor,
                resolve,
                input,
                keys@,
                k as int,
                state,
                c,
                settled,
            ),
        decreases keys@.len() - k,
    {
        attach_element(i, ctor, resolve, input, keys[k], k, state, c, settled)?;
        k += 1;
    }
    Ok(())
}

/// `n` times undefined.
pub open spec fn unset(n: int) -> Seq<Value> {
    Seq::new(n as nat, |j: int| Value::Undefined)
}

fn make_unset(n: usize) -> (r: Vec<Value>)
    ensures
        r@ == unset(n as int),
{
    let mut v: Vec<Value> = Vec::new();
    while v.len() < n
        invariant
            v@.len() <= n,
            forall|j: int| 0 <= j < v@.len() ==> #[trigger] v@[j] == Value::Undefined,
        decreases n - v@.len(),
    {
        v.push(Value::Undefined);
    }
    assert(v@ =~= unset(n as int));
    v
}

/// A fresh state: one more than the elements is outstanding until all are attached.
pub open spec fn keyed_state(w: World, keys: Seq<Value>) -> (World, Value) {
    let (w, state) = w.plain(Op::NewObject, Seq::empty());
    let (w, values) = w.plain(Op::NewArray, unset(keys.len() as int));
    let (w, names) = w.plain(Op::NewArray, keys);
    let w = slot_written(w, state, "values", values);
    let w = slot_written(w, state, "keys", names);
    (slot_written(w, state, "remaining", count_number(1)), state)
}

fn make_keyed_state(i: &mut Interp, keys: &Vec<Value>) -> (r: Value)
    ensures
        (final(i)@, r) == keyed_state(old(i)@, keys@),
{
    let state = i.perform(Op::NewObject);
    let blank = make_unset(keys.len());
    let values = i.make_array(blank);
    let names = i.make_array(crate::object::copy_list(keys));
    write_slot(i, state, "values", values);
    write_slot(i, state, "keys", names);
    write_slot(i, state, "remaining", make_count(1));
    state
}

/// Everything between the capability and the result; an error here rejects the promise.
pub open spec fn keyed_body(
    w: World,
    ctor: Value,
    input: Value,
    c: Capability,
    settled: bool,
) -> Outcome<Value> {
    let (w, resolve) = resolve_of(w, ctor);
    match resolve {
        Err(e) => (w, Err(e)),
        Ok(resolve) => if !input.object() {
            w.throw(ErrorKind::Type, "argument must be an object")
        } else {
            let (w, keys) = input_keys(w, input);
            match keys {
                Err(e) => (w, Err(e)),
                Ok(keys) => {
                    let (w, state) = keyed_state(w, keys);
                    let (w, r) = elements_attached(
                        w,
                        ctor,
                        resolve,
                        input,
                        keys,
                        0,
                        state,
                        c,
                        settled,
                    );
                    match r {
                        Err(e) => (w, Err(e)),
                        Ok(_) => (w, Ok(state)),
                    }
                },
            }
        },
    }
}

fn run_keyed_body(i: &mut Interp, ctor: Value, input: Value, c: Capability, settled: bool) -> (r:
    Result<Value, Value>)
    ensures
        (final(i)@, r) == keyed_body(old(i)@, ctor, input, c, settled),
{
    let resolve = get_promise_resolve(i, ctor)?;
    if !input.is_object() {
        return i.type_error("argument must be an object");
    }
    let keys = read_input_keys(i, input)?;
    let state = make_keyed_state(i, &keys);
    attach_elements(i, ctor, resolve, input, &keys, state, c, settled)?;
    Ok(state)
}

/// `Promise.allKeyed` and `Promise.allSettledKeyed`.
pub open spec fn keyed_combined(w: World, ctor: Value, input: Value, settled: bool) -> Outcome<Value> {
    let (w, c) = capability_made(w, ctor);
    match c {
        Err(e) => (w, Err(e)),
        Ok(c) => {
            let (w, state) = keyed_body(w, ctor, input, c, settled);
            match state {
                Err(e) => (called_quietly(w, c.reject, e), Ok(c.promise)),
                Ok(state) => {
                    let (w, last) = one_fewer(w, state);
                    if last {
                        let (w, out) = keyed_result(w, state);
                        match out {
                            Err(e) => (w, Err(e)),
                            Ok(out) => (resolved_or_rejected(w, c, out), Ok(c.promise)),
                        }
                    } else {
                        (w, Ok(c.promise))
                    }
                },
            }
        },
    }
}

/// Promise.allKeyed / Promise.allSettledKeyed: iterate the input object's enumerable own string keys
/// ([[OwnPropertyKeys]] + [[GetOwnProperty]]), resolve each value through C.resolve, and settle
/// with a key-ordered plain result object.
pub fn promise_keyed_combinator(i: &mut Interp, t: Value, input: Value, settled: bool) -> (r: Result<
    Value,
    Value,
>)
    ensures
        (final(i)@, r) == keyed_combined(old(i)@, t, input, settled),
{
    let c = new_promise_capability_full(i, t)?;
    match run_keyed_body(i, t, input, c, settled) {
        Err(e) => {
            call_quietly(i, c.reject, e);
            Ok(c.promise)
        },
        Ok(state) => {
            if count_down(i, state) {
                let out = promise_keyed_result(i, state)?;
                capability_resolve_or_reject(i, c, out);
            }
            Ok(c.promise)
        },
    }
}

/// An element that was settled before is left alone: nothing is recorded and nothing is called.
pub proof fn law_second_settlement_is_ignored(w: World, args: Seq<Value>, payload: Value, fulfilled: bool)
    requires
        arg_at(args, 2).object(),
        slot_read(w, arg_at(args, 2), "called").1 == Value::Bool(true),
    ensures
        ({
            let after = slot_read(w, arg_at(args, 2), "called").0;
            &&& all_element(w, args) == (after, Ok::<Value, Value>(Value::Undefined))
            &&& settled_element(w, args, fulfilled) == (after, Ok::<Value, Value>(Value::Undefined))
            &&& any_rejected(w, args) == (after, Ok::<Value, Value>(Value::Undefined))
            &&& keyed_recorded(w, args, payload) == (after, Ok::<Value, Value>(Value::Undefined))
        }),
{
}

} // verus!
