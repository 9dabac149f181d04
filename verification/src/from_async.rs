//! `Array.fromAsync`: an explicit state machine that is parked at each Await.
use vstd::layout::size_of;
use vstd::prelude::*;
use crate::array::{is_constructor_value, is_ctor, length_put, set_length_throw};
use crate::interp::{ErrorKind, Interp, Key, Op, Outcome, Reaction, Resume, Value, WellKnown, World};
use crate::num;
use crate::object::{object_for, to_object_arg};
use crate::proxy::{length_of, to_length};

verus! {

/// How a computation hands control back.
#[derive(Clone, Copy, PartialEq, Eq, Structural, Debug)]
pub enum Suspend {
    Await(Value),
    Done(Value),
    Throw(Value),
}

#[derive(Clone, Copy, PartialEq, Eq, Structural, Debug)]
pub struct FromAsyncIter {
    pub array: Value,
    pub iterator: Value,
    pub next: Value,
    pub mapper: Value,
    pub this_arg: Value,
    pub index: u64,
    /// The iterator is a synchronous one in its asynchronous wrapper.
    pub from_sync: bool,
}

#[derive(Clone, Copy, PartialEq, Eq, Structural, Debug)]
pub struct FromAsyncArrayLike {
    pub array: Value,
    pub source: Value,
    pub mapper: Value,
    pub this_arg: Value,
    pub index: u64,
    pub length: u64,
}

#[derive(Clone, Copy, PartialEq, Eq, Structural, Debug)]
pub enum FromAsyncStage {
    Start { ctor: Value, source: Value, mapper: Value, this_arg: Value },
    IteratorNext(FromAsyncIter),
    IteratorResult(FromAsyncIter),
    IteratorMapped(FromAsyncIter),
    ArrayLikeNext(FromAsyncArrayLike),
    ArrayLikeValue(FromAsyncArrayLike),
    ArrayLikeMapped(FromAsyncArrayLike),
    Closing { error: Value, iterator: Value },
    Done,
}

impl FromAsyncStage {
    /// Counts stay in the range in which every integer is a Number.
    pub open spec fn wf(self) -> bool {
        match self {
            FromAsyncStage::IteratorNext(s) => s.index <= num::MAX_SAFE,
            FromAsyncStage::IteratorResult(s) => s.index < num::MAX_SAFE,
            FromAsyncStage::IteratorMapped(s) => s.index < num::MAX_SAFE,
            FromAsyncStage::ArrayLikeNext(s) => s.index <= s.length <= num::MAX_SAFE,
            FromAsyncStage::ArrayLikeValue(s) => s.index < s.length <= num::MAX_SAFE,
            FromAsyncStage::ArrayLikeMapped(s) => s.index < s.length <= num::MAX_SAFE,
            _ => true,
        }
    }
}

/// `Array.fromAsync` is specified as an async function, but it is a built-in rather than source
/// text a compiler can lower; this is its execution context.
#[derive(Clone, Copy, PartialEq, Eq, Structural, Debug)]
pub struct FromAsyncCoro {
    pub stage: FromAsyncStage,
    pub started: bool,
    pub done: bool,
}

/// What a run leaves: the transcript, the stage to go on from, and how it handed control back.
pub type Ran = (World, FromAsyncStage, Suspend);

// Synchronous iterators in asynchronous clothes

/// Rejects a promise, which is the result.
pub open spec fn rejected(w: World, promise: Value, reason: Value) -> (World, Value) {
    let (w, _) = w.plain(Op::RejectPromise(promise, reason), Seq::empty());
    (w, promise)
}

fn reject(i: &mut Interp, promise: Value, reason: Value) -> (r: Value)
    ensures
        (final(i)@, r) == rejected(old(i)@, promise, reason),
{
    let _ = i.perform(Op::RejectPromise(promise, reason));
    promise
}

/// The `done` flag and the value of an iterator result.
pub open spec fn result_parts(w: World, result: Value) -> Outcome<(bool, Value)> {
    let (w, d) = w.get(result, Key::Name("done"));
    match d {
        Err(e) => (w, Err(e)),
        Ok(d) => {
            let done = w.truthy(d);
            let (w, v) = w.get(result, Key::Name("value"));
            match v {
                Err(e) => (w, Err(e)),
                Ok(v) => (w, Ok((done, v))),
            }
        },
    }
}

fn read_result_parts(i: &mut Interp, result: Value) -> (r: Result<(bool, Value), Value>)
    ensures
        (final(i)@, r) == result_parts(old(i)@, result),
{
    let d = i.get_member(result, Key::Name("done"))?;
    let done = i.to_boolean(d);
    let v = i.get_member(result, Key::Name("value"))?;
    Ok((done, v))
}

/// AsyncFromSyncIteratorContinuation: the yielded value is awaited, and a rejection of it closes
/// the iterator where one is given.
pub open spec fn continued(
    w: World,
    promise: Value,
    result: Value,
    complaint: &'static str,
    closing: Option<Value>,
) -> (World, Value) {
    if !result.object() {
        let (w, e) = w.plain(Op::NewError(ErrorKind::Type, complaint), Seq::empty());
        rejected(w, promise, e)
    } else {
        let (w, parts) = result_parts(w, result);
        match parts {
            Err(e) => rejected(w, promise, e),
            Ok(parts) => {
                let (w, wrapper) = w.value(Op::PromiseFor(parts.1), Seq::empty());
                let closing = if parts.0 {
                    None
                } else {
                    closing
                };
                match wrapper {
                    Err(e) => {
                        let w = match closing {
                            Some(it) => w.plain(Op::Close(it), Seq::empty()).0,
                            None => w,
                        };
                        rejected(w, promise, e)
                    },
                    Ok(wrapper) => {
                        let on_rejected = match closing {
                            Some(it) => Reaction::CloseAndReject(it),
                            None => Reaction::Absent,
                        };
                        let (w, _) = w.plain(
                            Op::PromiseThen(
                                wrapper,
                                Reaction::Unwrap(parts.0),
                                on_rejected,
                                promise,
                            ),
                            Seq::empty(),
                        );
                        (w, promise)
                    },
                }
            },
        }
    }
}

fn continue_with(
    i: &mut Interp,
    promise: Value,
    result: Value,
    complaint: &'static str,
    closing: Option<Value>,
) -> (r: Value)
    ensures
        (final(i)@, r) == continued(old(i)@, promise, result, complaint, closing),
{
    if !result.is_object() {
        let e = i.make_error(ErrorKind::Type, complaint);
        return reject(i, promise, e);
    }
    let parts = match read_result_parts(i, result) {
        Ok(parts) => parts,
        Err(e) => {
            return reject(i, promise, e);
        },
    };
    let closing: Option<Value> = if parts.0 {
        None
    } else {
        closing
    };
    match i.value_of(Op::PromiseFor(parts.1)) {
        Err(e) => {
            match closing {
                Some(it) => {
                    i.iterator_close(it);
                },
                None => {},
            }
            reject(i, promise, e)
        },
        Ok(wrapper) => {
            let on_rejected = match closing {
                Some(it) => Reaction::CloseAndReject(it),
                None => Reaction::Absent,
            };
            let _ = i.perform(
                Op::PromiseThen(wrapper, Reaction::Unwrap(parts.0), on_rejected, promise),
            );
            promise
        },
    }
}

/// %AsyncFromSyncIteratorPrototype%.next.
pub open spec fn sync_next(w: World, iterator: Value, next: Value) -> (World, Value) {
    let (w, promise) = w.plain(Op::NewPromise, Seq::empty());
    let (w, result) = w.call(next, iterator, Seq::empty());
    match result {
        Err(e) => rejected(w, promise, e),
        Ok(result) => continued(
            w,
            promise,
            result,
            "iterator result is not an object",
            Some(iterator),
        ),
    }
}

/// Emulate %AsyncFromSyncIteratorPrototype%.next plus AsyncFromSyncIteratorContinuation, returning
/// its intrinsic promise for the outer Array.fromAsync Await.
pub fn from_async_sync_next(i: &mut Interp, iterator: Value, next: Value) -> (r: Value)
    ensures
        (final(i)@, r) == sync_next(old(i)@, iterator, next),
{
    let promise = i.perform(Op::NewPromise);
    let none: Vec<Value> = Vec::new();
    assert(none@ =~= Seq::<Value>::empty());
    match i.call(next, iterator, none) {
        Err(e) => reject(i, promise, e),
        Ok(result) => continue_with(
            i,
            promise,
            result,
            "iterator result is not an object",
            Some(iterator),
        ),
    }
}

/// %AsyncFromSyncIteratorPrototype%.return().
pub open spec fn sync_closed(w: World, iterator: Value) -> (World, Value) {
    let (w, promise) = w.plain(Op::NewPromise, Seq::empty());
    let (w, m) = w.get(iterator, Key::Name("return"));
    match m {
        Err(e) => rejected(w, promise, e),
        Ok(m) => if m.nullish() {
            let (w, r) = w.plain(Op::NewIterResult(Value::Undefined, true), Seq::empty());
            let (w, _) = w.plain(Op::ResolvePromise(promise, r), Seq::empty());
            (w, promise)
        } else if !m.callable() {
            let (w, e) = w.plain(
                Op::NewError(ErrorKind::Type, "iterator return method is not callable"),
                Seq::empty(),
            );
            rejected(w, promise, e)
        } else {
            let (w, result) = w.call(m, iterator, Seq::empty());
            match result {
                Err(e) => rejected(w, promise, e),
                Ok(result) => continued(
                    w,
                    promise,
                    result,
                    "iterator return result is not an object",
                    None,
                ),
            }
        },
    }
}

/// %AsyncFromSyncIteratorPrototype%.return() for AsyncIteratorClose: a rejection of the returned
/// value does not close the iterator again.
pub fn from_async_sync_close(i: &mut Interp, iterator: Value) -> (r: Value)
    ensures
        (final(i)@, r) == sync_closed(old(i)@, iterator),
{
    let promise = i.perform(Op::NewPromise);
    let m = match i.get_member(iterator, Key::Name("return")) {
        Ok(m) => m,
        Err(e) => {
            return reject(i, promise, e);
        },
    };
    if m.is_nullish() {
        let r = i.perform(Op::NewIterResult(Value::Undefined, true));
        let _ = i.perform(Op::ResolvePromise(promise, r));
        return promise;
    }
    if !m.is_callable() {
        let e = i.make_error(ErrorKind::Type, "iterator return method is not callable");
        return reject(i, promise, e);
    }
    let none: Vec<Value> = Vec::new();
    assert(none@ =~= Seq::<Value>::empty());
    match i.call(m, iterator, none) {
        Err(e) => reject(i, promise, e),
        Ok(result) => continue_with(
            i,
            promise,
            result,
            "iterator return result is not an object",
            None,
        ),
    }
}

/// AsyncFromSyncIteratorContinuation's unwrap closure: package the awaited value with the saved
/// `done` flag into a fresh iterator result.
pub fn from_async_sync_unwrap(i: &mut Interp, done: bool, value: Value) -> (r: Result<Value, Value>)
    ensures
        (final(i)@, r) == old(i)@.iter_result(value, done),
{
    i.iter_result(value, done)
}

/// AsyncFromSyncIteratorContinuation's closeOnRejection closure. IteratorClose receives a throw
/// completion, so close failures are discarded and the yielded-value rejection remains primary.
pub fn from_async_sync_reject(i: &mut Interp, iterator: Value, reason: Value) -> (r: Result<
    Value,
    Value,
>)
    ensures
        (final(i)@, r) == old(i)@.close_and_throw::<Value>(iterator, reason),
{
    i.iterator_close(iterator);
    Err(reason)
}

// Starting

/// GetMethod with a well-known iterator key.
pub open spec fn iterator_method(w: World, source: Value, sym: WellKnown) -> Outcome<Value> {
    let (w, m) = w.get(source, Key::Symbol(sym));
    match m {
        Err(e) => (w, Err(e)),
        Ok(m) => if m.nullish() {
            (w, Ok(Value::Undefined))
        } else if m.callable() {
            (w, Ok(m))
        } else {
            w.throw(ErrorKind::Type, "iterator method is not callable")
        },
    }
}

pub fn from_async_get_method(i: &mut Interp, source: Value, sym: WellKnown) -> (r: Result<
    Value,
    Value,
>)
    ensures
        (final(i)@, r) == iterator_method(old(i)@, source, sym),
{
    let m = i.get_member(source, Key::Symbol(sym))?;
    if m.is_nullish() {
        Ok(Value::Undefined)
    } else if m.is_callable() {
        Ok(m)
    } else {
        i.type_error("iterator method is not callable")
    }
}

/// Both methods: the synchronous one is only asked for where there is no asynchronous one.
pub open spec fn iterator_methods(w: World, source: Value) -> Outcome<(Value, bool)> {
    let (w, m) = iterator_method(w, source, WellKnown::AsyncIterator);
    match m {
        Err(e) => (w, Err(e)),
        Ok(m) => if m.callable() {
            (w, Ok((m, false)))
        } else {
            let (w, s) = iterator_method(w, source, WellKnown::Iterator);
            match s {
                Err(e) => (w, Err(e)),
                Ok(s) => (w, Ok((s, true))),
            }
        },
    }
}

fn read_iterator_methods(i: &mut Interp, source: Value) -> (r: Result<(Value, bool), Value>)
    ensures
        (final(i)@, r) == iterator_methods(old(i)@, source),
{
    let m = from_async_get_method(i, source, WellKnown::AsyncIterator)?;
    if m.is_callable() {
        return Ok((m, false));
    }
    let s = from_async_get_method(i, source, WellKnown::Iterator)?;
    Ok((s, true))
}

/// The array to fill: constructed where the receiver is a constructor.
pub open spec fn target_made(w: World, ctor: Value, args: Seq<Value>) -> Outcome<Value> {
    if is_ctor(ctor) {
        w.value(Op::Construct(ctor, ctor), args)
    } else {
        let (w, a) = w.plain(Op::NewArray, Seq::empty());
        (w, Ok(a))
    }
}

fn make_target(i: &mut Interp, ctor: Value, args: Vec<Value>) -> (r: Result<Value, Value>)
    ensures
        (final(i)@, r) == target_made(old(i)@, ctor, args@),
{
    if is_constructor_value(ctor) {
        i.ask_value(Op::Construct(ctor, ctor), args)
    } else {
        let none: Vec<Value> = Vec::new();
        assert(none@ =~= Seq::<Value>::empty());
        Ok(i.make_array(none))
    }
}

/// Starts from an iterable source.
pub open spec fn iterating(
    w: World,
    ctor: Value,
    source: Value,
    mapper: Value,
    this_arg: Value,
    method: Value,
    from_sync: bool,
) -> Outcome<FromAsyncStage> {
    let (w, iterator) = w.call(method, source, Seq::empty());
    match iterator {
        Err(e) => (w, Err(e)),
        Ok(iterator) => if !iterator.object() {
            w.throw(ErrorKind::Type, "iterator method returned a non-object")
        } else {
            let (w, next) = w.get(iterator, Key::Name("next"));
            match next {
                Err(e) => (w, Err(e)),
                Ok(next) => {
                    let (w, array) = target_made(w, ctor, Seq::empty());
                    match array {
                        Err(e) => (w, Err(e)),
                        Ok(array) => (
                            w,
                            Ok(
                                FromAsyncStage::IteratorNext(
                                    FromAsyncIter {
                                        array,
                                        iterator,
                                        next,
                                        mapper,
                                        this_arg,
                                        index: 0,
                                        from_sync,
                                    },
                                ),
                            ),
                        ),
                    }
                },
            }
        },
    }
}

fn start_iterating(
    i: &mut Interp,
    ctor: Value,
    source: Value,
    mapper: Value,
    this_arg: Value,
    method: Value,
    from_sync: bool,
) -> (r: Result<FromAsyncStage, Value>)
    ensures
        (final(i)@, r) == iterating(old(i)@, ctor, source, mapper, this_arg, method, from_sync),
        r matches Ok(s) ==> s.wf(),
{
    let none: Vec<Value> = Vec::new();
    assert(none@ =~= Seq::<Value>::empty());
    let iterator = i.call(method, source, none)?;
    if !iterator.is_object() {
        return i.type_error("iterator method returned a non-object");
    }
    let next = i.get_member(iterator, Key::Name("next"))?;
    let empty: Vec<Value> = Vec::new();
    assert(empty@ =~= Seq::<Value>::empty());
    let array = make_target(i, ctor, empty)?;
    Ok(
        FromAsyncStage::IteratorNext(
            FromAsyncIter { array, iterator, next, mapper, this_arg, index: 0, from_sync },
        ),
    )
}

/// Starts from an array-like source.
pub open spec fn indexing(
    w: World,
    ctor: Value,
    source: Value,
    mapper: Value,
    this_arg: Value,
) -> Outcome<FromAsyncStage> {
    let (w, o) = object_for(w, source, "Array.fromAsync called on null or undefined");
    match o {
        Err(e) => (w, Err(e)),
        Ok(o) => {
            let (w, length) = length_of(w, o);
            match length {
                Err(e) => (w, Err(e)),
                Ok(length) => if !is_ctor(ctor) && length > 0xffff_ffff {
                    w.throw(ErrorKind::Range, "invalid array length")
                } else {
                    let (w, array) = target_made(
                        w,
                        ctor,
                        seq![Value::Num(num::number(length as int))],
                    );
                    match array {
                        Err(e) => (w, Err(e)),
                        Ok(array) => (
                            w,
                            Ok(
                                FromAsyncStage::ArrayLikeNext(
                                    FromAsyncArrayLike {
                                        array,
                                        source: o,
                                        mapper,
                                        this_arg,
                                        index: 0,
                                        length,
                                    },
                                ),
                            ),
                        ),
                    }
                },
            }
        },
    }
}

fn start_indexing(i: &mut Interp, ctor: Value, source: Value, mapper: Value, this_arg: Value) -> (r:
    Result<FromAsyncStage, Value>)
    ensures
        (final(i)@, r) == indexing(old(i)@, ctor, source, mapper, this_arg),
        r matches Ok(s) ==> s.wf(),
{
    let o = to_object_arg(i, source, "Array.fromAsync called on null or undefined")?;
    let length: u64 = to_length(i, o)?;
    if !is_constructor_value(ctor) && length > 0xffff_ffff {
        return i.fail(ErrorKind::Range, "invalid array length");
    }
    let list = vec![Value::Num(num::of_u64(length))];
    assert(list@ =~= seq![Value::Num(num::number(length as int))]);
    let array = make_target(i, ctor, list)?;
    Ok(
        FromAsyncStage::ArrayLikeNext(
            FromAsyncArrayLike { array, source: o, mapper, this_arg, index: 0, length },
        ),
    )
}

/// Runs through iterator acquisition or array-like preparation, up to the first Await.
pub open spec fn begun(
    w: World,
    ctor: Value,
    source: Value,
    mapper: Value,
    this_arg: Value,
) -> Outcome<FromAsyncStage> {
    if mapper != Value::Undefined && !mapper.callable() {
        w.throw(ErrorKind::Type, "Array.fromAsync: mapFn is not callable")
    } else {
        let (w, m) = iterator_methods(w, source);
        match m {
            Err(e) => (w, Err(e)),
            Ok(m) => if m.0.callable() {
                iterating(w, ctor, source, mapper, this_arg, m.0, m.1)
            } else {
                indexing(w, ctor, source, mapper, this_arg)
            },
        }
    }
}

/// Run Array.fromAsync through iterator acquisition/array-like preparation, stopping immediately
/// before its first Await. GetIteratorFromMethod precedes result construction.
pub fn from_async_start(i: &mut Interp, ctor: Value, source: Value, mapper: Value, this_arg: Value) -> (r:
    Result<FromAsyncStage, Value>)
    ensures
        (final(i)@, r) == begun(old(i)@, ctor, source, mapper, this_arg),
        r matches Ok(s) ==> s.wf(),
{
    if !mapper.is_undefined() && !mapper.is_callable() {
        return i.type_error("Array.fromAsync: mapFn is not callable");
    }
    let m = read_iterator_methods(i, source)?;
    if m.0.is_callable() {
        start_iterating(i, ctor, source, mapper, this_arg, m.0, m.1)
    } else {
        start_indexing(i, ctor, source, mapper, this_arg)
    }
}

// Running

/// Closes the iterator after an error; the error is what comes out in the end.
pub open spec fn closing(w: World, s: FromAsyncIter, error: Value) -> Ran {
    let parked = FromAsyncStage::Closing { error, iterator: s.iterator };
    if s.from_sync {
        let (w, p) = sync_closed(w, s.iterator);
        (w, parked, Suspend::Await(p))
    } else {
        let (w, m) = w.get(s.iterator, Key::Name("return"));
        match m {
            Err(_) => (w, FromAsyncStage::Done, Suspend::Throw(error)),
            Ok(m) => if !m.callable() {
                (w, FromAsyncStage::Done, Suspend::Throw(error))
            } else {
                let (w, r) = w.call(m, s.iterator, Seq::empty());
                match r {
                    Err(_) => (w, FromAsyncStage::Done, Suspend::Throw(error)),
                    Ok(r) => (w, parked, Suspend::Await(r)),
                }
            },
        }
    }
}

/// AsyncIteratorClose with a throw completion: an abrupt return getter/call is discarded in favour
/// of the original throw; only a normal call result introduces the required Await.
fn close_after_error(i: &mut Interp, s: FromAsyncIter, error: Value) -> (r: (
    FromAsyncStage,
    Suspend,
))
    ensures
        (final(i)@, r.0, r.1) == closing(old(i)@, s, error),
        r.0.wf(),
{
    let parked = FromAsyncStage::Closing { error, iterator: s.iterator };
    if s.from_sync {
        let p = from_async_sync_close(i, s.iterator);
        return (parked, Suspend::Await(p));
    }
    let m = match i.get_member(s.iterator, Key::Name("return")) {
        Ok(m) => m,
        Err(_) => {
            return (FromAsyncStage::Done, Suspend::Throw(error));
        },
    };
    if !m.is_callable() {
        return (FromAsyncStage::Done, Suspend::Throw(error));
    }
    let none: Vec<Value> = Vec::new();
    assert(none@ =~= Seq::<Value>::empty());
    match i.call(m, s.iterator, none) {
        Err(_) => (FromAsyncStage::Done, Suspend::Throw(error)),
        Ok(r) => (parked, Suspend::Await(r)),
    }
}

/// Asks the iterator for its next result.
pub open spec fn next_asked(w: World, s: FromAsyncIter) -> Ran {
    if s.index >= num::MAX_SAFE {
        let (w, e) = w.plain(
            Op::NewError(ErrorKind::Type, "Array.fromAsync result is too large"),
            Seq::empty(),
        );
        closing(w, s, e)
    } else if s.from_sync {
        let (w, p) = sync_next(w, s.iterator, s.next);
        (w, FromAsyncStage::IteratorResult(s), Suspend::Await(p))
    } else {
        let (w, r) = w.call(s.next, s.iterator, Seq::empty());
        match r {
            Err(e) => (w, FromAsyncStage::Done, Suspend::Throw(e)),
            Ok(r) => (w, FromAsyncStage::IteratorResult(s), Suspend::Await(r)),
        }
    }
}

fn ask_next(i: &mut Interp, s: FromAsyncIter) -> (r: (FromAsyncStage, Suspend))
    ensures
        (final(i)@, r.0, r.1) == next_asked(old(i)@, s),
        r.0.wf(),
{
    if s.index >= num::MAX_SAFE {
        let e = i.make_error(ErrorKind::Type, "Array.fromAsync result is too large");
        return close_after_error(i, s, e);
    }
    if s.from_sync {
        let p = from_async_sync_next(i, s.iterator, s.next);
        return (FromAsyncStage::IteratorResult(s), Suspend::Await(p));
    }
    let none: Vec<Value> = Vec::new();
    assert(none@ =~= Seq::<Value>::empty());
    match i.call(s.next, s.iterator, none) {
        Err(e) => (FromAsyncStage::Done, Suspend::Throw(e)),
        Ok(r) => (FromAsyncStage::IteratorResult(s), Suspend::Await(r)),
    }
}

/// Ends with the array at its final length.
pub open spec fn ended(w: World, array: Value, n: int) -> Ran {
    let (w, p) = length_put(w, array, n);
    match p {
        Err(e) => (w, FromAsyncStage::Done, Suspend::Throw(e)),
        Ok(_) => (w, FromAsyncStage::Done, Suspend::Done(array)),
    }
}

fn end_with(i: &mut Interp, array: Value, n: u64) -> (r: (FromAsyncStage, Suspend))
    requires
        n <= num::COUNT_LIMIT,
    ensures
        (final(i)@, r.0, r.1) == ended(old(i)@, array, n as int),
        r.0.wf(),
{
    match set_length_throw(i, array, n) {
        Err(e) => (FromAsyncStage::Done, Suspend::Throw(e)),
        Ok(_) => (FromAsyncStage::Done, Suspend::Done(array)),
    }
}

/// Stores a value of the iterator and goes on.
pub open spec fn iterated_value_stored(w: World, s: FromAsyncIter, v: Value) -> Ran {
    let (w, p) = w.value(Op::CreateData(s.array, Key::Index(s.index), v), Seq::empty());
    match p {
        Err(e) => closing(w, s, e),
        Ok(_) => next_asked(w, FromAsyncIter { index: (s.index + 1) as u64, ..s }),
    }
}

fn store_iterated(i: &mut Interp, s: FromAsyncIter, v: Value) -> (r: (FromAsyncStage, Suspend))
    requires
        s.index < num::MAX_SAFE,
    ensures
        (final(i)@, r.0, r.1) == iterated_value_stored(old(i)@, s, v),
        r.0.wf(),
{
    match i.value_of(Op::CreateData(s.array, Key::Index(s.index), v)) {
        Err(e) => close_after_error(i, s, e),
        Ok(_) => {
            let mut t = s;
            t.index = t.index + 1;
            ask_next(i, t)
        },
    }
}

/// The awaited result of `next` has come in.
pub open spec fn result_in(w: World, s: FromAsyncIter, result: Value) -> Ran {
    if !result.object() {
        let (w, e) = w.plain(
            Op::NewError(ErrorKind::Type, "iterator result is not an object"),
            Seq::empty(),
        );
        (w, FromAsyncStage::Done, Suspend::Throw(e))
    } else {
        let (w, d) = w.get(result, Key::Name("done"));
        match d {
            Err(e) => (w, FromAsyncStage::Done, Suspend::Throw(e)),
            Ok(d) => if w.truthy(d) {
                ended(w, s.array, s.index as int)
            } else {
                let (w, v) = w.get(result, Key::Name("value"));
                match v {
                    Err(e) => (w, FromAsyncStage::Done, Suspend::Throw(e)),
                    Ok(v) => if s.mapper.callable() {
                        let (w, m) = w.call(
                            s.mapper,
                            s.this_arg,
                            seq![v, Value::Num(num::number(s.index as int))],
                        );
                        match m {
                            Err(e) => closing(w, s, e),
                            Ok(m) => (w, FromAsyncStage::IteratorMapped(s), Suspend::Await(m)),
                        }
                    } else {
                        iterated_value_stored(w, s, v)
                    },
                }
            },
        }
    }
}

fn take_result(i: &mut Interp, s: FromAsyncIter, result: Value) -> (r: (FromAsyncStage, Suspend))
    requires
        s.index < num::MAX_SAFE,
    ensures
        (final(i)@, r.0, r.1) == result_in(old(i)@, s, result),
        r.0.wf(),
{
    if !result.is_object() {
        let e = i.make_error(ErrorKind::Type, "iterator result is not an object");
        return (FromAsyncStage::Done, Suspend::Throw(e));
    }
    let d = match i.get_member(result, Key::Name("done")) {
        Ok(d) => d,
        Err(e) => {
            return (FromAsyncStage::Done, Suspend::Throw(e));
        },
    };
    if i.to_boolean(d) {
        return end_with(i, s.array, s.index);
    }
    let v = match i.get_member(result, Key::Name("value")) {
        Ok(v) => v,
        Err(e) => {
            return (FromAsyncStage::Done, Suspend::Throw(e));
        },
    };
    if s.mapper.is_callable() {
        let list = vec![v, Value::Num(num::of_u64(s.index))];
        assert(list@ =~= seq![v, Value::Num(num::number(s.index as int))]);
        return match i.call(s.mapper, s.this_arg, list) {
            Err(e) => close_after_error(i, s, e),
            Ok(m) => (FromAsyncStage::IteratorMapped(s), Suspend::Await(m)),
        };
    }
    store_iterated(i, s, v)
}

/// Reads the next element of an array-like source.
pub open spec fn element_asked(w: World, s: FromAsyncArrayLike) -> Ran {
    if s.index >= s.length {
        ended(w, s.array, s.length as int)
    } else {
        let (w, v) = w.get(s.source, Key::Index(s.index));
        match v {
            Err(e) => (w, FromAsyncStage::Done, Suspend::Throw(e)),
            Ok(v) => (w, FromAsyncStage::ArrayLikeValue(s), Suspend::Await(v)),
        }
    }
}

fn ask_element(i: &mut Interp, s: FromAsyncArrayLike) -> (r: (FromAsyncStage, Suspend))
    requires
        s.index <= s.length <= num::MAX_SAFE,
    ensures
        (final(i)@, r.0, r.1) == element_asked(old(i)@, s),
        r.0.wf(),
{
    if s.index >= s.length {
        return end_with(i, s.array, s.length);
    }
    match i.get_member(s.source, Key::Index(s.index)) {
        Err(e) => (FromAsyncStage::Done, Suspend::Throw(e)),
        Ok(v) => (FromAsyncStage::ArrayLikeValue(s), Suspend::Await(v)),
    }
}

/// Stores an element and goes on.
pub open spec fn element_stored(w: World, s: FromAsyncArrayLike, v: Value) -> Ran {
    let (w, p) = w.value(Op::CreateData(s.array, Key::Index(s.index), v), Seq::empty());
    match p {
        Err(e) => (w, FromAsyncStage::Done, Suspend::Throw(e)),
        Ok(_) => element_asked(w, FromAsyncArrayLike { index: (s.index + 1) as u64, ..s }),
    }
}

fn store_element(i: &mut Interp, s: FromAsyncArrayLike, v: Value) -> (r: (FromAsyncStage, Suspend))
    requires
        s.index < s.length <= num::MAX_SAFE,
    ensures
        (final(i)@, r.0, r.1) == element_stored(old(i)@, s, v),
        r.0.wf(),
{
    match i.value_of(Op::CreateData(s.array, Key::Index(s.index), v)) {
        Err(e) => (FromAsyncStage::Done, Suspend::Throw(e)),
        Ok(_) => {
            let mut t = s;
            t.index = t.index + 1;
            ask_element(i, t)
        },
    }
}

/// The awaited element has come in.
pub open spec fn element_in(w: World, s: FromAsyncArrayLike, v: Value) -> Ran {
    if s.mapper.callable() {
        let (w, m) = w.call(
            s.mapper,
            s.this_arg,
            seq![v, Value::Num(num::number(s.index as int))],
        );
        match m {
            Err(e) => (w, FromAsyncStage::Done, Suspend::Throw(e)),
            Ok(m) => (w, FromAsyncStage::ArrayLikeMapped(s), Suspend::Await(m)),
        }
    } else {
        element_stored(w, s, v)
    }
}

fn take_element(i: &mut Interp, s: FromAsyncArrayLike, v: Value) -> (r: (FromAsyncStage, Suspend))
    requires
        s.index < s.length <= num::MAX_SAFE,
    ensures
        (final(i)@, r.0, r.1) == element_in(old(i)@, s, v),
        r.0.wf(),
{
    if s.mapper.is_callable() {
        let list = vec![v, Value::Num(num::of_u64(s.index))];
        assert(list@ =~= seq![v, Value::Num(num::number(s.index as int))]);
        return match i.call(s.mapper, s.this_arg, list) {
            Err(e) => (FromAsyncStage::Done, Suspend::Throw(e)),
            Ok(m) => (FromAsyncStage::ArrayLikeMapped(s), Suspend::Await(m)),
        };
    }
    store_element(i, s, v)
}

/// Goes on from the start or from a stage that waits for nothing.
pub open spec fn gone_on(w: World, stage: FromAsyncStage) -> Ran {
    match stage {
        FromAsyncStage::IteratorNext(s) => next_asked(w, s),
        FromAsyncStage::ArrayLikeNext(s) => element_asked(w, s),
        _ => (w, FromAsyncStage::Done, Suspend::Done(Value::Undefined)),
    }
}

fn go_on(i: &mut Interp, stage: FromAsyncStage) -> (r: (FromAsyncStage, Suspend))
    requires
        stage.wf(),
    ensures
        (final(i)@, r.0, r.1) == gone_on(old(i)@, stage),
        r.0.wf(),
{
    match stage {
        FromAsyncStage::IteratorNext(s) => ask_next(i, s),
        FromAsyncStage::ArrayLikeNext(s) => ask_element(i, s),
        _ => (FromAsyncStage::Done, Suspend::Done(Value::Undefined)),
    }
}

/// What an Await came back with: a value, or a thrown one.
pub open spec fn awaited(signal: Resume) -> Result<Value, Value> {
    match signal {
        Resume::Next(v) => Ok(v),
        Resume::Return(v) => Ok(v),
        Resume::Throw(e) => Err(e),
        Resume::Terminate => Err(Value::Undefined),
    }
}

fn read_awaited(signal: Resume) -> (r: Result<Value, Value>)
    ensures
        r == awaited(signal),
{
    match signal {
        Resume::Next(v) => Ok(v),
        Resume::Return(v) => Ok(v),
        Resume::Throw(e) => Err(e),
        Resume::Terminate => Err(Value::Undefined),
    }
}

/// Runs from a stage to the next Await or to the end.
pub open spec fn ran(w: World, stage: FromAsyncStage, signal: Resume) -> Ran {
    match stage {
        FromAsyncStage::Start { ctor, source, mapper, this_arg } => {
            let (w, s) = begun(w, ctor, source, mapper, this_arg);
            match s {
                Err(e) => (w, FromAsyncStage::Done, Suspend::Throw(e)),
                Ok(s) => gone_on(w, s),
            }
        },
        FromAsyncStage::IteratorNext(_) => gone_on(w, stage),
        FromAsyncStage::ArrayLikeNext(_) => gone_on(w, stage),
        FromAsyncStage::IteratorResult(s) => match awaited(signal) {
            Err(e) => (w, FromAsyncStage::Done, Suspend::Throw(e)),
            Ok(v) => result_in(w, s, v),
        },
        FromAsyncStage::IteratorMapped(s) => match awaited(signal) {
            Err(e) => closing(w, s, e),
            Ok(v) => iterated_value_stored(w, s, v),
        },
        FromAsyncStage::ArrayLikeValue(s) => match awaited(signal) {
            Err(e) => (w, FromAsyncStage::Done, Suspend::Throw(e)),
            Ok(v) => element_in(w, s, v),
        },
        FromAsyncStage::ArrayLikeMapped(s) => match awaited(signal) {
            Err(e) => (w, FromAsyncStage::Done, Suspend::Throw(e)),
            Ok(v) => element_stored(w, s, v),
        },
        FromAsyncStage::Closing { error, iterator } => (
            w,
            FromAsyncStage::Done,
            Suspend::Throw(error),
        ),
        FromAsyncStage::Done => (w, FromAsyncStage::Done, Suspend::Done(Value::Undefined)),
    }
}

fn run(i: &mut Interp, stage: FromAsyncStage, signal: Resume) -> (r: (FromAsyncStage, Suspend))
    requires
        stage.wf(),
    ensures
        (final(i)@, r.0, r.1) == ran(old(i)@, stage, signal),
        r.0.wf(),
{
    match stage {
        FromAsyncStage::Start { ctor, source, mapper, this_arg } => {
            // The initial drive is AsyncFunctionStart rather than an Await resumption.
            match from_async_start(i, ctor, source, mapper, this_arg) {
                Err(e) => (FromAsyncStage::Done, Suspend::Throw(e)),
                Ok(s) => go_on(i, s),
            }
        },
        FromAsyncStage::IteratorNext(_) => go_on(i, stage),
        FromAsyncStage::ArrayLikeNext(_) => go_on(i, stage),
        FromAsyncStage::IteratorResult(s) => match read_awaited(signal) {
            Err(e) => (FromAsyncStage::Done, Suspend::Throw(e)),
            Ok(v) => take_result(i, s, v),
        },
        FromAsyncStage::IteratorMapped(s) => match read_awaited(signal) {
            Err(e) => close_after_error(i, s, e),
            Ok(v) => store_iterated(i, s, v),
        },
        FromAsyncStage::ArrayLikeValue(s) => match read_awaited(signal) {
            Err(e) => (FromAsyncStage::Done, Suspend::Throw(e)),
            Ok(v) => take_element(i, s, v),
        },
        FromAsyncStage::ArrayLikeMapped(s) => match read_awaited(signal) {
            Err(e) => (FromAsyncStage::Done, Suspend::Throw(e)),
            Ok(v) => store_element(i, s, v),
        },
        // The original throw is preserved regardless of how the close was settled.
        FromAsyncStage::Closing { error, iterator } => (
            FromAsyncStage::Done,
            Suspend::Throw(error),
        ),
        FromAsyncStage::Done => (FromAsyncStage::Done, Suspend::Done(Value::Undefined)),
    }
}

/// Control came back for the last time.
pub open spec fn final_suspend(s: Suspend) -> bool {
    !(s is Await)
}

/// Resuming: what it leaves behind, and how control came back.
pub open spec fn resumed(w: World, c: FromAsyncCoro, signal: Resume) -> (
    World,
    FromAsyncCoro,
    Suspend,
) {
    if c.done {
        (w, c, Suspend::Done(Value::Undefined))
    } else if signal == Resume::Terminate {
        (
            w,
            FromAsyncCoro { stage: FromAsyncStage::Done, done: true, ..c },
            Suspend::Done(Value::Undefined),
        )
    } else {
        let (w, stage, s) = ran(w, c.stage, signal);
        (w, FromAsyncCoro { stage, started: true, done: final_suspend(s) }, s)
    }
}

/// The values that a stage keeps alive.
pub open spec fn values_kept(stage: FromAsyncStage) -> Seq<Value> {
    match stage {
        FromAsyncStage::Start { ctor, source, mapper, this_arg } => seq![
            ctor,
            source,
            mapper,
            this_arg,
        ],
        FromAsyncStage::IteratorNext(s) => iterator_kept(s),
        FromAsyncStage::IteratorResult(s) => iterator_kept(s),
        FromAsyncStage::IteratorMapped(s) => iterator_kept(s),
        FromAsyncStage::ArrayLikeNext(s) => array_like_kept(s),
        FromAsyncStage::ArrayLikeValue(s) => array_like_kept(s),
        FromAsyncStage::ArrayLikeMapped(s) => array_like_kept(s),
        FromAsyncStage::Closing { error, iterator } => seq![error, iterator],
        FromAsyncStage::Done => Seq::empty(),
    }
}

pub open spec fn iterator_kept(s: FromAsyncIter) -> Seq<Value> {
    seq![s.array, s.iterator, s.next, s.mapper, s.this_arg]
}

pub open spec fn array_like_kept(s: FromAsyncArrayLike) -> Seq<Value> {
    seq![s.array, s.source, s.mapper, s.this_arg]
}

fn iterator_values(s: FromAsyncIter) -> (r: Vec<Value>)
    ensures
        r@ == iterator_kept(s),
{
    let r = vec![s.array, s.iterator, s.next, s.mapper, s.this_arg];
    assert(r@ =~= iterator_kept(s));
    r
}

fn array_like_values(s: FromAsyncArrayLike) -> (r: Vec<Value>)
    ensures
        r@ == array_like_kept(s),
{
    let r = vec![s.array, s.source, s.mapper, s.this_arg];
    assert(r@ =~= array_like_kept(s));
    r
}

impl FromAsyncCoro {
    /// A done machine is at its last stage.
    pub open spec fn wf(self) -> bool {
        &&& self.stage.wf()
        &&& self.done ==> self.stage is Done
    }

    pub fn new(ctor: Value, source: Value, mapper: Value, this_arg: Value) -> (r: Self)
        ensures
            r == (FromAsyncCoro {
                stage: FromAsyncStage::Start { ctor, source, mapper, this_arg },
                started: false,
                done: false,
            }),
            r.wf(),
    {
        FromAsyncCoro {
            stage: FromAsyncStage::Start { ctor, source, mapper, this_arg },
            started: false,
            done: false,
        }
    }

    /// The values that the machine keeps alive, and the bytes that it takes itself.
    pub fn scan_retained_memory(&self) -> (r: (Vec<Value>, usize))
        ensures
            r.0@ == values_kept(self.stage),
            r.1 == size_of::<FromAsyncCoro>(),
    {
        let r: Vec<Value> = match self.stage {
            FromAsyncStage::Start { ctor, source, mapper, this_arg } => vec![
                ctor,
                source,
                mapper,
                this_arg,
            ],
            FromAsyncStage::IteratorNext(s) => iterator_values(s),
            FromAsyncStage::IteratorResult(s) => iterator_values(s),
            FromAsyncStage::IteratorMapped(s) => iterator_values(s),
            FromAsyncStage::ArrayLikeNext(s) => array_like_values(s),
            FromAsyncStage::ArrayLikeValue(s) => array_like_values(s),
            FromAsyncStage::ArrayLikeMapped(s) => array_like_values(s),
            FromAsyncStage::Closing { error, iterator } => vec![error, iterator],
            FromAsyncStage::Done => Vec::new(),
        };
        assert(r@ =~= values_kept(self.stage));
        (r, core::mem::size_of::<FromAsyncCoro>())
    }

    pub fn done(&self) -> (r: bool)
        ensures
            r == self.done,
    {
        self.done
    }

    pub fn started(&self) -> (r: bool)
        ensures
            r == self.started,
    {
        self.started
    }

    pub fn terminate(&mut self)
        ensures
            *final(self) == (FromAsyncCoro {
                stage: FromAsyncStage::Done,
                done: true,
                ..*old(self)
            }),
    {
        self.stage = FromAsyncStage::Done;
        self.done = true;
    }

    /// Drives the machine to its next Await or to its end.
    pub fn resume(&mut self, i: &mut Interp, signal: Resume) -> (r: Suspend)
        requires
            old(self).wf(),
        ensures
            (final(i)@, *final(self), r) == resumed(old(i)@, *old(self), signal),
            final(self).wf(),
    {
        if self.done {
            return Suspend::Done(Value::Undefined);
        }
        match signal {
            Resume::Terminate => {
                self.terminate();
                return Suspend::Done(Value::Undefined);
            },
            _ => {},
        }
        self.started = true;
        let ghost w0 = i@;
        let ghost stage0 = self.stage;
        let (stage, s) = run(i, self.stage, signal);
        proof {
            lemma_ends_at_done(w0, stage0, signal);
        }
        self.stage = stage;
        self.done = match s {
            Suspend::Await(_) => false,
            _ => true,
        };
        s
    }
}

/// A run that does not wait is at the last stage.
spec fn settled(r: Ran) -> bool {
    final_suspend(r.2) ==> r.1 is Done
}

proof fn lemma_iterator_settled(w: World, s: FromAsyncIter, v: Value)
    ensures
        settled(closing(w, s, v)),
        settled(next_asked(w, s)),
        settled(iterated_value_stored(w, s, v)),
{
    let (w1, e) = w.plain(
        Op::NewError(ErrorKind::Type, "Array.fromAsync result is too large"),
        Seq::empty(),
    );
    assert(settled(closing(w1, s, e)));
    let (w2, p) = w.value(Op::CreateData(s.array, Key::Index(s.index), v), Seq::empty());
    match p {
        Err(e) => {
            assert(settled(closing(w2, s, e)));
        },
        Ok(_) => {
            let t = FromAsyncIter { index: (s.index + 1) as u64, ..s };
            let (w3, e) = w2.plain(
                Op::NewError(ErrorKind::Type, "Array.fromAsync result is too large"),
                Seq::empty(),
            );
            assert(settled(closing(w3, t, e)));
            assert(settled(next_asked(w2, t)));
        },
    }
}

proof fn lemma_result_settled(w: World, s: FromAsyncIter, result: Value)
    ensures
        settled(result_in(w, s, result)),
{
    let (w1, _) = w.get(result, Key::Name("done"));
    let (w2, v) = w1.get(result, Key::Name("value"));
    match v {
        Ok(v) => {
            lemma_iterator_settled(w2, s, v);
            let (w3, m) = w2.call(
                s.mapper,
                s.this_arg,
                seq![v, Value::Num(num::number(s.index as int))],
            );
            match m {
                Err(e) => {
                    lemma_iterator_settled(w3, s, e);
                },
                Ok(_) => {},
            }
        },
        Err(_) => {},
    }
}

proof fn lemma_ends_at_done(w: World, stage: FromAsyncStage, signal: Resume)
    ensures
        final_suspend(ran(w, stage, signal).2) ==> ran(w, stage, signal).1 is Done,
{
    let v = match awaited(signal) {
        Ok(v) => v,
        Err(e) => e,
    };
    match stage {
        FromAsyncStage::Start { ctor, source, mapper, this_arg } => {
            let (w1, s) = begun(w, ctor, source, mapper, this_arg);
            match s {
                Ok(FromAsyncStage::IteratorNext(s)) => {
                    lemma_iterator_settled(w1, s, v);
                },
                _ => {},
            }
        },
        FromAsyncStage::IteratorNext(s) => {
            lemma_iterator_settled(w, s, v);
        },
        FromAsyncStage::IteratorResult(s) => {
            lemma_result_settled(w, s, v);
        },
        FromAsyncStage::IteratorMapped(s) => {
            lemma_iterator_settled(w, s, v);
        },
        _ => {},
    }
}

/// A machine that is done stays done: it asks nothing and reports undefined.
pub proof fn law_done_machine_is_inert(w: World, c: FromAsyncCoro, signal: Resume)
    requires
        c.done,
    ensures
        resumed(w, c, signal) == (w, c, Suspend::Done(Value::Undefined)),
{
}

/// Once the machine is closing an iterator because of an error, that error is what comes out,
/// however the close is settled.
pub proof fn law_first_error_wins(w: World, c: FromAsyncCoro, signal: Resume, error: Value, iterator: Value)
    requires
        !c.done,
        signal != Resume::Terminate,
        c.stage == (FromAsyncStage::Closing { error, iterator }),
    ensures
        resumed(w, c, signal).2 == Suspend::Throw(error),
        resumed(w, c, signal).1.done,
        resumed(w, c, signal).0 == w,
{
}

/// A run ends the machine exactly when it hands control back for the last time.
pub proof fn law_end_is_final(w: World, c: FromAsyncCoro, signal: Resume)
    requires
        c.wf(),
    ensures
        resumed(w, c, signal).1.done == final_suspend(resumed(w, c, signal).2),
        resumed(w, c, signal).1.done ==> resumed(w, c, signal).1.stage is Done,
{
    if !c.done && signal != Resume::Terminate {
        lemma_ends_at_done(w, c.stage, signal);
    }
}

// Disposal of asynchronous iterators

/// %AsyncIteratorPrototype%[@@asyncDispose].
pub open spec fn disposed(w: World, this: Value) -> (World, Value) {
    let (w, promise) = w.plain(Op::NewPromise, Seq::empty());
    let (w, m) = w.get(this, Key::Name("return"));
    match m {
        Err(e) => rejected(w, promise, e),
        Ok(m) => if !m.callable() {
            let (w, _) = w.plain(Op::ResolvePromise(promise, Value::Undefined), Seq::empty());
            (w, promise)
        } else {
            let (w, r) = w.call(m, this, Seq::empty());
            match r {
                Err(e) => rejected(w, promise, e),
                Ok(v) => {
                    let (w, inner) = w.plain(Op::PromiseFor(v), Seq::empty());
                    let (w, _) = w.plain(
                        Op::PromiseThen(
                            inner,
                            Reaction::SettleUndefined(promise),
                            Reaction::SettleReject(promise),
                            Value::Undefined,
                        ),
                        Seq::empty(),
                    );
                    (w, promise)
                },
            }
        },
    }
}

/// %AsyncIteratorPrototype%[@@asyncDispose]: every failure — a throwing `return` getter, a
/// throwing call, or a rejected result — surfaces as a rejection of the returned promise, and a
/// fulfilled result is discarded (the promise fulfills with undefined).
pub fn async_dispose_via_return(i: &mut Interp, this: Value) -> (r: Value)
    ensures
        (final(i)@, r) == disposed(old(i)@, this),
{
    let promise = i.perform(Op::NewPromise);
    let m = match i.get_member(this, Key::Name("return")) {
        Ok(m) => m,
        Err(e) => {
            return reject(i, promise, e);
        },
    };
    if !m.is_callable() {
        let _ = i.perform(Op::ResolvePromise(promise, Value::Undefined));
        return promise;
    }
    // No arguments (observable via arguments.length).
    let none: Vec<Value> = Vec::new();
    assert(none@ =~= Seq::<Value>::empty());
    match i.call(m, this, none) {
        Err(e) => reject(i, promise, e),
        Ok(v) => {
            let inner = i.perform(Op::PromiseFor(v));
            let _ = i.perform(
                Op::PromiseThen(
                    inner,
                    Reaction::SettleUndefined(promise),
                    Reaction::SettleReject(promise),
                    Value::Undefined,
                ),
            );
            promise
        },
    }
}

} // verus!
