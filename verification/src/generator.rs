//! Generators and async generators: the methods around the engine's coroutines.
use vstd::prelude::*;
use crate::interp::{arg, arg_at, Brand, ErrorKind, Interp, Op, Outcome, Resume, Value, World};
use crate::num;

verus! {

/// How a generator handed control back.
#[derive(Clone, Copy, PartialEq, Eq, Structural, Debug)]
pub enum Suspension {
    Yield(Value),
    /// A `yield*` forwards the inner iterator's result object unwrapped.
    Forward(Value),
    Done(Value),
    Throw(Value),
    Await,
}

/// The suspension that a report describes.
pub open spec fn suspension_of(l: Seq<Value>) -> Suspension {
    if l.len() < 2 {
        Suspension::Throw(Value::Undefined)
    } else {
        match l[0] {
            Value::Num(n) => {
                let k = num::cast_u64(n);
                if k == 0 {
                    Suspension::Yield(l[1])
                } else if k == 1 {
                    if l[1].object() {
                        Suspension::Forward(l[1])
                    } else {
                        Suspension::Yield(l[1])
                    }
                } else if k == 2 {
                    Suspension::Done(l[1])
                } else if k == 3 {
                    Suspension::Throw(l[1])
                } else {
                    Suspension::Await
                }
            },
            _ => Suspension::Throw(Value::Undefined),
        }
    }
}

/// Runs a generator to its next suspension.
pub open spec fn coroutine_resumed(w: World, this: Value, signal: Resume) -> (World, Suspension) {
    let (w, l) = w.list(Op::ResumeGenerator(this, signal));
    match l {
        Ok(l) => (w, suspension_of(l)),
        Err(e) => (w, Suspension::Throw(e)),
    }
}

fn resume_coroutine(i: &mut Interp, this: Value, signal: Resume) -> (r: Suspension)
    ensures
        (final(i)@, r) == coroutine_resumed(old(i)@, this, signal),
{
    match i.ask_list(Op::ResumeGenerator(this, signal)) {
        Err(e) => Suspension::Throw(e),
        Ok(l) => {
            if l.len() < 2 {
                return Suspension::Throw(Value::Undefined);
            }
            match l[0] {
                Value::Num(n) => {
                    let k: u64 = num::as_u64(n);
                    if k == 0 {
                        Suspension::Yield(l[1])
                    } else if k == 1 {
                        if l[1].is_object() {
                            Suspension::Forward(l[1])
                        } else {
                            Suspension::Yield(l[1])
                        }
                    } else if k == 2 {
                        Suspension::Done(l[1])
                    } else if k == 3 {
                        Suspension::Throw(l[1])
                    } else {
                        Suspension::Await
                    }
                },
                _ => Suspension::Throw(Value::Undefined),
            }
        },
    }
}

/// What a finished generator makes of a signal.
pub open spec fn finished_drive(w: World, signal: Resume) -> Outcome<Value> {
    match signal {
        Resume::Throw(e) => (w, Err(e)),
        Resume::Return(v) => w.iter_result(v, true),
        Resume::Next(_) => w.iter_result(Value::Undefined, true),
        Resume::Terminate => w.iter_result(Value::Undefined, true),
    }
}

/// Drives a generator with a signal.
pub open spec fn generator_driven(w: World, this: Value, signal: Resume) -> Outcome<Value> {
    if !this.object() {
        w.throw(ErrorKind::Type, "Generator method called on a non-generator")
    } else {
        let (w, is_generator) = w.yes(Op::HasBrand(this, Brand::GeneratorData));
        if !is_generator {
            w.throw(ErrorKind::Type, "Generator method called on a non-generator")
        } else {
            let (w, finished) = w.yes(Op::IsFinished(this));
            if finished {
                finished_drive(w, signal)
            } else {
                let (w, s) = coroutine_resumed(w, this, signal);
                match s {
                    Suspension::Forward(v) => (w, Ok(v)),
                    Suspension::Yield(v) => w.iter_result(v, false),
                    Suspension::Done(v) => w.iter_result(v, true),
                    Suspension::Throw(e) => (w, Err(e)),
                    Suspension::Await => w.throw(
                        ErrorKind::Type,
                        "await in a non-async generator",
                    ),
                }
            }
        }
    }
}

/// Drive a generator's coroutine with a resume signal, returning its `{value, done}` (or propagating
/// a throw). A generator that is executing does not carry the slots of one.
pub fn drive_generator(i: &mut Interp, this: Value, signal: Resume) -> (r: Result<Value, Value>)
    ensures
        (final(i)@, r) == generator_driven(old(i)@, this, signal),
{
    if !this.is_object() {
        return i.type_error("Generator method called on a non-generator");
    }
    if !i.ask_yes(Op::HasBrand(this, Brand::GeneratorData)) {
        return i.type_error("Generator method called on a non-generator");
    }
    if i.ask_yes(Op::IsFinished(this)) {
        return match signal {
            Resume::Throw(e) => Err(e),
            Resume::Return(v) => i.iter_result(v, true),
            Resume::Next(_) => i.iter_result(Value::Undefined, true),
            Resume::Terminate => i.iter_result(Value::Undefined, true),
        };
    }
    match resume_coroutine(i, this, signal) {
        Suspension::Forward(v) => Ok(v),
        Suspension::Yield(v) => i.iter_result(v, false),
        Suspension::Done(v) => i.iter_result(v, true),
        Suspension::Throw(e) => Err(e),
        Suspension::Await => i.type_error("await in a non-async generator"),
    }
}

/// `gen.next(v)`.
pub fn generator_next(i: &mut Interp, this: Value, args: &[Value]) -> (r: Result<Value, Value>)
    ensures
        (final(i)@, r) == generator_driven(old(i)@, this, Resume::Next(arg_at(args@, 0))),
{
    drive_generator(i, this, Resume::Next(arg(args, 0)))
}

/// `gen.return(v)`: inject a return completion at the suspended `yield` (runs any `finally`).
pub fn generator_return(i: &mut Interp, this: Value, args: &[Value]) -> (r: Result<Value, Value>)
    ensures
        (final(i)@, r) == generator_driven(old(i)@, this, Resume::Return(arg_at(args@, 0))),
{
    drive_generator(i, this, Resume::Return(arg(args, 0)))
}

/// `gen.throw(e)`: inject a throw at the suspended `yield`.
pub fn generator_throw(i: &mut Interp, this: Value, args: &[Value]) -> (r: Result<Value, Value>)
    ensures
        (final(i)@, r) == generator_driven(old(i)@, this, Resume::Throw(arg_at(args@, 0))),
{
    drive_generator(i, this, Resume::Throw(arg(args, 0)))
}

/// A request to an async generator.
pub open spec fn async_driven(w: World, this: Value, signal: Resume) -> (World, Value) {
    let (w, promise) = w.plain(Op::NewPromise, Seq::empty());
    let (w, is_generator) = if this.object() {
        w.yes(Op::HasBrand(this, Brand::AsyncGeneratorData))
    } else {
        (w, false)
    };
    if is_generator {
        let (w, _) = w.plain(Op::DriveAsyncGenerator(this, promise, signal), Seq::empty());
        (w, promise)
    } else {
        let (w, e) = w.plain(
            Op::NewError(
                ErrorKind::Type,
                "AsyncGenerator method called on an incompatible receiver",
            ),
            Seq::empty(),
        );
        let (w, _) = w.plain(Op::RejectPromise(promise, e), Seq::empty());
        (w, promise)
    }
}

/// The receiver must be an actual async generator instance; a mismatch rejects the returned promise
/// rather than throwing.
pub fn async_gen_drive(i: &mut Interp, this: Value, signal: Resume) -> (r: Value)
    ensures
        (final(i)@, r) == async_driven(old(i)@, this, signal),
{
    let promise = i.perform(Op::NewPromise);
    let is_generator = this.is_object() && i.ask_yes(
        Op::HasBrand(this, Brand::AsyncGeneratorData),
    );
    if is_generator {
        let _ = i.perform(Op::DriveAsyncGenerator(this, promise, signal));
    } else {
        let e = i.make_error(
            ErrorKind::Type,
            "AsyncGenerator method called on an incompatible receiver",
        );
        let _ = i.perform(Op::RejectPromise(promise, e));
    }
    promise
}

/// The `next`, `return` and `throw` of an async generator.
pub fn async_generator_next(i: &mut Interp, this: Value, args: &[Value]) -> (r: Value)
    ensures
        (final(i)@, r) == async_driven(old(i)@, this, Resume::Next(arg_at(args@, 0))),
{
    async_gen_drive(i, this, Resume::Next(arg(args, 0)))
}

pub fn async_generator_return(i: &mut Interp, this: Value, args: &[Value]) -> (r: Value)
    ensures
        (final(i)@, r) == async_driven(old(i)@, this, Resume::Return(arg_at(args@, 0))),
{
    async_gen_drive(i, this, Resume::Return(arg(args, 0)))
}

pub fn async_generator_throw(i: &mut Interp, this: Value, args: &[Value]) -> (r: Value)
    ensures
        (final(i)@, r) == async_driven(old(i)@, this, Resume::Throw(arg_at(args@, 0))),
{
    async_gen_drive(i, this, Resume::Throw(arg(args, 0)))
}

/// The signal that a settled promise sends.
pub open spec fn settlement(v: Value, fulfilled: bool) -> Resume {
    if fulfilled {
        Resume::Next(v)
    } else {
        Resume::Throw(v)
    }
}

fn signal_of(v: Value, fulfilled: bool) -> (r: Resume)
    ensures
        r == settlement(v, fulfilled),
{
    if fulfilled {
        Resume::Next(v)
    } else {
        Resume::Throw(v)
    }
}

/// The awaited promise of an async function was settled. `args = [resultPromise, value]`.
pub open spec fn async_reacted(w: World, args: Seq<Value>, fulfilled: bool) -> World {
    if arg_at(args, 0).object() {
        w.plain(
            Op::DriveAsync(arg_at(args, 0), settlement(arg_at(args, 1), fulfilled)),
            Seq::empty(),
        ).0
    } else {
        w
    }
}

/// Microtask reaction: the awaited promise was settled; resume the async coroutine whose result
/// promise is `args[0]`, throwing a rejection at the suspended await.
pub fn async_react(i: &mut Interp, args: &[Value], fulfilled: bool) -> (r: Value)
    ensures
        final(i)@ == async_reacted(old(i)@, args@, fulfilled),
        r == Value::Undefined,
{
    if arg(args, 0).is_object() {
        let _ = i.perform(Op::DriveAsync(arg(args, 0), signal_of(arg(args, 1), fulfilled)));
    }
    Value::Undefined
}

/// The awaited value of an async generator was settled. `args = [generator, promise, value]`.
pub open spec fn async_gen_reacted(w: World, args: Seq<Value>, fulfilled: bool) -> World {
    if arg_at(args, 0).object() {
        w.plain(
            Op::DriveAsyncInner(
                arg_at(args, 0),
                arg_at(args, 1),
                settlement(arg_at(args, 2), fulfilled),
            ),
            Seq::empty(),
        ).0
    } else {
        w
    }
}

/// Microtask reactions that re-drive an async generator when an awaited value settles.
pub fn async_gen_react(i: &mut Interp, args: &[Value], fulfilled: bool) -> (r: Value)
    ensures
        final(i)@ == async_gen_reacted(old(i)@, args@, fulfilled),
        r == Value::Undefined,
{
    if arg(args, 0).is_object() {
        let _ = i.perform(
            Op::DriveAsyncInner(arg(args, 0), arg(args, 1), signal_of(arg(args, 2), fulfilled)),
        );
    }
    Value::Undefined
}

/// AsyncGeneratorAwaitReturn settled: the generator is completed, the request is settled, and the
/// next request is taken. `args = [generator, promise, value]`.
pub open spec fn async_gen_ended(w: World, args: Seq<Value>, fulfilled: bool) -> World {
    let g = arg_at(args, 0);
    let v = arg_at(args, 2);
    if !g.object() {
        w
    } else {
        let (w, finished) = w.yes(Op::IsFinished(g));
        let w = if finished {
            w
        } else {
            coroutine_resumed(
                w,
                g,
                if fulfilled {
                    Resume::Return(v)
                } else {
                    Resume::Throw(v)
                },
            ).0
        };
        let w = if fulfilled {
            let (w, res) = w.plain(Op::NewIterResult(v, true), Seq::empty());
            w.plain(Op::ResolvePromise(arg_at(args, 1), res), Seq::empty()).0
        } else {
            w.plain(Op::RejectPromise(arg_at(args, 1), v), Seq::empty()).0
        };
        w.plain(Op::FinishAsyncStep(g), Seq::empty()).0
    }
}

pub fn async_gen_return_settled(i: &mut Interp, args: &[Value], fulfilled: bool) -> (r: Value)
    ensures
        final(i)@ == async_gen_ended(old(i)@, args@, fulfilled),
        r == Value::Undefined,
{
    let g = arg(args, 0);
    let v = arg(args, 2);
    if !g.is_object() {
        return Value::Undefined;
    }
    if !i.ask_yes(Op::IsFinished(g)) {
        let signal = if fulfilled {
            Resume::Return(v)
        } else {
            Resume::Throw(v)
        };
        let _ = resume_coroutine(i, g, signal);
    }
    if fulfilled {
        let res = i.perform(Op::NewIterResult(v, true));
        let _ = i.perform(Op::ResolvePromise(arg(args, 1), res));
    } else {
        let _ = i.perform(Op::RejectPromise(arg(args, 1), v));
    }
    let _ = i.perform(Op::FinishAsyncStep(g));
    Value::Undefined
}

/// A finished generator runs no code: `throw` rethrows, `return` hands its argument back as done,
/// and `next` is done with undefined.
pub proof fn law_finished_generator(w: World, v: Value)
    ensures
        finished_drive(w, Resume::Throw(v)) == (w, Err::<Value, Value>(v)),
        finished_drive(w, Resume::Return(v)).0 == w.plain(
            Op::NewIterResult(v, true),
            Seq::empty(),
        ).0,
        finished_drive(w, Resume::Next(v)) == finished_drive(w, Resume::Next(Value::Undefined)),
{
}

} // verus!
