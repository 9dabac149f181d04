//! The methods of the iterator objects that built-ins hand out: each reads the state of its
//! receiver, takes one step and keeps the new state. While other code may run, the receiver is
//! marked as running or done, so that a call from there finds it so.
use vstd::prelude::*;
use crate::builtin::Builtin;
use crate::install::{
    install_symbol_method, install_table, symbol_method, table_installed, CONCAT_METHODS,
    ZIP_METHODS,
};
use crate::interp::{ErrorKind, Interp, Op, Outcome, Value, WellKnown, World};
use crate::iter_helper::{
    chunking_made, helper_made, iter_helper_next, iter_helper_return, make_chunking_helper,
    make_iter_helper, takes_function, takes_limit, Helper, HelperKind, HelperState,
};
use crate::iterator_objects::{
    iterator_from, iterator_from_value, wrap_next, wrap_return, wrap_returned, FromResult,
};
use crate::num;
use crate::regexp::{match_stepped, regexp_string_iterator_next};
use crate::set_methods::{iterated, map_set_iter_next};
use crate::states::{copy_concat, copy_helper, copy_zip, State, StateView};
use crate::string_methods::{string_iter_next, string_stepped};
use crate::zip::{
    concat_advanced, concat_made, concat_next, concat_return, concat_returned, iterator_concat,
    iterator_zip, zip_advanced, zip_made, zip_next, zip_return, zip_returned, Concat, Zip,
};

verus! {

// Iterators without other code between their steps

/// %StringIteratorPrototype%.next.
pub open spec fn text_next(w: World, this: Value) -> Outcome<Value> {
    let (w, s) = w.state(this);
    match s {
        Some(StateView::Text(it)) => {
            let (w, after, r) = string_stepped(w, it);
            if after == it {
                (w, r)
            } else {
                (w.keep(this, StateView::Text(after)), r)
            }
        },
        _ => w.throw(ErrorKind::Type, "String Iterator next called on an incompatible receiver"),
    }
}

pub fn call_text_next(i: &mut Interp, this: Value) -> (r: Result<Value, Value>)
    ensures
        (final(i)@, r) == text_next(old(i)@, this),
{
    match i.read_state(this) {
        Some(State::Text(it)) => {
            let mut after = it;
            let r = string_iter_next(i, &mut after);
            if after != it {
                i.keep(this, State::Text(after));
            }
            r
        },
        _ => i.type_error("String Iterator next called on an incompatible receiver"),
    }
}

/// The `next` of Map and Set iterators.
pub open spec fn entries_next(w: World, this: Value) -> Outcome<Value> {
    let (w, s) = w.state(this);
    match s {
        Some(StateView::Entries(it)) => {
            let (w, after, r) = iterated(w, it);
            if after == it {
                (w, r)
            } else {
                (w.keep(this, StateView::Entries(after)), r)
            }
        },
        _ => w.throw(ErrorKind::Type, "next called on an incompatible receiver"),
    }
}

pub fn call_entries_next(i: &mut Interp, this: Value) -> (r: Result<Value, Value>)
    ensures
        (final(i)@, r) == entries_next(old(i)@, this),
{
    match i.read_state(this) {
        Some(State::Entries(it)) => {
            let mut after = it;
            let r = map_set_iter_next(i, &mut after);
            if after != it {
                i.keep(this, State::Entries(after));
            }
            r
        },
        _ => i.type_error("next called on an incompatible receiver"),
    }
}

/// %RegExpStringIteratorPrototype%.next.
pub open spec fn matches_next(w: World, this: Value) -> Outcome<Value> {
    let (w, s) = w.state(this);
    match s {
        Some(StateView::Matches(it)) => {
            let (w, after, r) = match_stepped(w, it);
            if after == it {
                (w, r)
            } else {
                (w.keep(this, StateView::Matches(after)), r)
            }
        },
        _ => w.throw(ErrorKind::Type, "next called on a non-RegExp-String-Iterator"),
    }
}

pub fn call_matches_next(i: &mut Interp, this: Value) -> (r: Result<Value, Value>)
    ensures
        (final(i)@, r) == matches_next(old(i)@, this),
{
    match i.read_state(this) {
        Some(State::Matches(it)) => {
            let mut after = it;
            let r = regexp_string_iterator_next(i, &mut after);
            if after != it {
                i.keep(this, State::Matches(after));
            }
            r
        },
        _ => i.type_error("next called on a non-RegExp-String-Iterator"),
    }
}

// Wrappers of Iterator.from

/// `Iterator.from`: the iterator itself, or a wrapper for it.
pub open spec fn from_called(w: World, args: Seq<Value>) -> Outcome<Value> {
    let (w, r) = iterator_from_value(w, args);
    match r {
        Err(e) => (w, Err(e)),
        Ok(FromResult::Itself(v)) => (w, Ok(v)),
        Ok(FromResult::Wrapped { iterator, next }) => {
            let (w, o) = w.tell(
                Op::NewIterator("%WrapForValidIteratorPrototype%"),
                StateView::Wrapped(iterator, next),
            );
            (w, Ok(o))
        },
    }
}

pub fn call_from(i: &mut Interp, args: &[Value]) -> (r: Result<Value, Value>)
    ensures
        (final(i)@, r) == from_called(old(i)@, args@),
{
    match iterator_from(i, args)? {
        FromResult::Itself(v) => Ok(v),
        FromResult::Wrapped { iterator, next } => Ok(
            i.tell(
                Op::NewIterator("%WrapForValidIteratorPrototype%"),
                State::Wrapped(iterator, next),
            ),
        ),
    }
}

/// `next` and `return` of a wrapper.
pub open spec fn wrapper_called(w: World, this: Value, ret: bool) -> Outcome<Value> {
    let (w, s) = w.state(this);
    match s {
        Some(StateView::Wrapped(it, next)) => if ret {
            wrap_returned(w, it)
        } else {
            w.call(next, it, Seq::empty())
        },
        _ => if ret {
            w.throw(ErrorKind::Type, "return called on an incompatible receiver")
        } else {
            w.throw(ErrorKind::Type, "next called on an incompatible receiver")
        },
    }
}

pub fn call_wrapper(i: &mut Interp, this: Value, ret: bool) -> (r: Result<Value, Value>)
    ensures
        (final(i)@, r) == wrapper_called(old(i)@, this, ret),
{
    match i.read_state(this) {
        Some(State::Wrapped(it, next)) => if ret {
            wrap_return(i, it)
        } else {
            wrap_next(i, it, next)
        },
        _ => if ret {
            i.type_error("return called on an incompatible receiver")
        } else {
            i.type_error("next called on an incompatible receiver")
        },
    }
}

// Helpers

/// A fresh helper object.
pub open spec fn helper_object(made: Outcome<HelperState>) -> Outcome<Value> {
    let (w, h) = made;
    match h {
        Err(e) => (w, Err(e)),
        Ok(state) => {
            let (w, o) = w.tell(
                Op::NewIterator("%IteratorHelperPrototype%"),
                StateView::Helper(Helper { state, buffer: Seq::empty() }),
            );
            (w, Ok(o))
        },
    }
}

/// `map`, `filter`, `take`, `drop` and `flatMap`.
pub fn call_helper_maker(i: &mut Interp, this: Value, kind: HelperKind, f: Value) -> (r: Result<
    Value,
    Value,
>)
    requires
        takes_function(kind) || takes_limit(kind),
    ensures
        (final(i)@, r) == helper_object(helper_made(old(i)@, this, kind, f)),
{
    let h = make_iter_helper(i, this, kind, f)?;
    Ok(i.tell(Op::NewIterator("%IteratorHelperPrototype%"), State::Helper(h)))
}

/// `chunks` and `windows`.
pub fn call_chunking_maker(i: &mut Interp, this: Value, size: Value, undersized: Option<Value>) -> (r:
    Result<Value, Value>)
    ensures
        (final(i)@, r) == helper_object(chunking_made(old(i)@, this, size, undersized)),
{
    let h = make_chunking_helper(i, this, size, undersized)?;
    Ok(i.tell(Op::NewIterator("%IteratorHelperPrototype%"), State::Helper(h)))
}

/// A helper while its `next` runs.
pub open spec fn helper_running(h: Helper) -> Helper {
    Helper { state: HelperState { running: true, started: true, ..h.state }, ..h }
}

/// A helper while its `return` runs.
pub open spec fn helper_returning(h: Helper) -> Helper {
    Helper {
        state: if h.state.started {
            HelperState { running: true, ..h.state }
        } else {
            HelperState { done: true, ..h.state }
        },
        ..h
    }
}

/// `next` and `return` of a helper. A zip iterator has methods of its own; by this `next` it is
/// done.
pub open spec fn helper_called(w: World, this: Value, ret: bool) -> Outcome<Value> {
    let (w, s) = w.state(this);
    let complaint = if ret {
        "return called on an incompatible receiver"
    } else {
        "next called on an incompatible receiver"
    };
    match s {
        Some(StateView::Helper(h)) => if !h.wf() {
            w.throw(ErrorKind::Type, complaint)
        } else if h.state.running || h.state.done {
            let (w, _, r) = if ret {
                h.returned(w)
            } else {
                h.advance(w)
            };
            (w, r)
        } else if ret {
            let w = w.keep(this, StateView::Helper(helper_returning(h)));
            let (w, after, r) = h.returned(w);
            (w.keep(this, StateView::Helper(after)), r)
        } else {
            let w = w.keep(this, StateView::Helper(helper_running(h)));
            let (w, after, r) = h.advance(w);
            (w.keep(this, StateView::Helper(after)), r)
        },
        Some(StateView::Zipped(_)) => if ret {
            w.throw(ErrorKind::Type, complaint)
        } else {
            w.iter_result(Value::Undefined, true)
        },
        _ => w.throw(ErrorKind::Type, complaint),
    }
}

pub fn call_helper(i: &mut Interp, this: Value, ret: bool) -> (r: Result<Value, Value>)
    ensures
        (final(i)@, r) == helper_called(old(i)@, this, ret),
{
    let complaint: &'static str = if ret {
        "return called on an incompatible receiver"
    } else {
        "next called on an incompatible receiver"
    };
    match i.read_state(this) {
        Some(State::Helper(mut h)) => {
            if h.state.count > num::COUNT_LIMIT || h.state.size < 1 || h.state.size > 0xffff_ffff {
                return i.type_error(complaint);
            }
            if h.state.running || h.state.done {
                return if ret {
                    iter_helper_return(i, &mut h)
                } else {
                    iter_helper_next(i, &mut h)
                };
            }
            let mut during = copy_helper(&h);
            if !ret {
                during.state.running = true;
                during.state.started = true;
            } else if h.state.started {
                during.state.running = true;
            } else {
                during.state.done = true;
            }
            i.keep(this, State::Helper(during));
            let r = if ret {
                iter_helper_return(i, &mut h)
            } else {
                iter_helper_next(i, &mut h)
            };
            i.keep(this, State::Helper(h));
            r
        },
        Some(State::Zipped(_)) => if ret {
            i.type_error(complaint)
        } else {
            i.iter_result(Value::Undefined, true)
        },
        _ => i.type_error(complaint),
    }
}

// Iterator.zip and Iterator.zipKeyed

/// A fresh object with `next`, `return` and @@iterator of its own.
pub open spec fn zip_object(made: Outcome<Zip>) -> Outcome<Value> {
    let (w, s) = made;
    match s {
        Err(e) => (w, Err(e)),
        Ok(s) => {
            let (w, o) = w.tell(Op::NewIterator("%IteratorHelperPrototype%"), StateView::Zipped(s));
            let w = table_installed(w, o, ZIP_METHODS@, 0);
            let w = symbol_method(w, o, WellKnown::Iterator, "[Symbol.iterator]", Builtin::ReturnThis);
            (w, Ok(o))
        },
    }
}

pub fn call_zip_maker(i: &mut Interp, args: &[Value], keyed: bool) -> (r: Result<Value, Value>)
    ensures
        (final(i)@, r) == zip_object(zip_made(old(i)@, args@, keyed)),
{
    let s = iterator_zip(i, args, keyed)?;
    let o = i.tell(Op::NewIterator("%IteratorHelperPrototype%"), State::Zipped(s));
    install_table(i, o, ZIP_METHODS.as_slice());
    install_symbol_method(i, o, WellKnown::Iterator, "[Symbol.iterator]", Builtin::ReturnThis);
    Ok(o)
}

/// The iterator while `next` or `return` runs.
pub open spec fn zip_during(s: Zip, ret: bool) -> Zip {
    if !ret {
        Zip { running: true, started: true, ..s }
    } else if s.started {
        Zip { running: true, ..s }
    } else {
        Zip { finished: true, ..s }
    }
}

/// `next` and `return`.
pub open spec fn zip_called(w: World, this: Value, ret: bool) -> Outcome<Value> {
    let (w, s) = w.state(this);
    match s {
        Some(StateView::Zipped(s)) => if !s.wf() {
            w.throw(ErrorKind::Type, "next called on an incompatible receiver")
        } else if s.running || s.finished {
            let (w, _, r) = if ret {
                zip_returned(w, s)
            } else {
                zip_advanced(w, s)
            };
            (w, r)
        } else {
            let w = w.keep(this, StateView::Zipped(zip_during(s, ret)));
            let (w, after, r) = if ret {
                zip_returned(w, s)
            } else {
                zip_advanced(w, s)
            };
            (w.keep(this, StateView::Zipped(after)), r)
        },
        _ => w.throw(ErrorKind::Type, "next called on an incompatible receiver"),
    }
}

pub fn call_zip(i: &mut Interp, this: Value, ret: bool) -> (r: Result<Value, Value>)
    ensures
        (final(i)@, r) == zip_called(old(i)@, this, ret),
{
    match i.read_state(this) {
        Some(State::Zipped(mut s)) => {
            if s.nexts.len() != s.iters.len() || s.closed.len() != s.iters.len() || s.pad.len()
                != s.iters.len() || (s.keyed && s.keys.len() != s.iters.len()) {
                return i.type_error("next called on an incompatible receiver");
            }
            if s.running || s.finished {
                return if ret {
                    zip_return(i, &mut s)
                } else {
                    zip_next(i, &mut s)
                };
            }
            let mut during = copy_zip(&s);
            if !ret {
                during.running = true;
                during.started = true;
            } else if s.started {
                during.running = true;
            } else {
                during.finished = true;
            }
            assert(during@ =~= zip_during(s@, ret));
            i.keep(this, State::Zipped(during));
            let r = if ret {
                zip_return(i, &mut s)
            } else {
                zip_next(i, &mut s)
            };
            i.keep(this, State::Zipped(s));
            r
        },
        _ => i.type_error("next called on an incompatible receiver"),
    }
}

// Iterator.concat

/// A fresh object with `next`, `return` and @@iterator of its own.
pub open spec fn concat_object(made: Outcome<Concat>) -> Outcome<Value> {
    let (w, s) = made;
    match s {
        Err(e) => (w, Err(e)),
        Ok(s) => {
            let (w, o) = w.tell(Op::NewIterator("%IteratorPrototype%"), StateView::Concat(s));
            let w = table_installed(w, o, CONCAT_METHODS@, 0);
            let w = symbol_method(w, o, WellKnown::Iterator, "[Symbol.iterator]", Builtin::ReturnThis);
            (w, Ok(o))
        },
    }
}

pub fn call_concat_maker(i: &mut Interp, args: &[Value]) -> (r: Result<Value, Value>)
    ensures
        (final(i)@, r) == concat_object(concat_made(old(i)@, args@)),
{
    let s = iterator_concat(i, args)?;
    let o = i.tell(Op::NewIterator("%IteratorPrototype%"), State::Concat(s));
    install_table(i, o, CONCAT_METHODS.as_slice());
    install_symbol_method(i, o, WellKnown::Iterator, "[Symbol.iterator]", Builtin::ReturnThis);
    Ok(o)
}

/// The iterator while `next` or `return` runs.
pub open spec fn concat_during(s: Concat, ret: bool) -> Concat {
    if !ret {
        Concat { running: true, started: true, ..s }
    } else if s.started {
        Concat { running: true, ..s }
    } else {
        Concat { done: true, ..s }
    }
}

/// `next` and `return`.
pub open spec fn concat_called(w: World, this: Value, ret: bool) -> Outcome<Value> {
    let (w, s) = w.state(this);
    match s {
        Some(StateView::Concat(s)) => if !s.wf() {
            w.throw(ErrorKind::Type, "next called on an incompatible receiver")
        } else if s.running || s.done {
            let (w, _, r) = if ret {
                concat_returned(w, s)
            } else {
                concat_advanced(w, s)
            };
            (w, r)
        } else {
            let w = w.keep(this, StateView::Concat(concat_during(s, ret)));
            let (w, after, r) = if ret {
                concat_returned(w, s)
            } else {
                concat_advanced(w, s)
            };
            (w.keep(this, StateView::Concat(after)), r)
        },
        _ => w.throw(ErrorKind::Type, "next called on an incompatible receiver"),
    }
}

pub fn call_concat(i: &mut Interp, this: Value, ret: bool) -> (r: Result<Value, Value>)
    ensures
        (final(i)@, r) == concat_called(old(i)@, this, ret),
{
    match i.read_state(this) {
        Some(State::Concat(mut s)) => {
            if s.methods.len() != s.items.len() || s.index > s.items.len() {
                return i.type_error("next called on an incompatible receiver");
            }
            if s.running || s.done {
                return if ret {
                    concat_return(i, &mut s)
                } else {
                    concat_next(i, &mut s)
                };
            }
            let mut during = copy_concat(&s);
            if !ret {
                during.running = true;
                during.started = true;
            } else if s.started {
                during.running = true;
            } else {
                during.done = true;
            }
            assert(during@ =~= concat_during(s@, ret));
            i.keep(this, State::Concat(during));
            let r = if ret {
                concat_return(i, &mut s)
            } else {
                concat_next(i, &mut s)
            };
            i.keep(this, State::Concat(s));
            r
        },
        _ => i.type_error("next called on an incompatible receiver"),
    }
}

} // verus!
