//! The methods of Map, Set, WeakMap and WeakSet.
//!
//! A callback may change the receiver while a method runs, so a method never holds a copy of it
//! across a call: it asks for one slot, or for one key, at a time.
use vstd::prelude::*;
use crate::collections::{
    emptied, holds_at, inserted, key_in, live, lookup, position_of, removed, unique, value_in,
    Collection, Slots,
};
use crate::equality::{
    canonical_key, canonicalize_map_key, law_canonical_keys_agree,
    law_same_value_zero_is_equivalence, same_zero,
};
use crate::interp::{
    arg, arg_at, Brand, ErrorKind, Interp, Key, Op, Outcome, SlotRead, Value, World,
};
use crate::iterator::{step_iter_with, stepped, Bound};
use crate::num;
use crate::object::{group_by, group_views, grouped_by, Group};
use crate::realm::{created_from, new_from_ctor};
use crate::slots::{answered, number_of, Hidden, Internal};

verus! {

/// The receiver must be a collection of the kind.
pub open spec fn branded(w: World, this: Value, brand: Brand) -> Outcome<()> {
    let (w, ok) = if this.object() {
        w.yes(Op::HasBrand(this, brand))
    } else {
        (w, false)
    };
    if ok {
        (w, Ok(()))
    } else {
        w.throw(ErrorKind::Type, "method called on an incompatible receiver")
    }
}

/// Brand-check a receiver: it must be an object carrying the slots of the exact kind, else
/// TypeError.
pub fn require_brand(i: &mut Interp, this: Value, brand: Brand) -> (r: Result<(), Value>)
    ensures
        (final(i)@, r) == branded(old(i)@, this, brand),
{
    if this.is_object() {
        if i.ask_yes(Op::HasBrand(this, brand)) {
            return Ok(());
        }
    }
    i.type_error("method called on an incompatible receiver")
}

// Set-like arguments

/// What GetSetRecord reads from a set-like argument.
#[derive(Clone, Copy, PartialEq, Eq, Structural, Debug)]
pub struct SetRecord {
    pub test: Value,
    pub keys: Value,
    pub size: Bound,
}

/// GetSetRecord: a set-like `other` exposes a numeric `size`, and callable `has` and `keys`.
pub open spec fn record_of(w: World, other: Value) -> Outcome<SetRecord> {
    if !other.object() {
        w.throw(ErrorKind::Type, "argument is not an object")
    } else {
        let (w, v) = w.get(other, Key::Name("size"));
        match v {
            Err(e) => (w, Err(e)),
            Ok(v) => {
                let (w, n) = w.number(v);
                match n {
                    Err(e) => (w, Err(e)),
                    Ok(n) => if num::nan(n) {
                        w.throw(ErrorKind::Type, "set-like size is NaN")
                    } else if (num::infinite(n) && num::negative(n)) || (num::finite(n)
                        && num::integer_part(n) < 0) {
                        w.throw(ErrorKind::Range, "set-like size is negative")
                    } else {
                        let size = if num::infinite(n) {
                            Bound::Infinite
                        } else {
                            Bound::Finite(num::cast_u64(n) as u64)
                        };
                        let (w, test) = w.get(other, Key::Name("has"));
                        match test {
                            Err(e) => (w, Err(e)),
                            Ok(test) => if !test.callable() {
                                w.throw(ErrorKind::Type, "set-like has is not callable")
                            } else {
                                let (w, keys) = w.get(other, Key::Name("keys"));
                                match keys {
                                    Err(e) => (w, Err(e)),
                                    Ok(keys) => if !keys.callable() {
                                        w.throw(ErrorKind::Type, "set-like keys is not callable")
                                    } else {
                                        (w, Ok(SetRecord { test, keys, size }))
                                    },
                                }
                            },
                        }
                    },
                }
            },
        }
    }
}

/// GetSetRecord: size → ToNumber (NaN throws TypeError), ToIntegerOrInfinity (negative throws
/// RangeError); then `has` and `keys` must be callable.
pub fn set_record(i: &mut Interp, other: Value) -> (r: Result<SetRecord, Value>)
    ensures
        (final(i)@, r) == record_of(old(i)@, other),
{
    if !other.is_object() {
        return i.type_error("argument is not an object");
    }
    let v = i.get_member(other, Key::Name("size"))?;
    let n: u64 = i.to_number(v)?;
    if num::is_nan(n) {
        return i.type_error("set-like size is NaN");
    }
    proof {
        num::lemma_magnitude_nonneg(n);
    }
    let below = if num::is_infinite(n) {
        num::is_negative(n)
    } else {
        num::as_i64(n) < 0
    };
    if below {
        return i.fail(ErrorKind::Range, "set-like size is negative");
    }
    let size = if num::is_infinite(n) {
        Bound::Infinite
    } else {
        Bound::Finite(num::as_u64(n))
    };
    let test = i.get_member(other, Key::Name("has"))?;
    if !test.is_callable() {
        return i.type_error("set-like has is not callable");
    }
    let keys = i.get_member(other, Key::Name("keys"))?;
    if !keys.is_callable() {
        return i.type_error("set-like keys is not callable");
    }
    Ok(SetRecord { test, keys, size })
}

pub open spec fn other_has(w: World, test: Value, other: Value, v: Value) -> Outcome<bool> {
    let (w, r) = w.call(test, other, seq![v]);
    match r {
        Err(e) => (w, Err(e)),
        Ok(r) => (w, Ok(w.truthy(r))),
    }
}

pub fn set_like_has(i: &mut Interp, test: Value, other: Value, v: Value) -> (r: Result<bool, Value>)
    ensures
        (final(i)@, r) == other_has(old(i)@, test, other, v),
{
    let args = vec![v];
    assert(args@ =~= seq![v]);
    let r = i.call(test, other, args)?;
    Ok(i.to_boolean(r))
}

pub open spec fn keys_opened(w: World, keys: Value, other: Value) -> Outcome<(Value, Value)> {
    let (w, iter) = w.call(keys, other, Seq::empty());
    match iter {
        Err(e) => (w, Err(e)),
        Ok(iter) => {
            let (w, next) = w.get(iter, Key::Name("next"));
            match next {
                Err(e) => (w, Err(e)),
                Ok(next) => if !next.callable() {
                    w.throw(ErrorKind::Type, "set-like keys iterator has no next method")
                } else {
                    (w, Ok((iter, next)))
                },
            }
        },
    }
}

/// Open a set-like's keys iterator record: `(iterator, nextMethod)`.
pub fn set_like_open(i: &mut Interp, keys: Value, other: Value) -> (r: Result<(Value, Value), Value>)
    ensures
        (final(i)@, r) == keys_opened(old(i)@, keys, other),
        r matches Ok(p) ==> p.1.callable(),
{
    let args: Vec<Value> = Vec::new();
    assert(args@ =~= Seq::<Value>::empty());
    let iter = i.call(keys, other, args)?;
    let next = i.get_member(iter, Key::Name("next"))?;
    if !next.is_callable() {
        return i.type_error("set-like keys iterator has no next method");
    }
    Ok((iter, next))
}

pub open spec fn key_stepped(w: World, iter: Value, next: Value) -> Outcome<Option<Value>> {
    let (w, r) = w.call(next, iter, Seq::empty());
    match r {
        Err(e) => (w, Err(e)),
        Ok(r) => if !r.object() {
            w.throw(ErrorKind::Type, "iterator result is not an object")
        } else {
            let (w, done) = w.get(r, Key::Name("done"));
            match done {
                Err(e) => (w, Err(e)),
                Ok(done) => if w.truthy(done) {
                    (w, Ok(None))
                } else {
                    let (w, v) = w.get(r, Key::Name("value"));
                    match v {
                        Err(e) => (w, Err(e)),
                        Ok(v) => (w, Ok(Some(canonical_key(v)))),
                    }
                },
            }
        },
    }
}

/// Step a set-like keys iterator: `Some(value)` or `None` when done. `-0` is canonicalized to `+0`.
pub fn set_like_next(i: &mut Interp, iter: Value, next: Value) -> (r: Result<Option<Value>, Value>)
    ensures
        (final(i)@, r) == key_stepped(old(i)@, iter, next),
{
    let args: Vec<Value> = Vec::new();
    assert(args@ =~= Seq::<Value>::empty());
    let r = i.call(next, iter, args)?;
    if !r.is_object() {
        return i.type_error("iterator result is not an object");
    }
    let done = i.get_member(r, Key::Name("done"))?;
    if i.to_boolean(done) {
        Ok(None)
    } else {
        let v = i.get_member(r, Key::Name("value"))?;
        Ok(Some(canonicalize_map_key(v)))
    }
}

pub open spec fn keys_closed(w: World, iter: Value) -> World {
    let (w, ret) = w.get(iter, Key::Name("return"));
    match ret {
        Ok(ret) => if ret.callable() {
            w.call(ret, iter, Seq::empty()).0
        } else {
            w
        },
        Err(_) => w,
    }
}

/// IteratorClose a set-like keys iterator on early exit (swallowing errors).
pub fn set_like_close(i: &mut Interp, iter: Value)
    ensures
        final(i)@ == keys_closed(old(i)@, iter),
{
    if let Ok(ret) = i.get_member(iter, Key::Name("return")) {
        if ret.is_callable() {
            let args: Vec<Value> = Vec::new();
            assert(args@ =~= Seq::<Value>::empty());
            let _ = i.call(ret, iter, args);
        }
    }
}

// The two ways to go through a pair of sets

/// Adds a key that is not there yet.
pub open spec fn added(s: Slots, k: Value) -> Slots {
    if position_of(s, k) is Some {
        s
    } else {
        inserted(s, k, k)
    }
}

fn add_key(acc: &mut Collection, k: Value)
    requires
        old(acc).wf(),
    ensures
        final(acc).wf(),
        final(acc)@ == added(old(acc)@, k),
{
    if !acc.collection_has(k) {
        acc.collection_set(k, k);
    }
}

/// Whether a walk ends early, and on which answer.
pub open spec fn ends_on(stop: Option<bool>, b: bool) -> bool {
    stop is Some && stop->0 == b
}

/// Walks the receiver from slot `p` on, asking the other for each live key. Keys that the other
/// has are added to `acc`; an answer equal to `stop` ends the walk, which gives nothing back.
pub open spec fn walked(
    w: World,
    this: Value,
    test: Value,
    other: Value,
    p: int,
    acc: Slots,
    stop: Option<bool>,
) -> Outcome<Option<Slots>>
    decreases w.left(),
{
    let (w1, slot) = w.slot(this, p as u64);
    match slot {
        SlotRead::End => (w1, Ok(Some(acc))),
        SlotRead::Deleted => if p < u64::MAX {
            walked(w1, this, test, other, p + 1, acc, stop)
        } else {
            (w1, Ok(Some(acc)))
        },
        SlotRead::Live(k, _) => {
            let (w2, b) = other_has(w1, test, other, k);
            match b {
                Err(e) => (w2, Err(e)),
                Ok(b) => if ends_on(stop, b) {
                    (w2, Ok(None))
                } else {
                    let acc = if b {
                        added(acc, k)
                    } else {
                        acc
                    };
                    if p < u64::MAX {
                        walked(w2, this, test, other, p + 1, acc, stop)
                    } else {
                        (w2, Ok(Some(acc)))
                    }
                },
            }
        },
    }
}

/// Walks the receiver LIVE by index, probing the other's `has` — the callback may delete and
/// re-append entries, and the walk observes that (appended entries are visited).
fn walk_receiver(i: &mut Interp, this: Value, test: Value, other: Value, stop: Option<bool>) -> (r:
    Result<Option<Collection>, Value>)
    ensures
        final(i)@ == walked(old(i)@, this, test, other, 0, Slots::empty(), stop).0,
        match r {
            Ok(Some(c)) => c.wf() && walked(
                old(i)@,
                this,
                test,
                other,
                0,
                Slots::empty(),
                stop,
            ).1 == Ok::<Option<Slots>, Value>(Some(c@)),
            Ok(None) => walked(old(i)@, this, test, other, 0, Slots::empty(), stop).1 == Ok::<
                Option<Slots>,
                Value,
            >(None),
            Err(e) => walked(old(i)@, this, test, other, 0, Slots::empty(), stop).1 == Err::<
                Option<Slots>,
                Value,
            >(e),
        },
{
    let mut acc = Collection::new();
    let mut p: u64 = 0;
    loop
        invariant
            acc.wf(),
            walked(i@, this, test, other, p as int, acc@, stop) == walked(
                old(i)@,
                this,
                test,
                other,
                0,
                Slots::empty(),
                stop,
            ),
        decreases i@.left(),
    {
        match i.slot_at(this, p) {
            SlotRead::End => return Ok(Some(acc)),
            SlotRead::Deleted => {},
            SlotRead::Live(k, _) => {
                let b = set_like_has(i, test, other, k)?;
                if let Some(s) = stop {
                    if s == b {
                        return Ok(None);
                    }
                }
                if b {
                    add_key(&mut acc, k);
                }
            },
        }
        if p == u64::MAX {
            return Ok(Some(acc));
        }
        p += 1;
    }
}

/// What is done with each key of the other set.
#[derive(Clone, Copy, PartialEq, Eq, Structural, Debug)]
pub enum KeyAction {
    /// Add it.
    Add,
    /// Add it where the receiver holds it.
    AddHeld,
    /// Drop it.
    Drop,
    /// Drop it where the receiver holds it, add it otherwise.
    Toggle,
    /// End where the receiver does not hold it.
    EndAbsent,
    /// End where the receiver holds it.
    EndHeld,
}

/// Goes through the other's keys, doing the action for each with `acc`. Ending early closes the
/// iterator and gives nothing back.
pub open spec fn keyed(
    w: World,
    this: Value,
    iter: Value,
    next: Value,
    acc: Slots,
    action: KeyAction,
) -> Outcome<Option<Slots>>
    decreases w.left(),
{
    let (w1, step) = key_stepped(w, iter, next);
    match step {
        Err(e) => (w1, Err(e)),
        Ok(None) => (w1, Ok(Some(acc))),
        Ok(Some(k)) => match action {
            KeyAction::Add => keyed(w1, this, iter, next, added(acc, k), action),
            KeyAction::Drop => keyed(w1, this, iter, next, removed(acc, k), action),
            KeyAction::AddHeld => {
                let (w2, held) = w1.yes(Op::HoldsKey(this, k));
                keyed(
                    w2,
                    this,
                    iter,
                    next,
                    if held {
                        added(acc, k)
                    } else {
                        acc
                    },
                    action,
                )
            },
            KeyAction::Toggle => {
                let (w2, held) = w1.yes(Op::HoldsKey(this, k));
                keyed(
                    w2,
                    this,
                    iter,
                    next,
                    if held {
                        removed(acc, k)
                    } else {
                        added(acc, k)
                    },
                    action,
                )
            },
            KeyAction::EndAbsent => {
                let (w2, held) = w1.yes(Op::HoldsKey(this, k));
                if held {
                    keyed(w2, this, iter, next, acc, action)
                } else {
                    (keys_closed(w2, iter), Ok(None))
                }
            },
            KeyAction::EndHeld => {
                let (w2, held) = w1.yes(Op::HoldsKey(this, k));
                if held {
                    (keys_closed(w2, iter), Ok(None))
                } else {
                    keyed(w2, this, iter, next, acc, action)
                }
            },
        },
    }
}

/// Goes through the other's keys against the LIVE receiver (the iterator may change it).
fn go_through_keys(
    i: &mut Interp,
    this: Value,
    iter: Value,
    next: Value,
    start: Collection,
    action: KeyAction,
) -> (r: Result<Option<Collection>, Value>)
    requires
        start.wf(),
    ensures
        final(i)@ == keyed(old(i)@, this, iter, next, start@, action).0,
        match r {
            Ok(Some(c)) => c.wf() && keyed(old(i)@, this, iter, next, start@, action).1 == Ok::<
                Option<Slots>,
                Value,
            >(Some(c@)),
            Ok(None) => keyed(old(i)@, this, iter, next, start@, action).1 == Ok::<
                Option<Slots>,
                Value,
            >(None),
            Err(e) => keyed(old(i)@, this, iter, next, start@, action).1 == Err::<
                Option<Slots>,
                Value,
            >(e),
        },
{
    let ghost s0 = start@;
    let mut acc = start;
    loop
        invariant
            acc.wf(),
            s0 == start@,
            keyed(i@, this, iter, next, acc@, action) == keyed(
                old(i)@,
                this,
                iter,
                next,
                s0,
                action,
            ),
        decreases i@.left(),
    {
        match set_like_next(i, iter, next)? {
            None => return Ok(Some(acc)),
            Some(k) => match action {
                KeyAction::Add => add_key(&mut acc, k),
                KeyAction::Drop => {
                    let _ = acc.collection_delete(k);
                },
                KeyAction::AddHeld => {
                    if i.ask_yes(Op::HoldsKey(this, k)) {
                        add_key(&mut acc, k);
                    }
                },
                KeyAction::Toggle => {
                    if i.ask_yes(Op::HoldsKey(this, k)) {
                        let _ = acc.collection_delete(k);
                    } else {
                        add_key(&mut acc, k);
                    }
                },
                KeyAction::EndAbsent => {
                    if !i.ask_yes(Op::HoldsKey(this, k)) {
                        set_like_close(i, iter);
                        return Ok(None);
                    }
                },
                KeyAction::EndHeld => {
                    if i.ask_yes(Op::HoldsKey(this, k)) {
                        set_like_close(i, iter);
                        return Ok(None);
                    }
                },
            },
        }
    }
}

/// A collection of the listed keys from `j` on, added to `acc`.
pub open spec fn all_added(keys: Seq<Value>, j: int, acc: Slots) -> Slots
    decreases keys.len() - j,
{
    if j < 0 || j >= keys.len() {
        acc
    } else {
        all_added(keys, j + 1, added(acc, keys[j]))
    }
}

fn collect_keys(keys: &Vec<Value>) -> (r: Collection)
    ensures
        r.wf(),
        r@ == all_added(keys@, 0, Slots::empty()),
{
    let mut acc = Collection::new();
    let mut j: usize = 0;
    while j < keys.len()
        invariant
            j <= keys@.len(),
            acc.wf(),
            all_added(keys@, j as int, acc@) == all_added(keys@, 0, Slots::empty()),
        decreases keys@.len() - j,
    {
        add_key(&mut acc, keys[j]);
        j += 1;
    }
    acc
}

/// The receiver's keys as they are now.
pub open spec fn receiver_keys(w: World, this: Value) -> Outcome<Slots> {
    let (w, keys) = w.list(Op::LiveKeys(this));
    match keys {
        Err(e) => (w, Err(e)),
        Ok(keys) => (w, Ok(all_added(keys, 0, Slots::empty()))),
    }
}

fn read_receiver_keys(i: &mut Interp, this: Value) -> (r: Result<Collection, Value>)
    ensures
        final(i)@ == receiver_keys(old(i)@, this).0,
        match r {
            Ok(c) => c.wf() && receiver_keys(old(i)@, this).1 == Ok::<Slots, Value>(c@),
            Err(e) => receiver_keys(old(i)@, this).1 == Err::<Slots, Value>(e),
        },
{
    let keys: Vec<Value> = i.ask_list(Op::LiveKeys(this))?;
    Ok(collect_keys(&keys))
}

/// A fresh Set of the keys in order.
pub open spec fn set_of(w: World, s: Slots) -> Outcome<Value> {
    let (w, v) = w.plain(Op::NewSet, live(s).map_values(|e: (Value, Value)| e.0));
    (w, Ok(v))
}

fn new_set(i: &mut Interp, c: Collection) -> (r: Result<Value, Value>)
    ensures
        (final(i)@, r) == set_of(old(i)@, c@),
{
    let keys = c.live_keys();
    Ok(i.ask_plain(Op::NewSet, keys))
}

/// The receiver is at most as large as the other.
pub open spec fn at_most(w: World, this: Value, size: Bound) -> (World, bool) {
    let (w, n) = w.plain(Op::LiveCount(this), Seq::empty());
    (
        w,
        match n {
            Value::Num(n) => match size {
                Bound::Finite(b) => num::cast_u64(n) <= b,
                Bound::Infinite => true,
            },
            _ => true,
        },
    )
}

fn is_at_most(i: &mut Interp, this: Value, size: Bound) -> (r: bool)
    ensures
        (final(i)@, r) == at_most(old(i)@, this, size),
{
    match i.perform(Op::LiveCount(this)) {
        Value::Num(n) => match size {
            Bound::Finite(b) => num::as_u64(n) <= b,
            Bound::Infinite => true,
        },
        _ => true,
    }
}

/// The receiver is smaller than the other.
pub open spec fn below(w: World, this: Value, size: Bound) -> (World, bool) {
    let (w, n) = w.plain(Op::LiveCount(this), Seq::empty());
    (
        w,
        match n {
            Value::Num(n) => match size {
                Bound::Finite(b) => num::cast_u64(n) < b,
                Bound::Infinite => true,
            },
            _ => false,
        },
    )
}

fn is_below(i: &mut Interp, this: Value, size: Bound) -> (r: bool)
    ensures
        (final(i)@, r) == below(old(i)@, this, size),
{
    match i.perform(Op::LiveCount(this)) {
        Value::Num(n) => match size {
            Bound::Finite(b) => num::as_u64(n) < b,
            Bound::Infinite => true,
        },
        _ => false,
    }
}

// The set operations

/// The receiver and the argument of a set operation, checked.
pub open spec fn operands(w: World, this: Value, other: Value) -> Outcome<SetRecord> {
    let (w, b) = branded(w, this, Brand::SetData);
    match b {
        Err(e) => (w, Err(e)),
        Ok(_) => record_of(w, other),
    }
}

fn read_operands(i: &mut Interp, this: Value, other: Value) -> (r: Result<SetRecord, Value>)
    ensures
        (final(i)@, r) == operands(old(i)@, this, other),
{
    require_brand(i, this, Brand::SetData)?;
    set_record(i, other)
}

/// `union` and `symmetricDifference`: the keys iterator is opened before the receiver is copied.
pub open spec fn combined(w: World, this: Value, other: Value, action: KeyAction) -> Outcome<Value> {
    let (w, rec) = operands(w, this, other);
    match rec {
        Err(e) => (w, Err(e)),
        Ok(rec) => {
            let (w, it) = keys_opened(w, rec.keys, other);
            match it {
                Err(e) => (w, Err(e)),
                Ok((iter, next)) => {
                    let (w, own) = receiver_keys(w, this);
                    match own {
                        Err(e) => (w, Err(e)),
                        Ok(own) => {
                            let (w, r) = keyed(w, this, iter, next, own, action);
                            match r {
                                Err(e) => (w, Err(e)),
                                Ok(None) => (w, Ok(Value::Undefined)),
                                Ok(Some(s)) => set_of(w, s),
                            }
                        },
                    }
                },
            }
        },
    }
}

fn combine(i: &mut Interp, this: Value, other: Value, action: KeyAction) -> (r: Result<
    Value,
    Value,
>)
    ensures
        (final(i)@, r) == combined(old(i)@, this, other, action),
{
    let rec = read_operands(i, this, other)?;
    let (iter, next) = set_like_open(i, rec.keys, other)?;
    let own = read_receiver_keys(i, this)?;
    match go_through_keys(i, this, iter, next, own, action)? {
        None => Ok(Value::Undefined),
        Some(c) => new_set(i, c),
    }
}

/// `Set.prototype.union`.
pub fn set_union(i: &mut Interp, this: Value, args: &[Value]) -> (r: Result<Value, Value>)
    ensures
        (final(i)@, r) == combined(old(i)@, this, arg_at(args@, 0), KeyAction::Add),
{
    combine(i, this, arg(args, 0), KeyAction::Add)
}

/// `Set.prototype.symmetricDifference`: a key present in the LIVE receiver is removed from the
/// result, an absent one is appended.
pub fn set_symmetric_difference(i: &mut Interp, this: Value, args: &[Value]) -> (r: Result<
    Value,
    Value,
>)
    ensures
        (final(i)@, r) == combined(old(i)@, this, arg_at(args@, 0), KeyAction::Toggle),
{
    combine(i, this, arg(args, 0), KeyAction::Toggle)
}

/// `Set.prototype.intersection`: the smaller side is gone through.
pub open spec fn intersected(w: World, this: Value, other: Value) -> Outcome<Value> {
    let (w, rec) = operands(w, this, other);
    match rec {
        Err(e) => (w, Err(e)),
        Ok(rec) => {
            let (w, small) = at_most(w, this, rec.size);
            if small {
                let (w, r) = walked(w, this, rec.test, other, 0, Slots::empty(), None);
                match r {
                    Err(e) => (w, Err(e)),
                    Ok(None) => (w, Ok(Value::Undefined)),
                    Ok(Some(s)) => set_of(w, s),
                }
            } else {
                let (w, it) = keys_opened(w, rec.keys, other);
                match it {
                    Err(e) => (w, Err(e)),
                    Ok((iter, next)) => {
                        let (w, r) = keyed(
                            w,
                            this,
                            iter,
                            next,
                            Slots::empty(),
                            KeyAction::AddHeld,
                        );
                        match r {
                            Err(e) => (w, Err(e)),
                            Ok(None) => (w, Ok(Value::Undefined)),
                            Ok(Some(s)) => set_of(w, s),
                        }
                    },
                }
            }
        },
    }
}

pub fn set_intersection(i: &mut Interp, this: Value, args: &[Value]) -> (r: Result<Value, Value>)
    ensures
        (final(i)@, r) == intersected(old(i)@, this, arg_at(args@, 0)),
{
    let other = arg(args, 0);
    let rec = read_operands(i, this, other)?;
    let result = if is_at_most(i, this, rec.size) {
        walk_receiver(i, this, rec.test, other, None)?
    } else {
        // Iterate the other's keys, probing this Set's LIVE data (no `has` calls on the other).
        let (iter, next) = set_like_open(i, rec.keys, other)?;
        let empty = Collection::new();
        go_through_keys(i, this, iter, next, empty, KeyAction::AddHeld)?
    };
    match result {
        None => Ok(Value::Undefined),
        Some(c) => new_set(i, c),
    }
}

/// The receiver's keys from `j` on that the other does not have.
pub open spec fn kept_from(
    w: World,
    test: Value,
    other: Value,
    keys: Seq<Value>,
    j: int,
    acc: Slots,
) -> Outcome<Slots>
    decreases keys.len() - j,
{
    if j < 0 || j >= keys.len() {
        (w, Ok(acc))
    } else {
        let (w1, b) = other_has(w, test, other, keys[j]);
        match b {
            Err(e) => (w1, Err(e)),
            Ok(true) => kept_from(w1, test, other, keys, j + 1, acc),
            Ok(false) => kept_from(w1, test, other, keys, j + 1, added(acc, keys[j])),
        }
    }
}

/// `Set.prototype.difference`: the receiver is copied first, and the smaller side gone through.
pub open spec fn subtracted(w: World, this: Value, other: Value) -> Outcome<Value> {
    let (w, rec) = operands(w, this, other);
    match rec {
        Err(e) => (w, Err(e)),
        Ok(rec) => {
            let (w, keys) = w.list(Op::LiveKeys(this));
            match keys {
                Err(e) => (w, Err(e)),
                Ok(keys) => if !(rec.size matches Bound::Finite(b) && keys.len() > b) {
                    let (w, s) = kept_from(w, rec.test, other, keys, 0, Slots::empty());
                    match s {
                        Err(e) => (w, Err(e)),
                        Ok(s) => set_of(w, s),
                    }
                } else {
                    let (w, it) = keys_opened(w, rec.keys, other);
                    match it {
                        Err(e) => (w, Err(e)),
                        Ok((iter, next)) => {
                            let own = all_added(keys, 0, Slots::empty());
                            let (w, r) = keyed(w, this, iter, next, own, KeyAction::Drop);
                            match r {
                                Err(e) => (w, Err(e)),
                                Ok(None) => (w, Ok(Value::Undefined)),
                                Ok(Some(s)) => set_of(w, s),
                            }
                        },
                    }
                },
            }
        },
    }
}

pub fn set_difference(i: &mut Interp, this: Value, args: &[Value]) -> (r: Result<Value, Value>)
    ensures
        (final(i)@, r) == subtracted(old(i)@, this, arg_at(args@, 0)),
{
    let other = arg(args, 0);
    let rec = read_operands(i, this, other)?;
    let keys: Vec<Value> = i.ask_list(Op::LiveKeys(this))?;
    let larger = match rec.size {
        Bound::Finite(b) => keys.len() as u64 > b,
        Bound::Infinite => false,
    };
    if !larger {
        // Iterate this Set, dropping elements the other's `has` reports.
        let mut acc = Collection::new();
        let mut j: usize = 0;
        let ghost start = i@;
        while j < keys.len()
            invariant
                j <= keys@.len(),
                acc.wf(),
                kept_from(start, rec.test, other, keys@, 0, Slots::empty()) == kept_from(
                    i@,
                    rec.test,
                    other,
                    keys@,
                    j as int,
                    acc@,
                ),
                subtracted(old(i)@, this, arg_at(args@, 0)) == {
                    let (w, s) = kept_from(start, rec.test, other, keys@, 0, Slots::empty());
                    match s {
                        Err(e) => (w, Err(e)),
                        Ok(s) => set_of(w, s),
                    }
                },
            decreases keys@.len() - j,
        {
            if !set_like_has(i, rec.test, other, keys[j])? {
                add_key(&mut acc, keys[j]);
            }
            j += 1;
        }
        return new_set(i, acc);
    }
    // Start from this Set and remove each of the other's keys.
    let (iter, next) = set_like_open(i, rec.keys, other)?;
    let own = collect_keys(&keys);
    match go_through_keys(i, this, iter, next, own, KeyAction::Drop)? {
        None => Ok(Value::Undefined),
        Some(c) => new_set(i, c),
    }
}

/// `Set.prototype.isSubsetOf`: a larger set cannot be a subset; otherwise every element must be in
/// the other.
pub open spec fn subset_tested(w: World, this: Value, other: Value) -> Outcome<Value> {
    let (w, rec) = operands(w, this, other);
    match rec {
        Err(e) => (w, Err(e)),
        Ok(rec) => {
            let (w, small) = at_most(w, this, rec.size);
            if !small {
                (w, Ok(Value::Bool(false)))
            } else {
                let (w, r) = walked(w, this, rec.test, other, 0, Slots::empty(), Some(false));
                match r {
                    Err(e) => (w, Err(e)),
                    Ok(r) => (w, Ok(Value::Bool(r is Some))),
                }
            }
        },
    }
}

pub fn set_is_subset_of(i: &mut Interp, this: Value, args: &[Value]) -> (r: Result<Value, Value>)
    ensures
        (final(i)@, r) == subset_tested(old(i)@, this, arg_at(args@, 0)),
{
    let other = arg(args, 0);
    let rec = read_operands(i, this, other)?;
    if !is_at_most(i, this, rec.size) {
        return Ok(Value::Bool(false));
    }
    let r = walk_receiver(i, this, rec.test, other, Some(false))?;
    Ok(Value::Bool(r.is_some()))
}

/// `Set.prototype.isSupersetOf`: a smaller set cannot be a superset; otherwise every other key
/// must be in this.
pub open spec fn superset_tested(w: World, this: Value, other: Value) -> Outcome<Value> {
    let (w, rec) = operands(w, this, other);
    match rec {
        Err(e) => (w, Err(e)),
        Ok(rec) => {
            let (w, small) = below(w, this, rec.size);
            if small {
                (w, Ok(Value::Bool(false)))
            } else {
                let (w, it) = keys_opened(w, rec.keys, other);
                match it {
                    Err(e) => (w, Err(e)),
                    Ok((iter, next)) => {
                        let (w, r) = keyed(
                            w,
                            this,
                            iter,
                            next,
                            Slots::empty(),
                            KeyAction::EndAbsent,
                        );
                        match r {
                            Err(e) => (w, Err(e)),
                            Ok(r) => (w, Ok(Value::Bool(r is Some))),
                        }
                    },
                }
            }
        },
    }
}

pub fn set_is_superset_of(i: &mut Interp, this: Value, args: &[Value]) -> (r: Result<Value, Value>)
    ensures
        (final(i)@, r) == superset_tested(old(i)@, this, arg_at(args@, 0)),
{
    let other = arg(args, 0);
    let rec = read_operands(i, this, other)?;
    if is_below(i, this, rec.size) {
        return Ok(Value::Bool(false));
    }
    let (iter, next) = set_like_open(i, rec.keys, other)?;
    let empty = Collection::new();
    let r = go_through_keys(i, this, iter, next, empty, KeyAction::EndAbsent)?;
    Ok(Value::Bool(r.is_some()))
}

/// `Set.prototype.isDisjointFrom`.
pub open spec fn disjoint_tested(w: World, this: Value, other: Value) -> Outcome<Value> {
    let (w, rec) = operands(w, this, other);
    match rec {
        Err(e) => (w, Err(e)),
        Ok(rec) => {
            let (w, small) = at_most(w, this, rec.size);
            if small {
                let (w, r) = walked(w, this, rec.test, other, 0, Slots::empty(), Some(true));
                match r {
                    Err(e) => (w, Err(e)),
                    Ok(r) => (w, Ok(Value::Bool(r is Some))),
                }
            } else {
                let (w, it) = keys_opened(w, rec.keys, other);
                match it {
                    Err(e) => (w, Err(e)),
                    Ok((iter, next)) => {
                        let (w, r) = keyed(
                            w,
                            this,
                            iter,
                            next,
                            Slots::empty(),
                            KeyAction::EndHeld,
                        );
                        match r {
                            Err(e) => (w, Err(e)),
                            Ok(r) => (w, Ok(Value::Bool(r is Some))),
                        }
                    },
                }
            }
        },
    }
}

pub fn set_is_disjoint_from(i: &mut Interp, this: Value, args: &[Value]) -> (r: Result<Value, Value>)
    ensures
        (final(i)@, r) == disjoint_tested(old(i)@, this, arg_at(args@, 0)),
{
    let other = arg(args, 0);
    let rec = read_operands(i, this, other)?;
    let r = if is_at_most(i, this, rec.size) {
        walk_receiver(i, this, rec.test, other, Some(true))?
    } else {
        let (iter, next) = set_like_open(i, rec.keys, other)?;
        let empty = Collection::new();
        go_through_keys(i, this, iter, next, empty, KeyAction::EndHeld)?
    };
    Ok(Value::Bool(r.is_some()))
}

// Map and Set methods

/// forEach: the callback runs on each live slot from `p` on.
pub open spec fn visited(
    w: World,
    this: Value,
    cb: Value,
    cb_this: Value,
    p: int,
) -> Outcome<Value>
    decreases w.left(),
{
    let (w1, slot) = w.slot(this, p as u64);
    match slot {
        SlotRead::End => (w1, Ok(Value::Undefined)),
        SlotRead::Deleted => if p < u64::MAX {
            visited(w1, this, cb, cb_this, p + 1)
        } else {
            (w1, Ok(Value::Undefined))
        },
        SlotRead::Live(k, v) => {
            let (w2, r) = w1.call(cb, cb_this, seq![v, k, this]);
            match r {
                Err(e) => (w2, Err(e)),
                Ok(_) => if p < u64::MAX {
                    visited(w2, this, cb, cb_this, p + 1)
                } else {
                    (w2, Ok(Value::Undefined))
                },
            }
        },
    }
}

/// `Map.prototype.forEach` and `Set.prototype.forEach`.
pub open spec fn for_each(w: World, this: Value, args: Seq<Value>, brand: Brand) -> Outcome<Value> {
    let (w, b) = branded(w, this, brand);
    match b {
        Err(e) => (w, Err(e)),
        Ok(_) => {
            let cb = arg_at(args, 0);
            if !cb.callable() {
                w.throw(ErrorKind::Type, "forEach callback is not callable")
            } else {
                visited(w, this, cb, arg_at(args, 1), 0)
            }
        },
    }
}

/// forEach shared by Map/Set, brand-checking the exact kind.
pub fn collection_for_each(i: &mut Interp, this: Value, args: &[Value], brand: Brand) -> (r: Result<
    Value,
    Value,
>)
    ensures
        (final(i)@, r) == for_each(old(i)@, this, args@, brand),
{
    require_brand(i, this, brand)?;
    let cb = arg(args, 0);
    if !cb.is_callable() {
        return i.type_error("forEach callback is not callable");
    }
    let cb_this = arg(args, 1);
    // Iterate the LIVE backing list by index (positions are stable — deletes leave empty slots),
    // so entries appended during the callback are visited and deleted entries are skipped.
    let mut p: u64 = 0;
    loop
        invariant
            for_each(old(i)@, this, args@, brand) == visited(i@, this, cb, cb_this, p as int),
        decreases i@.left(),
    {
        match i.slot_at(this, p) {
            SlotRead::End => return Ok(Value::Undefined),
            SlotRead::Deleted => {},
            SlotRead::Live(k, v) => {
                let list = vec![v, k, this];
                assert(list@ =~= seq![v, k, this]);
                i.call(cb, cb_this, list)?;
            },
        }
        if p == u64::MAX {
            return Ok(Value::Undefined);
        }
        p += 1;
    }
}

/// What an iterator over a collection gives for an entry.
#[derive(Clone, Copy, PartialEq, Eq, Structural, Debug)]
pub enum EntryKind {
    Values,
    Keys,
    Entries,
}

/// The state of a Map or Set iterator.
#[derive(Clone, Copy, PartialEq, Eq, Structural, Debug)]
pub struct CollectionIter {
    pub coll: Value,
    pub index: u64,
    pub kind: EntryKind,
    pub done: bool,
}

/// A fresh iterator over a collection of the kind.
pub open spec fn iterator_made(w: World, this: Value, kind: EntryKind, brand: Brand) -> Outcome<
    CollectionIter,
> {
    let (w, b) = branded(w, this, brand);
    match b {
        Err(e) => (w, Err(e)),
        Ok(_) => (w, Ok(CollectionIter { coll: this, index: 0, kind, done: false })),
    }
}

pub fn collection_iter_kind(i: &mut Interp, this: Value, kind: EntryKind, brand: Brand) -> (r:
    Result<CollectionIter, Value>)
    ensures
        (final(i)@, r) == iterator_made(old(i)@, this, kind, brand),
{
    require_brand(i, this, brand)?;
    Ok(CollectionIter { coll: this, index: 0, kind, done: false })
}

/// What is given for an entry.
pub open spec fn entry_given(w: World, kind: EntryKind, k: Value, v: Value) -> (World, Value) {
    match kind {
        EntryKind::Keys => (w, k),
        EntryKind::Values => (w, v),
        EntryKind::Entries => w.plain(Op::NewArray, seq![k, v]),
    }
}

/// The next step of a collection iterator: empty slots are skipped, and an exhausted iterator
/// stays done.
pub open spec fn iterated(w: World, it: CollectionIter) -> (
    World,
    CollectionIter,
    Result<Value, Value>,
)
    decreases w.left(),
{
    if it.done {
        let (w1, r) = w.iter_result(Value::Undefined, true);
        (w1, it, r)
    } else {
        let (w1, slot) = w.slot(it.coll, it.index);
        match slot {
            SlotRead::End => {
                let (w2, r) = w1.iter_result(Value::Undefined, true);
                (w2, CollectionIter { done: true, ..it }, r)
            },
            SlotRead::Deleted => if it.index < u64::MAX {
                iterated(w1, CollectionIter { index: (it.index + 1) as u64, ..it })
            } else {
                let (w2, r) = w1.iter_result(Value::Undefined, true);
                (w2, CollectionIter { done: true, ..it }, r)
            },
            SlotRead::Live(k, v) => {
                let after = if it.index < u64::MAX {
                    CollectionIter { index: (it.index + 1) as u64, ..it }
                } else {
                    CollectionIter { done: true, ..it }
                };
                let (w2, given) = entry_given(w1, it.kind, k, v);
                let (w3, r) = w2.iter_result(given, false);
                (w3, after, r)
            },
        }
    }
}

/// `next()` for a Map/Set iterator: reads the live backing entries at the current index (so entries
/// appended during iteration are observed).
pub fn map_set_iter_next(i: &mut Interp, it: &mut CollectionIter) -> (r: Result<Value, Value>)
    ensures
        (final(i)@, *final(it), r) == iterated(old(i)@, *old(it)),
{
    // A once-exhausted iterator stays done, even if the collection later grows.
    loop
        invariant
            iterated(i@, *it) == iterated(old(i)@, *old(it)),
        decreases i@.left(),
    {
        if it.done {
            return i.iter_result(Value::Undefined, true);
        }
        match i.slot_at(it.coll, it.index) {
            SlotRead::End => {
                it.done = true;
                return i.iter_result(Value::Undefined, true);
            },
            SlotRead::Deleted => {
                // Skip deleted slots so the iterator observes a live view.
                if it.index == u64::MAX {
                    it.done = true;
                    return i.iter_result(Value::Undefined, true);
                }
                it.index = it.index + 1;
            },
            SlotRead::Live(k, v) => {
                if it.index == u64::MAX {
                    it.done = true;
                } else {
                    it.index = it.index + 1;
                }
                let given = match it.kind {
                    EntryKind::Keys => k,
                    EntryKind::Values => v,
                    EntryKind::Entries => {
                        let pair = vec![k, v];
                        assert(pair@ =~= seq![k, v]);
                        i.make_array(pair)
                    },
                };
                return i.iter_result(given, false);
            },
        }
    }
}

/// One item handed to a collection's adder.
pub open spec fn item_added(w: World, coll: Value, adder: Value, item: Value, is_set: bool) -> Outcome<
    Value,
> {
    if is_set {
        w.call(adder, coll, seq![item])
    } else if !item.object() {
        w.throw(ErrorKind::Type, "iterator value is not an entry object")
    } else {
        let (w, k) = w.get(item, Key::Index(0));
        match k {
            Err(e) => (w, Err(e)),
            Ok(k) => {
                let (w, v) = w.get(item, Key::Index(1));
                match v {
                    Err(e) => (w, Err(e)),
                    Ok(v) => w.call(adder, coll, seq![k, v]),
                }
            },
        }
    }
}

fn add_item(i: &mut Interp, coll: Value, adder: Value, item: Value, is_set: bool) -> (r: Result<
    Value,
    Value,
>)
    ensures
        (final(i)@, r) == item_added(old(i)@, coll, adder, item, is_set),
{
    if is_set {
        let args = vec![item];
        assert(args@ =~= seq![item]);
        return i.call(adder, coll, args);
    }
    if !item.is_object() {
        return i.type_error("iterator value is not an entry object");
    }
    let k = i.get_member(item, Key::Index(0))?;
    let v = i.get_member(item, Key::Index(1))?;
    let args = vec![k, v];
    assert(args@ =~= seq![k, v]);
    i.call(adder, coll, args)
}

/// The rest of filling a collection from an iterator.
pub open spec fn filled(
    w: World,
    coll: Value,
    adder: Value,
    iter: Value,
    next: Value,
    is_set: bool,
) -> Outcome<Value>
    decreases w.left(),
{
    let (w1, step) = stepped(w, iter, next);
    match step {
        Err(e) => (w1, Err(e)),
        Ok(None) => (w1, Ok(coll)),
        Ok(Some(item)) => {
            let (w2, r) = item_added(w1, coll, adder, item, is_set);
            match r {
                Err(e) => w2.close_and_throw(iter, e),
                Ok(_) => filled(w2, coll, adder, iter, next, is_set),
            }
        },
    }
}

/// The intrinsic of a kind of collection.
pub open spec fn collection_name(brand: Brand) -> &'static str {
    match brand {
        Brand::SetData => "Set",
        Brand::WeakMapData => "WeakMap",
        Brand::WeakSetData => "WeakSet",
        _ => "Map",
    }
}

fn collection_name_of(brand: Brand) -> (r: &'static str)
    ensures
        r == collection_name(brand),
{
    match brand {
        Brand::SetData => "Set",
        Brand::WeakMapData => "WeakMap",
        Brand::WeakSetData => "WeakSet",
        _ => "Map",
    }
}

/// The collection constructors: a fresh collection, filled through its own `add` or `set`.
pub open spec fn collection_made(w: World, args: Seq<Value>, brand: Brand, is_set: bool) -> Outcome<
    Value,
> {
    let (w, nt) = w.plain(Op::NewTarget, Seq::empty());
    if nt == Value::Undefined {
        w.throw(ErrorKind::Type, "Constructor requires 'new'")
    } else {
        let (w, coll) = created_from(w, nt, collection_name(brand));
        match coll {
            Err(e) => (w, Err(e)),
            Ok(coll) => {
                let (w, _) = w.plain(Op::InitCollection(coll, brand), Seq::empty());
                let src = arg_at(args, 0);
                if src.nullish() {
                    (w, Ok(coll))
                } else {
                    let (w, adder) = w.get(
                        coll,
                        Key::Name(
                            if is_set {
                                "add"
                            } else {
                                "set"
                            },
                        ),
                    );
                    match adder {
                        Err(e) => (w, Err(e)),
                        Ok(adder) => if !adder.callable() {
                            w.throw(ErrorKind::Type, "adder is not callable")
                        } else {
                            let (w, it) = w.iterator(src);
                            match it {
                                Err(e) => (w, Err(e)),
                                Ok((iter, next)) => filled(w, coll, adder, iter, next, is_set),
                            }
                        },
                    }
                }
            },
        }
    }
}

pub fn collection_ctor(i: &mut Interp, args: &[Value], brand: Brand, is_set: bool) -> (r: Result<
    Value,
    Value,
>)
    ensures
        (final(i)@, r) == collection_made(old(i)@, args@, brand, is_set),
{
    let nt = i.perform(Op::NewTarget);
    if nt.is_undefined() {
        return i.type_error("Constructor requires 'new'");
    }
    let coll = new_from_ctor(i, nt, collection_name_of(brand))?;
    let _ = i.perform(Op::InitCollection(coll, brand));
    let src = arg(args, 0);
    if src.is_nullish() {
        return Ok(coll);
    }
    let name: &'static str = if is_set {
        "add"
    } else {
        "set"
    };
    let adder = i.get_member(coll, Key::Name(name))?;
    if !adder.is_callable() {
        return i.type_error("adder is not callable");
    }
    // Step the source lazily: an error while processing an entry closes the iterator.
    let (iter, next) = i.get_iterator(src)?;
    loop
        invariant
            collection_made(old(i)@, args@, brand, is_set) == filled(
                i@,
                coll,
                adder,
                iter,
                next,
                is_set,
            ),
        decreases i@.left(),
    {
        match step_iter_with(i, iter, next)? {
            None => return Ok(coll),
            Some(item) => {
                if let Err(e) = add_item(i, coll, adder, item, is_set) {
                    i.iterator_close(iter);
                    return Err(e);
                }
            },
        }
    }
}

/// What a method leaves that works on the internal data of its receiver.
pub type Changed = (World, Hidden, Result<Value, Value>);

/// The receiver must hold the data of a collection of the kind.
pub open spec fn checked(w: World, own: Hidden, this: Value, brand: Brand) -> Outcome<()> {
    if this.object() && own.carries(brand) {
        (w, Ok(()))
    } else {
        w.throw(ErrorKind::Type, "method called on an incompatible receiver")
    }
}

fn check_receiver(i: &mut Interp, own: &Internal, this: Value, brand: Brand) -> (r: Result<(), Value>)
    ensures
        (final(i)@, r) == checked(old(i)@, own@, this, brand),
{
    if this.is_object() && own.has_brand(brand) {
        Ok(())
    } else {
        i.type_error("method called on an incompatible receiver")
    }
}

/// The value under a key, or a given value, which is stored.
pub open spec fn found_or_stored(own: Hidden, key: Value, v: Value) -> (Hidden, Value) {
    match own.value_of(key) {
        Some(found) => (own, found),
        None => (own.storing(key, v), v),
    }
}

fn find_or_store(own: &mut Internal, key: Value, v: Value) -> (r: Value)
    requires
        old(own).wf(),
    ensures
        final(own).wf(),
        (final(own)@, r) == found_or_stored(old(own)@, key, v),
{
    match own.read_entry(key) {
        Some(found) => found,
        None => {
            own.store_entry(key, v);
            v
        },
    }
}

/// `getOrInsert`: the value under the key, or the given value, which is stored.
pub open spec fn got_or_inserted(w: World, own: Hidden, this: Value, args: Seq<Value>) -> Changed {
    let (w, b) = checked(w, own, this, Brand::MapData);
    match b {
        Err(e) => (w, own, Err(e)),
        Ok(_) => {
            let (own, v) = found_or_stored(
                own,
                canonical_key(arg_at(args, 0)),
                arg_at(args, 1),
            );
            (w, own, Ok(v))
        },
    }
}

/// `Map.prototype.getOrInsert`.
pub fn map_get_or_insert(i: &mut Interp, own: &mut Internal, this: Value, args: &[Value]) -> (r:
    Result<Value, Value>)
    requires
        old(own).wf(),
    ensures
        final(own).wf(),
        (final(i)@, final(own)@, r) == got_or_inserted(old(i)@, old(own)@, this, args@),
{
    check_receiver(i, own, this, Brand::MapData)?;
    Ok(find_or_store(own, canonicalize_map_key(arg(args, 0)), arg(args, 1)))
}

/// `getOrInsertComputed`: the value under the key, or what the callback computes for it. The
/// callback may have stored under the key itself, so what stood there before is asked for; the
/// computed value overwrites what stands there now.
pub open spec fn got_or_computed(
    w: World,
    own: Hidden,
    this: Value,
    key: Value,
    cb: Value,
) -> Changed {
    if !cb.callable() {
        let (w, r) = w.throw(ErrorKind::Type, "callback is not callable");
        (w, own, r)
    } else {
        let (w, found) = w.list(Op::EntryValue(this, key));
        match found {
            Err(e) => (w, own, Err(e)),
            Ok(found) => if found.len() > 0 {
                (w, own, Ok(found[0]))
            } else {
                let (w, v) = w.call(cb, Value::Undefined, seq![key]);
                match v {
                    Err(e) => (w, own, Err(e)),
                    Ok(v) => (w, own.storing(key, v), Ok(v)),
                }
            },
        }
    }
}

fn get_or_compute(i: &mut Interp, own: &mut Internal, this: Value, key: Value, cb: Value) -> (r:
    Result<Value, Value>)
    requires
        old(own).wf(),
    ensures
        final(own).wf(),
        (final(i)@, final(own)@, r) == got_or_computed(old(i)@, old(own)@, this, key, cb),
{
    if !cb.is_callable() {
        return i.type_error("callback is not callable");
    }
    let found: Vec<Value> = i.ask_list(Op::EntryValue(this, key))?;
    if found.len() > 0 {
        return Ok(found[0]);
    }
    let args = vec![key];
    assert(args@ =~= seq![key]);
    let v = i.call(cb, Value::Undefined, args)?;
    own.store_entry(key, v);
    Ok(v)
}

/// `Map.prototype.getOrInsertComputed`.
pub open spec fn map_computed(w: World, own: Hidden, this: Value, args: Seq<Value>) -> Changed {
    let (w, b) = checked(w, own, this, Brand::MapData);
    match b {
        Err(e) => (w, own, Err(e)),
        Ok(_) => got_or_computed(
            w,
            own,
            this,
            canonical_key(arg_at(args, 0)),
            arg_at(args, 1),
        ),
    }
}

pub fn map_get_or_insert_computed(
    i: &mut Interp,
    own: &mut Internal,
    this: Value,
    args: &[Value],
) -> (r: Result<Value, Value>)
    requires
        old(own).wf(),
    ensures
        final(own).wf(),
        (final(i)@, final(own)@, r) == map_computed(old(i)@, old(own)@, this, args@),
{
    check_receiver(i, own, this, Brand::MapData)?;
    // CoerceKey: -0 is canonicalized to +0 (so the callback and stored key see +0).
    let key = canonicalize_map_key(arg(args, 0));
    get_or_compute(i, own, this, key, arg(args, 1))
}

/// Stores the groups from `j` on as arrays in a Map.
pub open spec fn groups_mapped(w: World, g: Seq<(Value, Seq<Value>)>, j: int, m: Value) -> World
    decreases g.len() - j,
{
    if j < 0 || j >= g.len() {
        w
    } else {
        let (w1, a) = w.plain(Op::NewArray, g[j].1);
        let (w2, _) = w1.plain(Op::StoreEntry(m, g[j].0, a), Seq::empty());
        groups_mapped(w2, g, j + 1, m)
    }
}

/// `Map.groupBy`.
pub open spec fn map_grouped(w: World, args: Seq<Value>) -> Outcome<Value> {
    let cb = arg_at(args, 1);
    if !cb.callable() {
        w.throw(ErrorKind::Type, "Map.groupBy callback is not callable")
    } else {
        let (w, g) = grouped_by(w, arg_at(args, 0), cb, true);
        match g {
            Err(e) => (w, Err(e)),
            Ok(g) => {
                let (w, m) = w.plain(Op::NewCollection(Brand::MapData), Seq::empty());
                (groups_mapped(w, g, 0, m), Ok(m))
            },
        }
    }
}

pub fn map_group_by(i: &mut Interp, args: &[Value]) -> (r: Result<Value, Value>)
    ensures
        (final(i)@, r) == map_grouped(old(i)@, args@),
{
    let cb = arg(args, 1);
    if !cb.is_callable() {
        return i.type_error("Map.groupBy callback is not callable");
    }
    let groups: Vec<Group> = group_by(i, arg(args, 0), cb, true)?;
    let ghost g = group_views(groups@);
    let m = i.perform(Op::NewCollection(Brand::MapData));
    let mut j: usize = 0;
    let ghost start = i@;
    while j < groups.len()
        invariant
            j <= groups@.len(),
            g == group_views(groups@),
            groups_mapped(start, g, 0, m) == groups_mapped(i@, g, j as int, m),
        decreases groups@.len() - j,
    {
        assert(g[j as int] == groups@[j as int]@);
        let members = crate::object::copy_list(&groups[j].members);
        let a = i.make_array(members);
        let _ = i.perform(Op::StoreEntry(m, groups[j].key, a));
        j += 1;
    }
    Ok(m)
}

// Weak collections

/// CanBeHeldWeakly: an object, or a non-registered (collectable) symbol.
pub open spec fn holdable(w: World, v: Value) -> (World, bool) {
    match v {
        Value::Obj(_) => (w, true),
        Value::Sym(_) => {
            let (w, registered) = w.plain(Op::IsRegistered(v), Seq::empty());
            (w, registered == Value::Bool(false))
        },
        _ => (w, false),
    }
}

pub fn can_be_held_weakly(i: &mut Interp, v: Value) -> (r: bool)
    ensures
        (final(i)@, r) == holdable(old(i)@, v),
        r ==> v is Obj || v is Sym,
{
    match v {
        Value::Obj(_) => true,
        Value::Sym(_) => match i.perform(Op::IsRegistered(v)) {
            Value::Bool(b) => !b,
            _ => false,
        },
        _ => false,
    }
}

/// `WeakMap.prototype.set` and `WeakSet.prototype.add`; a value that a WeakSet already holds is
/// not stored again.
pub open spec fn weakly_stored(w: World, own: Hidden, this: Value, args: Seq<Value>, is_set: bool) -> Changed {
    let (w, b) = checked(
        w,
        own,
        this,
        if is_set {
            Brand::WeakSetData
        } else {
            Brand::WeakMapData
        },
    );
    match b {
        Err(e) => (w, own, Err(e)),
        Ok(_) => {
            let key = arg_at(args, 0);
            let (w, ok) = holdable(w, key);
            if !ok {
                let (w, r) = if is_set {
                    w.throw(ErrorKind::Type, "Invalid value used in weak set")
                } else {
                    w.throw(ErrorKind::Type, "Invalid value used as weak map key")
                };
                (w, own, r)
            } else if is_set {
                (w, found_or_stored(own, key, key).0, Ok(this))
            } else {
                (w, own.storing(key, arg_at(args, 1)), Ok(this))
            }
        },
    }
}

pub fn weak_store(i: &mut Interp, own: &mut Internal, this: Value, args: &[Value], is_set: bool) -> (r:
    Result<Value, Value>)
    requires
        old(own).wf(),
    ensures
        final(own).wf(),
        (final(i)@, final(own)@, r) == weakly_stored(old(i)@, old(own)@, this, args@, is_set),
{
    let brand = if is_set {
        Brand::WeakSetData
    } else {
        Brand::WeakMapData
    };
    check_receiver(i, own, this, brand)?;
    let key = arg(args, 0);
    if !can_be_held_weakly(i, key) {
        return if is_set {
            i.type_error("Invalid value used in weak set")
        } else {
            i.type_error("Invalid value used as weak map key")
        };
    }
    if is_set {
        let _ = find_or_store(own, key, key);
    } else {
        own.store_entry(key, arg(args, 1));
    }
    Ok(this)
}

/// `WeakMap.prototype.getOrInsert` and, with a callback, `getOrInsertComputed`.
pub open spec fn weakly_got_or_stored(
    w: World,
    own: Hidden,
    this: Value,
    args: Seq<Value>,
    computed: bool,
) -> Changed {
    let (w, b) = checked(w, own, this, Brand::WeakMapData);
    match b {
        Err(e) => (w, own, Err(e)),
        Ok(_) => {
            let key = arg_at(args, 0);
            let (w, ok) = holdable(w, key);
            if !ok {
                let (w, r) = w.throw(ErrorKind::Type, "Invalid value used as weak map key");
                (w, own, r)
            } else if computed {
                got_or_computed(w, own, this, key, arg_at(args, 1))
            } else {
                let (own, v) = found_or_stored(own, key, arg_at(args, 1));
                (w, own, Ok(v))
            }
        },
    }
}

pub fn weak_get_or_insert(
    i: &mut Interp,
    own: &mut Internal,
    this: Value,
    args: &[Value],
    computed: bool,
) -> (r: Result<Value, Value>)
    requires
        old(own).wf(),
    ensures
        final(own).wf(),
        (final(i)@, final(own)@, r) == weakly_got_or_stored(
            old(i)@,
            old(own)@,
            this,
            args@,
            computed,
        ),
{
    check_receiver(i, own, this, Brand::WeakMapData)?;
    let key = arg(args, 0);
    if !can_be_held_weakly(i, key) {
        return i.type_error("Invalid value used as weak map key");
    }
    if computed {
        return get_or_compute(i, own, this, key, arg(args, 1));
    }
    Ok(find_or_store(own, key, arg(args, 1)))
}

/// The methods that concern one entry, or only the count.
#[derive(Clone, Copy, PartialEq, Eq, Structural, Debug)]
pub enum EntryOp {
    Get,
    Has,
    Delete,
    Store,
    Clear,
    Size,
}

/// What a collection is after a method that concerns one entry, and what the method returns.
pub open spec fn entry_changed(own: Hidden, this: Value, key: Value, v: Value, op: EntryOp) -> (
    Hidden,
    Value,
) {
    match op {
        EntryOp::Get => (
            own,
            match own.value_of(key) {
                Some(v) => v,
                None => Value::Undefined,
            },
        ),
        EntryOp::Has => (own, Value::Bool(own.value_of(key) is Some)),
        EntryOp::Delete => (own.dropping(key), Value::Bool(own.value_of(key) is Some)),
        EntryOp::Store => (own.storing(key, v), this),
        EntryOp::Clear => (Hidden { entries: emptied(own.entries), ..own }, Value::Undefined),
        EntryOp::Size => (own, Value::Num(num::position(live(own.entries).len() as int))),
    }
}

/// `get`, `has`, `delete`, `set`, `add`, `clear` and `size`: keys of a Map or Set are made
/// canonical first.
pub open spec fn entry_outcome(
    w: World,
    own: Hidden,
    this: Value,
    args: Seq<Value>,
    brand: Brand,
    op: EntryOp,
) -> Changed {
    let (w, b) = checked(w, own, this, brand);
    match b {
        Err(e) => (w, own, Err(e)),
        Ok(_) => {
            let key = if brand == Brand::MapData || brand == Brand::SetData {
                canonical_key(arg_at(args, 0))
            } else {
                arg_at(args, 0)
            };
            let v = if brand == Brand::SetData {
                key
            } else {
                arg_at(args, 1)
            };
            let (own, r) = entry_changed(own, this, key, v, op);
            (w, own, Ok(r))
        },
    }
}

pub fn entry_method(
    i: &mut Interp,
    own: &mut Internal,
    this: Value,
    args: &[Value],
    brand: Brand,
    op: EntryOp,
) -> (r: Result<Value, Value>)
    requires
        old(own).wf(),
    ensures
        final(own).wf(),
        (final(i)@, final(own)@, r) == entry_outcome(
            old(i)@,
            old(own)@,
            this,
            args@,
            brand,
            op,
        ),
{
    check_receiver(i, own, this, brand)?;
    let key = match brand {
        Brand::MapData => canonicalize_map_key(arg(args, 0)),
        Brand::SetData => canonicalize_map_key(arg(args, 0)),
        _ => arg(args, 0),
    };
    match op {
        EntryOp::Get => match own.read_entry(key) {
            Some(v) => Ok(v),
            None => Ok(Value::Undefined),
        },
        EntryOp::Has => Ok(Value::Bool(own.read_entry(key).is_some())),
        EntryOp::Delete => Ok(Value::Bool(own.drop_entry(key))),
        EntryOp::Store => {
            let v = if brand == Brand::SetData {
                key
            } else {
                arg(args, 1)
            };
            own.store_entry(key, v);
            Ok(this)
        },
        EntryOp::Clear => {
            own.entries.collection_clear();
            Ok(Value::Undefined)
        },
        EntryOp::Size => Ok(number_of(own.entries.coll_live_len())),
    }
}

// Laws

/// A result set holds no key twice, whatever was added to it or dropped from it.
pub proof fn law_results_are_sets(acc: Slots, k: Value)
    requires
        unique(acc),
    ensures
        unique(added(acc, k)),
        unique(removed(acc, k)),
        lookup(added(acc, k), k) is Some,
        lookup(removed(acc, k), k) is None,
{
    crate::collections::law_get_after_set(acc, k, k);
    crate::collections::law_delete_removes_one(acc, k, k);
}

/// A union keeps every member of the receiver and holds no key twice, whatever keys the other
/// set's iterator gives.
pub proof fn law_union_keeps_members(
    w: World,
    this: Value,
    iter: Value,
    next: Value,
    own: Slots,
    k: Value,
)
    requires
        unique(own),
        lookup(own, k) is Some,
    ensures
        keyed(w, this, iter, next, own, KeyAction::Add).1 matches Ok(Some(s)) ==> {
            &&& unique(s)
            &&& lookup(s, k) is Some
        },
    decreases w.left(),
{
    let (w1, step) = key_stepped(w, iter, next);
    if let Ok(Some(x)) = step {
        law_results_are_sets(own, x);
        let q = position_of(own, k)->0;
        assert(holds_at(own, k, q));
        assert(holds_at(added(own, x), k, q));
        law_union_keeps_members(w1, this, iter, next, added(own, x), k);
    }
}

/// A difference holds nothing but members of the receiver, whatever keys the other set's iterator
/// gives.
pub proof fn law_difference_only_drops(
    w: World,
    this: Value,
    iter: Value,
    next: Value,
    own: Slots,
    k: Value,
)
    requires
        unique(own),
        lookup(own, k) is None,
    ensures
        keyed(w, this, iter, next, own, KeyAction::Drop).1 matches Ok(Some(s)) ==> {
            &&& unique(s)
            &&& lookup(s, k) is None
        },
    decreases w.left(),
{
    let (w1, step) = key_stepped(w, iter, next);
    if let Ok(Some(x)) = step {
        law_results_are_sets(own, x);
        assert forall|q: int| !holds_at(removed(own, x), k, q) by {
            assert(!holds_at(own, k, q));
        }
        law_difference_only_drops(w1, this, iter, next, removed(own, x), k);
    }
}

// What the set operations hold

/// A collection holds a key.
pub open spec fn holds_key(s: Slots, x: Value) -> bool {
    lookup(s, x) is Some
}

/// A key is among the listed ones.
pub open spec fn key_listed(keys: Seq<Value>, x: Value) -> bool {
    exists|j: int| 0 <= j < keys.len() && same_zero(#[trigger] keys[j], x)
}

/// The other set's iterator gives the listed keys and ends, and the receiver, where it is asked,
/// answers as the collection `own` does.
pub open spec fn gives(
    w: World,
    this: Value,
    iter: Value,
    next: Value,
    own: Slots,
    keys: Seq<Value>,
    asks: bool,
) -> bool
    decreases keys.len(),
{
    let (w1, step) = key_stepped(w, iter, next);
    if keys.len() == 0 {
        step == Ok::<Option<Value>, Value>(None)
    } else {
        let (w2, held) = w1.yes(Op::HoldsKey(this, keys[0]));
        &&& step == Ok::<Option<Value>, Value>(Some(keys[0]))
        &&& asks ==> held == holds_key(own, keys[0])
        &&& gives(
            if asks {
                w2
            } else {
                w1
            },
            this,
            iter,
            next,
            own,
            keys.drop_first(),
            asks,
        )
    }
}

/// What becomes of a collection by one key.
pub open spec fn acted_once(own: Slots, acc: Slots, k: Value, action: KeyAction) -> Slots {
    match action {
        KeyAction::Add => added(acc, k),
        KeyAction::Drop => removed(acc, k),
        KeyAction::AddHeld => if holds_key(own, k) {
            added(acc, k)
        } else {
            acc
        },
        KeyAction::Toggle => if holds_key(own, k) {
            removed(acc, k)
        } else {
            added(acc, k)
        },
        _ => acc,
    }
}

/// What becomes of a collection by the listed keys, in order.
pub open spec fn acted(own: Slots, acc: Slots, keys: Seq<Value>, action: KeyAction) -> Slots
    decreases keys.len(),
{
    if keys.len() == 0 {
        acc
    } else {
        acted(own, acted_once(own, acc, keys[0], action), keys.drop_first(), action)
    }
}

/// The actions that a set operation collects its result by.
pub open spec fn collects(action: KeyAction) -> bool {
    action == KeyAction::Add || action == KeyAction::Drop || action == KeyAction::AddHeld || action
        == KeyAction::Toggle
}

/// Where nothing changes the two sets meanwhile, going through the other's keys does with each
/// what the operation says, in order.
pub proof fn law_keys_are_acted_on_in_order(
    w: World,
    this: Value,
    iter: Value,
    next: Value,
    own: Slots,
    acc: Slots,
    keys: Seq<Value>,
    action: KeyAction,
)
    requires
        collects(action),
        gives(
            w,
            this,
            iter,
            next,
            own,
            keys,
            action == KeyAction::AddHeld || action == KeyAction::Toggle,
        ),
    ensures
        keyed(w, this, iter, next, acc, action).1 == Ok::<Option<Slots>, Value>(
            Some(acted(own, acc, keys, action)),
        ),
    decreases keys.len(),
{
    if keys.len() > 0 {
        let asks = action == KeyAction::AddHeld || action == KeyAction::Toggle;
        let (w1, step) = key_stepped(w, iter, next);
        let (w2, held) = w1.yes(Op::HoldsKey(this, keys[0]));
        law_keys_are_acted_on_in_order(
            if asks {
                w2
            } else {
                w1
            },
            this,
            iter,
            next,
            own,
            acted_once(own, acc, keys[0], action),
            keys.drop_first(),
            action,
        );
    }
}

proof fn lemma_same_holding(s: Slots, k: Value, x: Value)
    requires
        unique(s),
        same_zero(k, x),
    ensures
        holds_key(s, k) == holds_key(s, x),
{
    if let Some(p) = position_of(s, k) {
        assert(holds_at(s, k, p));
        law_same_value_zero_is_equivalence(key_in(s[p]), k, x);
        assert(holds_at(s, x, p));
    }
    if let Some(p) = position_of(s, x) {
        assert(holds_at(s, x, p));
        law_same_value_zero_is_equivalence(k, x, k);
        law_same_value_zero_is_equivalence(key_in(s[p]), x, k);
        assert(holds_at(s, k, p));
    }
}

proof fn lemma_member_step(s: Slots, k: Value, x: Value)
    requires
        unique(s),
    ensures
        unique(added(s, k)),
        unique(removed(s, k)),
        holds_key(added(s, k), x) == (holds_key(s, x) || same_zero(k, x)),
        holds_key(removed(s, k), x) == (holds_key(s, x) && !same_zero(k, x)),
{
    law_results_are_sets(s, k);
    if same_zero(k, x) {
        lemma_same_holding(added(s, k), k, x);
        lemma_same_holding(removed(s, k), k, x);
    } else {
        crate::collections::law_set_leaves_others(s, k, k, x);
        crate::collections::law_delete_removes_one(s, k, x);
    }
}

/// What the result of an operation holds: for a union the members of both, for an intersection
/// (begun empty) the common ones, for a difference those of the receiver alone, and for a symmetric
/// difference those of exactly one of the two.
pub proof fn law_members_of_results(own: Slots, acc: Slots, keys: Seq<Value>, action: KeyAction, x: Value)
    requires
        unique(own),
        unique(acc),
        collects(action),
    ensures
        unique(acted(own, acc, keys, action)),
        action == KeyAction::Add ==> holds_key(acted(own, acc, keys, action), x) == (holds_key(acc, x)
            || key_listed(keys, x)),
        action == KeyAction::Drop ==> holds_key(acted(own, acc, keys, action), x) == (holds_key(acc, x)
            && !key_listed(keys, x)),
        action == KeyAction::AddHeld ==> holds_key(acted(own, acc, keys, action), x) == (holds_key(
            acc,
            x,
        ) || (key_listed(keys, x) && holds_key(own, x))),
        action == KeyAction::Toggle ==> holds_key(acted(own, acc, keys, action), x) == (if holds_key(
            own,
            x,
        ) {
            holds_key(acc, x) && !key_listed(keys, x)
        } else {
            holds_key(acc, x) || key_listed(keys, x)
        }),
    decreases keys.len(),
{
    if keys.len() > 0 {
        let k = keys[0];
        let rest = keys.drop_first();
        lemma_member_step(acc, k, x);
        if same_zero(k, x) {
            lemma_same_holding(own, k, x);
        }
        law_members_of_results(own, acted_once(own, acc, k, action), rest, action, x);
        if key_listed(rest, x) {
            let j = choose|j: int| 0 <= j < rest.len() && same_zero(#[trigger] rest[j], x);
            assert(same_zero(keys[j + 1], x));
        }
        if key_listed(keys, x) {
            let j = choose|j: int| 0 <= j < keys.len() && same_zero(#[trigger] keys[j], x);
            if j > 0 {
                assert(rest[j - 1] == keys[j]);
            }
        }
    }
}

/// A symmetric difference has the members of the union without those of the intersection.
pub proof fn law_symmetric_difference_is_union_less_intersection(
    own: Slots,
    keys: Seq<Value>,
    x: Value,
)
    requires
        unique(own),
    ensures
        holds_key(acted(own, own, keys, KeyAction::Toggle), x) == (holds_key(
            acted(own, own, keys, KeyAction::Add),
            x,
        ) && !holds_key(acted(own, Slots::empty(), keys, KeyAction::AddHeld), x)),
{
    law_members_of_results(own, own, keys, KeyAction::Toggle, x);
    law_members_of_results(own, own, keys, KeyAction::Add, x);
    law_members_of_results(own, Slots::empty(), keys, KeyAction::AddHeld, x);
    assert(!holds_key(Slots::empty(), x)) by {
        assert forall|p: int| !holds_at(Slots::empty(), x, p) by {}
    }
}

/// The listed keys that a collection does not hold, as fresh entries in order.
pub open spec fn fresh_entries(own: Slots, keys: Seq<Value>) -> Slots
    decreases keys.len(),
{
    if keys.len() == 0 {
        Slots::empty()
    } else if holds_key(own, keys[0]) {
        fresh_entries(own, keys.drop_first())
    } else {
        seq![Some((canonical_key(keys[0]), keys[0]))] + fresh_entries(own, keys.drop_first())
    }
}

/// No key is listed twice.
pub open spec fn distinct(keys: Seq<Value>) -> bool {
    forall|i: int, j: int|
        0 <= i < j < keys.len() ==> !same_zero(#[trigger] keys[i], #[trigger] keys[j])
}

/// What is left of a slot once the listed keys are dropped.
pub open spec fn left_of(slot: Option<(Value, Value)>, keys: Seq<Value>) -> Option<(Value, Value)> {
    match slot {
        Some(e) => if key_listed(keys, e.0) {
            None
        } else {
            Some(e)
        },
        None => None,
    }
}

/// A symmetric difference lists the receiver's members that the other lacks, in the receiver's
/// order, and behind them the other's members that the receiver lacks, in the other's order.
pub proof fn law_order_of_symmetric_difference(own: Slots, keys: Seq<Value>)
    requires
        unique(own),
        distinct(keys),
    ensures
        ({
            let s = acted(own, own, keys, KeyAction::Toggle);
            &&& s.len() >= own.len()
            &&& forall|p: int| 0 <= p < own.len() ==> #[trigger] s[p] == left_of(own[p], keys)
            &&& s.skip(own.len() as int) == fresh_entries(own, keys)
        }),
{
    lemma_toggled(own, own, keys);
    let s = acted(own, own, keys, KeyAction::Toggle);
    assert(own.skip(own.len() as int) + fresh_entries(own, keys) =~= fresh_entries(own, keys));
}

proof fn lemma_toggled(own: Slots, acc: Slots, keys: Seq<Value>)
    requires
        unique(own),
        unique(acc),
        distinct(keys),
        acc.len() >= own.len(),
        forall|p: int| 0 <= p < own.len() ==> (#[trigger] acc[p]) is None || acc[p] == own[p],
        forall|p: int|
            own.len() <= p < acc.len() ==> (#[trigger] acc[p]) is Some && !holds_key(
                own,
                key_in(acc[p]),
            ),
        forall|j: int|
            0 <= j < keys.len() && !holds_key(own, #[trigger] keys[j]) ==> !holds_key(acc, keys[j]),
    ensures
        ({
            let s = acted(own, acc, keys, KeyAction::Toggle);
            &&& s.len() >= own.len()
            &&& forall|p: int| 0 <= p < own.len() ==> #[trigger] s[p] == left_of(acc[p], keys)
            &&& s.skip(own.len() as int) == acc.skip(own.len() as int) + fresh_entries(own, keys)
        }),
    decreases keys.len(),
{
    let n = own.len() as int;
    if keys.len() == 0 {
        assert(acc.skip(n) + fresh_entries(own, keys) =~= acc.skip(n));
        assert forall|p: int| 0 <= p < n implies #[trigger] acc[p] == left_of(acc[p], keys) by {}
    } else {
        let k = keys[0];
        let rest = keys.drop_first();
        let next = acted_once(own, acc, k, KeyAction::Toggle);
        assert forall|i: int, j: int| 0 <= i < j < rest.len() implies !same_zero(
            #[trigger] rest[i],
            #[trigger] rest[j],
        ) by {
            assert(!same_zero(keys[i + 1], keys[j + 1]));
        }
        lemma_member_step(acc, k, k);
        assert forall|j: int| 0 <= j < rest.len() && !holds_key(own, #[trigger] rest[j]) implies !holds_key(
            next,
            rest[j],
        ) by {
            assert(rest[j] == keys[j + 1]);
            assert(!same_zero(keys[0], keys[j + 1]));
            lemma_member_step(acc, k, rest[j]);
        }
        if holds_key(own, k) {
            if let Some(q) = position_of(acc, k) {
                assert(holds_at(acc, k, q));
                if q >= n {
                    let e = acc[q]->0;
                    lemma_same_holding(own, e.0, k);
                }
                assert(next == acc.update(q, None));
                assert(next.skip(n) =~= acc.skip(n));
            } else {
                assert(next == acc);
            }
        } else {
            assert(next == acc.push(Some((canonical_key(k), k))));
            law_canonical_keys_agree(k, k);
            law_same_value_zero_is_equivalence(k, canonical_key(k), k);
            lemma_same_holding(own, k, canonical_key(k));
            assert(next.skip(n) =~= acc.skip(n).push(Some((canonical_key(k), k))));
        }
        lemma_toggled(own, next, rest);
        let s = acted(own, acc, keys, KeyAction::Toggle);
        assert(s.skip(n) =~= acc.skip(n) + fresh_entries(own, keys));
        assert forall|p: int| 0 <= p < n implies #[trigger] s[p] == left_of(acc[p], keys) by {
            assert(s[p] == left_of(next[p], rest));
            if let Some(e) = acc[p] {
                if key_listed(rest, e.0) {
                    let j = choose|j: int| 0 <= j < rest.len() && same_zero(#[trigger] rest[j], e.0);
                    assert(same_zero(keys[j + 1], e.0));
                }
                if key_listed(keys, e.0) {
                    let j = choose|j: int| 0 <= j < keys.len() && same_zero(#[trigger] keys[j], e.0);
                    if j > 0 {
                        assert(rest[j - 1] == keys[j]);
                    } else {
                        law_same_value_zero_is_equivalence(k, e.0, k);
                        assert(holds_at(acc, k, p));
                        crate::collections::lemma_position(acc, k, p);
                        assert(own[p] == acc[p]);
                        assert(holds_at(own, k, p));
                    }
                }
                if holds_key(own, k) && position_of(acc, k) == Some(p) {
                    assert(holds_at(acc, k, p));
                    law_same_value_zero_is_equivalence(e.0, k, e.0);
                    assert(same_zero(keys[0], e.0));
                }
            }
        }
    }
}

/// What a slot of a collection reads as.
pub open spec fn slot_read(s: Slots, p: int) -> SlotRead {
    if 0 <= p < s.len() {
        match s[p] {
            Some(e) => SlotRead::Live(e.0, e.1),
            None => SlotRead::Deleted,
        }
    } else {
        SlotRead::End
    }
}

/// A slot reads as the data of the collection has it, where that data answers the question.
pub proof fn law_slots_read_as_they_are(w: World, coll: Value, h: Hidden, p: u64)
    requires
        w.asked.len() < w.answers.len(),
        answered(h, Op::SlotAt(coll, p)) == Some(w.answers[w.asked.len() as int]),
    ensures
        w.slot(coll, p).1 == slot_read(h.entries, p as int),
{
}

/// From `p` on, slots read as the collection has them, up to the first that is not empty.
pub open spec fn reads_as(w: World, coll: Value, s: Slots, p: int) -> bool
    decreases s.len() - p,
{
    let (w1, r) = w.slot(coll, p as u64);
    &&& 0 <= p < u64::MAX
    &&& r == slot_read(s, p)
    &&& r == SlotRead::Deleted && p < s.len() ==> reads_as(w1, coll, s, p + 1)
}

/// The first entry from `p` on that has not been deleted.
pub open spec fn next_live(s: Slots, p: int) -> Option<int>
    decreases s.len() - p,
{
    if p < 0 || p >= s.len() {
        None
    } else if s[p] is Some {
        Some(p)
    } else {
        next_live(s, p + 1)
    }
}

/// A step of an iterator over a collection passes deleted entries over and gives the first that is
/// left, which the next step goes on behind; where none is left the iterator is done.
pub proof fn law_iterators_give_entries_in_order(w: World, it: CollectionIter, s: Slots) -> (before: World)
    requires
        !it.done,
        reads_as(w, it.coll, s, it.index as int),
    ensures
        ({
            let (after, it2, r) = iterated(w, it);
            match next_live(s, it.index as int) {
                Some(q) => {
                    let (w2, given) = entry_given(before, it.kind, key_in(s[q]), value_in(s[q]));
                    &&& (after, r) == w2.iter_result(given, false)
                    &&& it2 == (CollectionIter { index: (q + 1) as u64, ..it })
                },
                None => it2.done && (after, r) == before.iter_result(Value::Undefined, true),
            }
        }),
    decreases s.len() - it.index,
{
    let p = it.index as int;
    let (w1, r) = w.slot(it.coll, it.index);
    if p < s.len() && s[p] is None {
        law_iterators_give_entries_in_order(
            w1,
            CollectionIter { index: (it.index + 1) as u64, ..it },
            s,
        )
    } else {
        w1
    }
}

/// An exhausted collection iterator stays done, whatever is added later.
pub proof fn law_exhausted_iterator_stays_done(w: World, it: CollectionIter)
    requires
        it.done,
    ensures
        iterated(w, it).1 == it,
        iterated(w, it).0 == w.iter_result(Value::Undefined, true).0,
{
}

// Internal data changes behind the last question

pub proof fn lemma_entry_changes_last(
    w: World,
    own: Hidden,
    this: Value,
    args: Seq<Value>,
    brand: Brand,
    op: EntryOp,
)
    requires
        !w.halted(),
        entry_outcome(w, own, this, args, brand, op).0.halted(),
    ensures
        entry_outcome(w, own, this, args, brand, op).1 == own,
{
}

pub proof fn lemma_insert_changes_last(w: World, own: Hidden, this: Value, args: Seq<Value>)
    requires
        !w.halted(),
    ensures
        got_or_inserted(w, own, this, args).0.halted() ==> got_or_inserted(w, own, this, args).1
            == own,
{
}

proof fn lemma_compute_changes_last(w: World, own: Hidden, this: Value, key: Value, cb: Value)
    ensures
        got_or_computed(w, own, this, key, cb).0.halted() ==> got_or_computed(
            w,
            own,
            this,
            key,
            cb,
        ).1 == own,
{
}

pub proof fn lemma_map_computed_changes_last(w: World, own: Hidden, this: Value, args: Seq<Value>)
    ensures
        map_computed(w, own, this, args).0.halted() ==> map_computed(w, own, this, args).1 == own,
{
    let (w1, b) = checked(w, own, this, Brand::MapData);
    if b is Ok {
        lemma_compute_changes_last(
            w1,
            own,
            this,
            canonical_key(arg_at(args, 0)),
            arg_at(args, 1),
        );
    }
}

/// A value that is found holdable has been found so by an answer, or without a question.
pub proof fn lemma_holdable_is_answered(w: World, v: Value)
    requires
        !w.halted(),
    ensures
        holdable(w, v).1 ==> !holdable(w, v).0.halted(),
{
}

pub proof fn lemma_weak_store_changes_last(
    w: World,
    own: Hidden,
    this: Value,
    args: Seq<Value>,
    is_set: bool,
)
    requires
        !w.halted(),
    ensures
        weakly_stored(w, own, this, args, is_set).0.halted() ==> weakly_stored(
            w,
            own,
            this,
            args,
            is_set,
        ).1 == own,
{
    lemma_holdable_is_answered(w, arg_at(args, 0));
}

pub proof fn lemma_weak_insert_changes_last(
    w: World,
    own: Hidden,
    this: Value,
    args: Seq<Value>,
    computed: bool,
)
    requires
        !w.halted(),
    ensures
        weakly_got_or_stored(w, own, this, args, computed).0.halted() ==> weakly_got_or_stored(
            w,
            own,
            this,
            args,
            computed,
        ).1 == own,
{
    lemma_holdable_is_answered(w, arg_at(args, 0));
    lemma_compute_changes_last(
        holdable(w, arg_at(args, 0)).0,
        own,
        this,
        arg_at(args, 0),
        arg_at(args, 1),
    );
}

} // verus!
