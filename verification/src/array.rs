//! `Array` and `Array.prototype`.
use vstd::prelude::*;
use crate::equality::{same_value_zero, same_zero, strict_equals, strictly_same};
use crate::interp::{
    arg, arg_at, ErrorKind, Interp, Key, Op, Outcome, Property, Value, WellKnown, World,
};
use crate::num;
use crate::object::{array_tested, json_is_array, object_for, to_object_arg};
use crate::proxy::{length_of, to_length};

verus! {

// Elements

/// The receiver of a generic array method.
pub open spec fn receiver(w: World, this: Value) -> Outcome<Value> {
    object_for(w, this, "Array.prototype method called on null or undefined")
}

/// ToObject for a generic `Array.prototype` method receiver: primitives are boxed (so the method
/// reads the inherited array-like properties), null/undefined throw.
pub fn arr_to_object(i: &mut Interp, this: Value) -> (r: Result<Value, Value>)
    ensures
        (final(i)@, r) == receiver(old(i)@, this),
        r matches Ok(o) ==> o.object(),
{
    to_object_arg(i, this, "Array.prototype method called on null or undefined")
}

/// The element at an index, if there is one.
pub open spec fn present(w: World, o: Value, k: u64) -> Outcome<Option<Value>> {
    let (w, h) = w.value(Op::Has(o, Key::Index(k)), Seq::empty());
    match h {
        Err(e) => (w, Err(e)),
        Ok(h) => if h != Value::Bool(true) {
            (w, Ok(None))
        } else {
            let (w, v) = w.get(o, Key::Index(k));
            match v {
                Err(e) => (w, Err(e)),
                Ok(v) => (w, Ok(Some(v))),
            }
        },
    }
}

/// Read an index for the HasProperty-based Array methods: holes are absent.
pub fn array_get_present_index(i: &mut Interp, o: Value, k: u64) -> (r: Result<
    Option<Value>,
    Value,
>)
    ensures
        (final(i)@, r) == present(old(i)@, o, k),
{
    match i.value_of(Op::Has(o, Key::Index(k)))? {
        Value::Bool(true) => {
            let v = i.get_member(o, Key::Index(k))?;
            Ok(Some(v))
        },
        _ => Ok(None),
    }
}

/// Set(O, P, V, true): a refused write throws.
pub open spec fn put(w: World, o: Value, k: Key, v: Value) -> Outcome<Value> {
    w.value(Op::Put(o, k, v), Seq::empty())
}

pub fn set_throw(i: &mut Interp, o: Value, k: Key, v: Value) -> (r: Result<Value, Value>)
    ensures
        (final(i)@, r) == put(old(i)@, o, k, v),
{
    i.value_of(Op::Put(o, k, v))
}

/// Sets the length.
pub open spec fn length_put(w: World, o: Value, n: int) -> Outcome<Value> {
    put(w, o, Key::Name("length"), Value::Num(num::number(n)))
}

/// Set(A, "length", n, true): setter errors propagate, a refused write is a TypeError.
pub fn set_length_throw(i: &mut Interp, o: Value, n: u64) -> (r: Result<Value, Value>)
    requires
        n <= num::COUNT_LIMIT,
    ensures
        (final(i)@, r) == length_put(old(i)@, o, n as int),
{
    set_throw(i, o, Key::Name("length"), Value::Num(num::of_u64(n)))
}

/// Moves an element, or a hole, from one index to another.
pub open spec fn moved(w: World, o: Value, from: u64, to: u64) -> Outcome<Value> {
    let (w, v) = present(w, o, from);
    match v {
        Err(e) => (w, Err(e)),
        Ok(Some(v)) => put(w, o, Key::Index(to), v),
        Ok(None) => w.value(Op::Remove(o, Key::Index(to)), Seq::empty()),
    }
}

fn move_element(i: &mut Interp, o: Value, from: u64, to: u64) -> (r: Result<Value, Value>)
    ensures
        (final(i)@, r) == moved(old(i)@, o, from, to),
{
    match array_get_present_index(i, o, from)? {
        Some(v) => set_throw(i, o, Key::Index(to), v),
        None => i.value_of(Op::Remove(o, Key::Index(to))),
    }
}

/// A length that the engine is willing to go through element by element.
pub open spec fn checked_length(w: World, o: Value, limit: u64) -> Outcome<u64> {
    let (w, n) = length_of(w, o);
    match n {
        Err(e) => (w, Err(e)),
        Ok(n) => if n > limit {
            w.throw(ErrorKind::Range, "array length exceeds engine limit")
        } else {
            (w, Ok(n))
        },
    }
}

pub fn checked_array_len(i: &mut Interp, o: Value, limit: u64) -> (r: Result<u64, Value>)
    ensures
        (final(i)@, r) == checked_length(old(i)@, o, limit),
        r matches Ok(n) ==> n <= num::MAX_SAFE && n <= limit,
{
    let n: u64 = to_length(i, o)?;
    if n > limit {
        return i.fail(ErrorKind::Range, "array length exceeds engine limit");
    }
    Ok(n)
}

/// A relative position resolved against a length.
pub open spec fn relative(w: World, v: Value, len: u64) -> Outcome<u64> {
    let (w, n) = w.number(v);
    match n {
        Err(e) => (w, Err(e)),
        Ok(n) => (w, Ok(num::absolute_index(n, len as int) as u64)),
    }
}

pub fn read_relative(i: &mut Interp, v: Value, len: u64) -> (r: Result<u64, Value>)
    requires
        len <= num::MAX_SAFE,
    ensures
        (final(i)@, r) == relative(old(i)@, v, len),
        r matches Ok(k) ==> k <= len,
{
    let n: u64 = i.to_number(v)?;
    let k: i64 = num::norm_index(n, len as i64);
    Ok(k as u64)
}

/// The end of a span: the length where it is undefined.
pub open spec fn span_end(w: World, v: Value, len: u64) -> Outcome<u64> {
    if v == Value::Undefined {
        (w, Ok(len))
    } else {
        relative(w, v, len)
    }
}

fn read_span_end(i: &mut Interp, v: Value, len: u64) -> (r: Result<u64, Value>)
    requires
        len <= num::MAX_SAFE,
    ensures
        (final(i)@, r) == span_end(old(i)@, v, len),
        r matches Ok(k) ==> k <= len,
{
    if v.is_undefined() {
        Ok(len)
    } else {
        read_relative(i, v, len)
    }
}

// push, pop, shift, unshift

/// Appends the arguments from `j` on at `len`.
pub open spec fn pushed_from(w: World, o: Value, args: Seq<Value>, j: int, len: int) -> Outcome<Value>
    decreases args.len() - j,
{
    if j < 0 || j >= args.len() {
        let (w1, r) = length_put(w, o, len);
        match r {
            Err(e) => (w1, Err(e)),
            Ok(_) => (w1, Ok(Value::Num(num::number(len)))),
        }
    } else {
        let (w1, r) = put(w, o, Key::Index(len as u64), args[j]);
        match r {
            Err(e) => (w1, Err(e)),
            Ok(_) => pushed_from(w1, o, args, j + 1, len + 1),
        }
    }
}

/// `Array.prototype.push`.
pub open spec fn pushed(w: World, this: Value, args: Seq<Value>) -> Outcome<Value> {
    let (w, o) = receiver(w, this);
    match o {
        Err(e) => (w, Err(e)),
        Ok(o) => {
            let (w, len) = length_of(w, o);
            match len {
                Err(e) => (w, Err(e)),
                Ok(len) => if len + args.len() > num::MAX_SAFE {
                    w.throw(ErrorKind::Type, "push would exceed the maximum array length")
                } else {
                    pushed_from(w, o, args, 0, len as int)
                },
            }
        },
    }
}

pub fn nf_array_push(i: &mut Interp, this: Value, args: &[Value]) -> (r: Result<Value, Value>)
    ensures
        (final(i)@, r) == pushed(old(i)@, this, args@),
{
    let o = arr_to_object(i, this)?;
    // `push` only writes at the tail, so a huge array-like length is fine.
    let mut len: u64 = to_length(i, o)?;
    // The resulting length may not exceed 2^53-1.
    if args.len() as u64 > num::MAX_SAFE - len {
        return i.type_error("push would exceed the maximum array length");
    }
    let mut j: usize = 0;
    while j < args.len()
        invariant
            j <= args@.len(),
            len + (args@.len() - j) <= num::MAX_SAFE,
            pushed(old(i)@, this, args@) == pushed_from(i@, o, args@, j as int, len as int),
        decreases args@.len() - j,
    {
        set_throw(i, o, Key::Index(len), args[j])?;
        len += 1;
        j += 1;
    }
    // Generic objects don't auto-track length the way arrays do, so set it explicitly.
    set_length_throw(i, o, len)?;
    Ok(Value::Num(num::of_u64(len)))
}

/// `Array.prototype.pop`.
pub open spec fn popped(w: World, this: Value) -> Outcome<Value> {
    let (w, o) = receiver(w, this);
    match o {
        Err(e) => (w, Err(e)),
        Ok(o) => {
            let (w, len) = length_of(w, o);
            match len {
                Err(e) => (w, Err(e)),
                Ok(len) => if len == 0 {
                    let (w, r) = length_put(w, o, 0);
                    match r {
                        Err(e) => (w, Err(e)),
                        Ok(_) => (w, Ok(Value::Undefined)),
                    }
                } else {
                    let (w, last) = w.get(o, Key::Index((len - 1) as u64));
                    match last {
                        Err(e) => (w, Err(e)),
                        Ok(last) => {
                            let (w, r) = w.value(
                                Op::Remove(o, Key::Index((len - 1) as u64)),
                                Seq::empty(),
                            );
                            match r {
                                Err(e) => (w, Err(e)),
                                Ok(_) => {
                                    let (w, r) = length_put(w, o, len - 1);
                                    match r {
                                        Err(e) => (w, Err(e)),
                                        Ok(_) => (w, Ok(last)),
                                    }
                                },
                            }
                        },
                    }
                },
            }
        },
    }
}

pub fn nf_array_pop(i: &mut Interp, this: Value) -> (r: Result<Value, Value>)
    ensures
        (final(i)@, r) == popped(old(i)@, this),
{
    let o = arr_to_object(i, this)?;
    // `pop` only touches the last index, so a huge array-like length is fine.
    let len: u64 = to_length(i, o)?;
    if len == 0 {
        set_length_throw(i, o, 0)?;
        return Ok(Value::Undefined);
    }
    let last = i.get_member(o, Key::Index(len - 1))?;
    i.value_of(Op::Remove(o, Key::Index(len - 1)))?;
    set_length_throw(i, o, len - 1)?;
    Ok(last)
}

/// Moves the elements from `k` on one place down.
pub open spec fn shifted_from(w: World, o: Value, k: int, len: int) -> Outcome<()>
    decreases len - k,
{
    if k >= len {
        (w, Ok(()))
    } else {
        let (w1, r) = moved(w, o, k as u64, (k - 1) as u64);
        match r {
            Err(e) => (w1, Err(e)),
            Ok(_) => shifted_from(w1, o, k + 1, len),
        }
    }
}

/// `Array.prototype.shift`.
pub open spec fn shifted(w: World, this: Value, limit: u64) -> Outcome<Value> {
    let (w, o) = receiver(w, this);
    match o {
        Err(e) => (w, Err(e)),
        Ok(o) => {
            let (w, len) = checked_length(w, o, limit);
            match len {
                Err(e) => (w, Err(e)),
                Ok(len) => if len == 0 {
                    let (w, r) = length_put(w, o, 0);
                    match r {
                        Err(e) => (w, Err(e)),
                        Ok(_) => (w, Ok(Value::Undefined)),
                    }
                } else {
                    let (w, first) = w.get(o, Key::Index(0));
                    match first {
                        Err(e) => (w, Err(e)),
                        Ok(first) => {
                            let (w, r) = shifted_from(w, o, 1, len as int);
                            match r {
                                Err(e) => (w, Err(e)),
                                Ok(_) => {
                                    let (w, r) = w.value(
                                        Op::Remove(o, Key::Index((len - 1) as u64)),
                                        Seq::empty(),
                                    );
                                    match r {
                                        Err(e) => (w, Err(e)),
                                        Ok(_) => {
                                            let (w, r) = length_put(w, o, len - 1);
                                            match r {
                                                Err(e) => (w, Err(e)),
                                                Ok(_) => (w, Ok(first)),
                                            }
                                        },
                                    }
                                },
                            }
                        },
                    }
                },
            }
        },
    }
}

fn shift_elements(i: &mut Interp, o: Value, len: u64) -> (r: Result<(), Value>)
    ensures
        (final(i)@, r) == shifted_from(old(i)@, o, 1, len as int),
{
    let mut k: u64 = 1;
    while k < len
        invariant
            1 <= k,
            shifted_from(old(i)@, o, 1, len as int) == shifted_from(i@, o, k as int, len as int),
        decreases len - k,
    {
        move_element(i, o, k, k - 1)?;
        k += 1;
    }
    Ok(())
}

pub fn array_shift(i: &mut Interp, this: Value, limit: u64) -> (r: Result<Value, Value>)
    ensures
        (final(i)@, r) == shifted(old(i)@, this, limit),
{
    let o = arr_to_object(i, this)?;
    let len: u64 = checked_array_len(i, o, limit)?;
    if len == 0 {
        set_length_throw(i, o, 0)?;
        return Ok(Value::Undefined);
    }
    let first = i.get_member(o, Key::Index(0))?;
    shift_elements(i, o, len)?;
    i.value_of(Op::Remove(o, Key::Index(len - 1)))?;
    set_length_throw(i, o, len - 1)?;
    Ok(first)
}

/// Moves the first `k` elements `n` places up, the last of them first.
pub open spec fn raised(w: World, o: Value, k: int, n: int) -> Outcome<()>
    decreases k,
{
    if k <= 0 {
        (w, Ok(()))
    } else {
        let (w1, r) = moved(w, o, (k - 1) as u64, (k - 1 + n) as u64);
        match r {
            Err(e) => (w1, Err(e)),
            Ok(_) => raised(w1, o, k - 1, n),
        }
    }
}

fn raise_elements(i: &mut Interp, o: Value, len: u64, n: u64) -> (r: Result<(), Value>)
    requires
        len + n <= num::MAX_SAFE,
    ensures
        (final(i)@, r) == raised(old(i)@, o, len as int, n as int),
{
    let mut k: u64 = len;
    while k > 0
        invariant
            k <= len,
            len + n <= num::MAX_SAFE,
            raised(old(i)@, o, len as int, n as int) == raised(i@, o, k as int, n as int),
        decreases k,
    {
        move_element(i, o, k - 1, k - 1 + n)?;
        k -= 1;
    }
    Ok(())
}

/// Writes a list of values from index `at` on, `j` of them done.
pub open spec fn written(w: World, o: Value, at: int, list: Seq<Value>, j: int) -> Outcome<()>
    decreases list.len() - j,
{
    if j < 0 || j >= list.len() {
        (w, Ok(()))
    } else {
        let (w1, r) = put(w, o, Key::Index((at + j) as u64), list[j]);
        match r {
            Err(e) => (w1, Err(e)),
            Ok(_) => written(w1, o, at, list, j + 1),
        }
    }
}

fn write_list(i: &mut Interp, o: Value, at: u64, list: &[Value]) -> (r: Result<(), Value>)
    requires
        at + list@.len() <= u64::MAX,
    ensures
        (final(i)@, r) == written(old(i)@, o, at as int, list@, 0),
{
    let mut j: usize = 0;
    while j < list.len()
        invariant
            j <= list@.len(),
            at + list@.len() <= u64::MAX,
            written(old(i)@, o, at as int, list@, 0) == written(
                i@,
                o,
                at as int,
                list@,
                j as int,
            ),
        decreases list@.len() - j,
    {
        set_throw(i, o, Key::Index(at + j as u64), list[j])?;
        j += 1;
    }
    Ok(())
}

/// `Array.prototype.unshift`.
pub open spec fn unshifted(w: World, this: Value, args: Seq<Value>) -> Outcome<Value> {
    let (w, o) = receiver(w, this);
    match o {
        Err(e) => (w, Err(e)),
        Ok(o) => {
            let (w, len) = length_of(w, o);
            match len {
                Err(e) => (w, Err(e)),
                Ok(len) => {
                    let n = args.len();
                    let (w, r) = if n == 0 {
                        (w, Ok(()))
                    } else if len + n > num::MAX_SAFE {
                        w.throw(ErrorKind::Type, "unshift result is too long")
                    } else {
                        let (w, r) = raised(w, o, len as int, n as int);
                        match r {
                            Err(e) => (w, Err(e)),
                            Ok(_) => written(w, o, 0, args, 0),
                        }
                    };
                    match r {
                        Err(e) => (w, Err(e)),
                        Ok(_) => {
                            let (w, r) = length_put(w, o, (len + n) as int);
                            match r {
                                Err(e) => (w, Err(e)),
                                Ok(_) => (w, Ok(Value::Num(num::number((len + n) as int)))),
                            }
                        },
                    }
                },
            }
        },
    }
}

pub fn array_unshift(i: &mut Interp, this: Value, args: &[Value]) -> (r: Result<Value, Value>)
    ensures
        (final(i)@, r) == unshifted(old(i)@, this, args@),
{
    let o = arr_to_object(i, this)?;
    let len: u64 = to_length(i, o)?;
    let n: u64 = args.len() as u64;
    if n > 0 {
        if n > num::MAX_SAFE - len {
            return i.type_error("unshift result is too long");
        }
        raise_elements(i, o, len, n)?;
        write_list(i, o, 0, args)?;
    }
    set_length_throw(i, o, len + n)?;
    Ok(Value::Num(num::of_u64(len + n)))
}

// Results

/// An array of holes.
pub open spec fn sparse(w: World, len: int) -> Outcome<Value> {
    if len > 0xffff_ffff {
        w.throw(ErrorKind::Range, "invalid array length")
    } else {
        let (w, a) = w.plain(Op::NewArray, Seq::empty());
        let (w, _) = w.plain(
            Op::StoreProperty(
                a,
                Key::Name("length"),
                Property::data(Value::Num(num::number(len)), true, false, false),
            ),
            Seq::empty(),
        );
        (w, Ok(a))
    }
}

/// ArrayCreate: a length past 2^32-1 is a RangeError.
pub fn make_sparse_array(i: &mut Interp, len: u64) -> (r: Result<Value, Value>)
    ensures
        (final(i)@, r) == sparse(old(i)@, len as int),
{
    if len > 0xffff_ffff {
        return i.fail(ErrorKind::Range, "invalid array length");
    }
    let none: Vec<Value> = Vec::new();
    assert(none@ =~= Seq::<Value>::empty());
    let a = i.make_array(none);
    let p = Property::new_data(Value::Num(num::of_u64(len)), true, false, false);
    let _ = i.perform(Op::StoreProperty(a, Key::Name("length"), p));
    Ok(a)
}

pub open spec fn is_ctor(v: Value) -> bool {
    match v {
        Value::Obj(o) => o.constructor,
        _ => false,
    }
}

/// Whether a value is a constructor.
pub fn is_constructor_value(v: Value) -> (r: bool)
    ensures
        r == is_ctor(v),
{
    match v {
        Value::Obj(o) => o.constructor,
        _ => false,
    }
}

/// The constructor that the species of `c` names: null counts as undefined.
pub open spec fn species_named(w: World, c: Value) -> Outcome<Value> {
    if !c.object() {
        (w, Ok(c))
    } else {
        let (w, s) = w.get(c, Key::Symbol(WellKnown::Species));
        match s {
            Err(e) => (w, Err(e)),
            Ok(s) => (
                w,
                Ok(
                    if s == Value::Null {
                        Value::Undefined
                    } else {
                        s
                    },
                ),
            ),
        }
    }
}

/// ArraySpeciesCreate(originalArray, length): a plain array where the original is none, where its
/// constructor is some realm's `Array`, or where it names no species.
pub open spec fn species_created(w: World, original: Value, len: int) -> Outcome<Value> {
    let (w, is_array) = array_tested(w, original);
    match is_array {
        Err(e) => (w, Err(e)),
        Ok(false) => sparse(w, len),
        Ok(true) => {
            let (w, c) = w.get(original, Key::Name("constructor"));
            match c {
                Err(e) => (w, Err(e)),
                Ok(c) => {
                    let (w, foreign) = if is_ctor(c) {
                        w.yes(Op::IsForeignArray(c))
                    } else {
                        (w, false)
                    };
                    if foreign {
                        sparse(w, len)
                    } else {
                        let (w, c) = species_named(w, c);
                        match c {
                            Err(e) => (w, Err(e)),
                            Ok(c) => if c == Value::Undefined {
                                sparse(w, len)
                            } else {
                                let (w, own) = if c.object() {
                                    w.yes(Op::IsArrayConstructor(c))
                                } else {
                                    (w, false)
                                };
                                if own {
                                    sparse(w, len)
                                } else if !is_ctor(c) {
                                    w.throw(
                                        ErrorKind::Type,
                                        "Array @@species is not a constructor",
                                    )
                                } else {
                                    w.value(
                                        Op::Construct(c, c),
                                        seq![Value::Num(num::number(len))],
                                    )
                                }
                            },
                        }
                    }
                },
            }
        },
    }
}

/// ArraySpeciesCreate(originalArray, length): build the result array for a method like map/filter,
/// honoring `this.constructor[@@species]`; for an ordinary array (or no species) it's a plain
/// array.
pub fn array_species_create(i: &mut Interp, original: Value, len: u64) -> (r: Result<Value, Value>)
    requires
        len <= num::MAX_SAFE,
    ensures
        (final(i)@, r) == species_created(old(i)@, original, len as int),
{
    // IsArray pierces proxies (a proxy over an array is an array).
    if !json_is_array(i, original)? {
        return make_sparse_array(i, len);
    }
    let c = i.get_member(original, Key::Name("constructor"))?;
    // A constructor that is another realm's %Array% counts as the default (its @@species is
    // never read).
    if is_constructor_value(c) {
        if i.ask_yes(Op::IsForeignArray(c)) {
            return make_sparse_array(i, len);
        }
    }
    let species = if c.is_object() {
        let s = i.get_member(c, Key::Symbol(WellKnown::Species))?;
        if s == Value::Null {
            Value::Undefined
        } else {
            s
        }
    } else {
        c
    };
    if species.is_undefined() {
        return make_sparse_array(i, len);
    }
    if species.is_object() {
        if i.ask_yes(Op::IsArrayConstructor(species)) {
            return make_sparse_array(i, len);
        }
    }
    if !is_constructor_value(species) {
        return i.type_error("Array @@species is not a constructor");
    }
    let args = vec![Value::Num(num::of_u64(len))];
    assert(args@ =~= seq![Value::Num(num::number(len as int))]);
    i.ask_value(Op::Construct(species, species), args)
}

/// CreateDataPropertyOrThrow at an index.
pub open spec fn created_at(w: World, o: Value, k: int, v: Value) -> Outcome<Value> {
    w.value(Op::CreateData(o, Key::Index(k as u64), v), Seq::empty())
}

fn create_at(i: &mut Interp, o: Value, k: u64, v: Value) -> (r: Result<Value, Value>)
    ensures
        (final(i)@, r) == created_at(old(i)@, o, k as int, v),
{
    i.value_of(Op::CreateData(o, Key::Index(k), v))
}

/// Copies the elements from `k` to `end` into `result` from `to` on; holes stay holes.
pub open spec fn copied_span(
    w: World,
    o: Value,
    k: int,
    end: int,
    result: Value,
    to: int,
) -> Outcome<()>
    decreases end - k,
{
    if k >= end {
        (w, Ok(()))
    } else {
        let (w1, v) = present(w, o, k as u64);
        match v {
            Err(e) => (w1, Err(e)),
            Ok(None) => copied_span(w1, o, k + 1, end, result, to + 1),
            Ok(Some(v)) => {
                let (w2, r) = created_at(w1, result, to, v);
                match r {
                    Err(e) => (w2, Err(e)),
                    Ok(_) => copied_span(w2, o, k + 1, end, result, to + 1),
                }
            },
        }
    }
}

fn copy_span(i: &mut Interp, o: Value, start: u64, end: u64, result: Value, at: u64) -> (r: Result<
    (),
    Value,
>)
    requires
        at + (end - start) <= u64::MAX,
    ensures
        (final(i)@, r) == copied_span(
            old(i)@,
            o,
            start as int,
            end as int,
            result,
            at as int,
        ),
{
    let mut k: u64 = start;
    let mut to: u64 = at;
    while k < end
        invariant
            start <= k,
            to == at + (k - start),
            at + (end - start) <= u64::MAX,
            copied_span(old(i)@, o, start as int, end as int, result, at as int) == copied_span(
                i@,
                o,
                k as int,
                end as int,
                result,
                to as int,
            ),
        decreases end - k,
    {
        // Preserve holes: only copy indices the source actually has (HasProperty).
        if let Some(v) = array_get_present_index(i, o, k)? {
            create_at(i, result, to, v)?;
        }
        k += 1;
        to += 1;
    }
    Ok(())
}

// slice, splice, concat, fill, copyWithin, reverse

/// `Array.prototype.slice`.
pub open spec fn sliced(w: World, this: Value, args: Seq<Value>) -> Outcome<Value> {
    let (w, o) = receiver(w, this);
    match o {
        Err(e) => (w, Err(e)),
        Ok(o) => {
            let (w, len) = length_of(w, o);
            match len {
                Err(e) => (w, Err(e)),
                Ok(len) => {
                    let (w, start) = relative(w, arg_at(args, 0), len);
                    match start {
                        Err(e) => (w, Err(e)),
                        Ok(start) => {
                            let (w, end) = span_end(w, arg_at(args, 1), len);
                            match end {
                                Err(e) => (w, Err(e)),
                                Ok(end) => {
                                    let count = if end > start {
                                        end - start
                                    } else {
                                        0
                                    };
                                    let (w, result) = species_created(w, this, count);
                                    match result {
                                        Err(e) => (w, Err(e)),
                                        Ok(result) => {
                                            let (w, r) = copied_span(
                                                w,
                                                o,
                                                start as int,
                                                end as int,
                                                result,
                                                0,
                                            );
                                            match r {
                                                Err(e) => (w, Err(e)),
                                                Ok(_) => {
                                                    let (w, r) = length_put(w, result, count);
                                                    match r {
                                                        Err(e) => (w, Err(e)),
                                                        Ok(_) => (w, Ok(result)),
                                                    }
                                                },
                                            }
                                        },
                                    }
                                },
                            }
                        },
                    }
                },
            }
        },
    }
}

pub fn array_slice(i: &mut Interp, this: Value, args: &[Value]) -> (r: Result<Value, Value>)
    ensures
        (final(i)@, r) == sliced(old(i)@, this, args@),
{
    let o = arr_to_object(i, this)?;
    let len: u64 = to_length(i, o)?;
    let start: u64 = read_relative(i, arg(args, 0), len)?;
    let end: u64 = read_span_end(i, arg(args, 1), len)?;
    let count: u64 = if end > start {
        end - start
    } else {
        0
    };
    let result = array_species_create(i, this, count)?;
    copy_span(i, o, start, end, result, 0)?;
    set_length_throw(i, result, count)?;
    Ok(result)
}

/// How many elements a splice deletes: none without a start, all from the start without a count.
pub open spec fn delete_count(w: World, args: Seq<Value>, rest: int) -> Outcome<u64> {
    if args.len() == 0 {
        (w, Ok(0))
    } else if args.len() < 2 {
        (w, Ok(rest as u64))
    } else {
        let (w, n) = w.number(args[1]);
        match n {
            Err(e) => (w, Err(e)),
            Ok(n) => (w, Ok(num::clamp(num::cast_i64(n), 0, rest) as u64)),
        }
    }
}

pub fn read_delete_count(i: &mut Interp, args: &[Value], rest: u64) -> (r: Result<u64, Value>)
    requires
        rest <= num::MAX_SAFE,
    ensures
        (final(i)@, r) == delete_count(old(i)@, args@, rest as int),
        r matches Ok(d) ==> d <= rest,
{
    if args.len() == 0 {
        return Ok(0);
    }
    if args.len() < 2 {
        return Ok(rest);
    }
    let n: u64 = i.to_number(args[1])?;
    let d: i64 = num::as_i64(n);
    if d < 0 {
        Ok(0)
    } else if d as u64 > rest {
        Ok(rest)
    } else {
        Ok(d as u64)
    }
}

/// The arguments after the first two.
pub open spec fn inserts(args: Seq<Value>) -> Seq<Value> {
    if args.len() > 2 {
        args.skip(2)
    } else {
        Seq::empty()
    }
}

pub fn read_inserts(args: &[Value]) -> (r: Vec<Value>)
    ensures
        r@ == inserts(args@),
{
    let mut out: Vec<Value> = Vec::new();
    let mut j: usize = 2;
    assert(out@ =~= Seq::<Value>::empty());
    while j < args.len()
        invariant
            2 <= j,
            args@.len() > 2 ==> j <= args@.len() && out@ == args@.subrange(2, j as int),
            args@.len() <= 2 ==> out@ == Seq::<Value>::empty(),
        decreases args@.len() - j,
    {
        out.push(args[j]);
        assert(args@.subrange(2, j + 1) =~= args@.subrange(2, j as int).push(args@[j as int]));
        j += 1;
    }
    if args.len() > 2 {
        assert(args@.subrange(2, j as int) =~= args@.skip(2));
    }
    out
}

/// Moves the elements behind a deleted span down to close the gap, from `k` on.
pub open spec fn closed_up(w: World, o: Value, k: int, stop: int, deleted: int, added: int) -> Outcome<()>
    decreases stop - k,
{
    if k >= stop {
        (w, Ok(()))
    } else {
        let (w1, r) = moved(w, o, (k + deleted) as u64, (k + added) as u64);
        match r {
            Err(e) => (w1, Err(e)),
            Ok(_) => closed_up(w1, o, k + 1, stop, deleted, added),
        }
    }
}

/// Removes the elements below `k` down to `floor`, the last first.
pub open spec fn cut_off(w: World, o: Value, k: int, floor: int) -> Outcome<()>
    decreases k - floor,
{
    if k <= floor {
        (w, Ok(()))
    } else {
        let (w1, r) = w.value(Op::Remove(o, Key::Index((k - 1) as u64)), Seq::empty());
        match r {
            Err(e) => (w1, Err(e)),
            Ok(_) => cut_off(w1, o, k - 1, floor),
        }
    }
}

/// Moves the elements behind a span up to open a gap, the last first.
pub open spec fn opened_up(w: World, o: Value, k: int, start: int, deleted: int, added: int) -> Outcome<()>
    decreases k - start,
{
    if k <= start {
        (w, Ok(()))
    } else {
        let (w1, r) = moved(w, o, (k + deleted - 1) as u64, (k + added - 1) as u64);
        match r {
            Err(e) => (w1, Err(e)),
            Ok(_) => opened_up(w1, o, k - 1, start, deleted, added),
        }
    }
}

/// Shifts the elements behind a spliced span to where they belong.
pub open spec fn tail_moved(w: World, o: Value, len: int, start: int, deleted: int, added: int) -> Outcome<()> {
    if added < deleted {
        let (w, r) = closed_up(w, o, start, len - deleted, deleted, added);
        match r {
            Err(e) => (w, Err(e)),
            Ok(_) => cut_off(w, o, len, len - deleted + added),
        }
    } else if added > deleted {
        opened_up(w, o, len - deleted, start, deleted, added)
    } else {
        (w, Ok(()))
    }
}

fn move_tail(i: &mut Interp, o: Value, len: u64, start: u64, deleted: u64, added: u64) -> (r: Result<
    (),
    Value,
>)
    requires
        start + deleted <= len <= num::MAX_SAFE,
        len - deleted + added <= num::MAX_SAFE,
    ensures
        (final(i)@, r) == tail_moved(
            old(i)@,
            o,
            len as int,
            start as int,
            deleted as int,
            added as int,
        ),
{
    if added < deleted {
        let ghost w0 = i@;
        let mut k: u64 = start;
        while k < len - deleted
            invariant
                start <= k <= len - deleted,
                added < deleted,
                len <= num::MAX_SAFE,
                deleted <= len,
                closed_up(
                    w0,
                    o,
                    start as int,
                    len - deleted,
                    deleted as int,
                    added as int,
                ) == closed_up(i@, o, k as int, len - deleted, deleted as int, added as int),
                w0 == old(i)@,
            decreases len - deleted - k,
        {
            move_element(i, o, k + deleted, k + added)?;
            k += 1;
        }
        let ghost w1 = i@;
        let floor: u64 = len - deleted + added;
        let mut j: u64 = len;
        while j > floor
            invariant
                j <= len,
                floor == len - deleted + added,
                cut_off(w1, o, len as int, floor as int) == cut_off(
                    i@,
                    o,
                    j as int,
                    floor as int,
                ),
                tail_moved(
                    old(i)@,
                    o,
                    len as int,
                    start as int,
                    deleted as int,
                    added as int,
                ) == cut_off(w1, o, len as int, floor as int),
            decreases j,
        {
            i.value_of(Op::Remove(o, Key::Index(j - 1)))?;
            j -= 1;
        }
    } else if added > deleted {
        let mut k: u64 = len - deleted;
        while k > start
            invariant
                start <= k <= len - deleted,
                added > deleted,
                deleted <= len,
                len <= num::MAX_SAFE,
                len - deleted + added <= num::MAX_SAFE,
                opened_up(
                    old(i)@,
                    o,
                    len - deleted,
                    start as int,
                    deleted as int,
                    added as int,
                ) == opened_up(i@, o, k as int, start as int, deleted as int, added as int),
            decreases k,
        {
            move_element(i, o, k + deleted - 1, k + added - 1)?;
            k -= 1;
        }
    }
    Ok(())
}

/// `Array.prototype.splice`: the removed elements; the receiver has the inserted ones in their
/// place.
pub open spec fn spliced(w: World, this: Value, args: Seq<Value>) -> Outcome<Value> {
    let (w, o) = receiver(w, this);
    match o {
        Err(e) => (w, Err(e)),
        Ok(o) => {
            let (w, len) = length_of(w, o);
            match len {
                Err(e) => (w, Err(e)),
                Ok(len) => {
                    let (w, start) = relative(w, arg_at(args, 0), len);
                    match start {
                        Err(e) => (w, Err(e)),
                        Ok(start) => {
                            let (w, del) = delete_count(w, args, len - start);
                            match del {
                                Err(e) => (w, Err(e)),
                                Ok(del) => spliced_at(w, this, o, len, start, del, inserts(args)),
                            }
                        },
                    }
                },
            }
        },
    }
}

/// A splice with its span known.
pub open spec fn spliced_at(
    w: World,
    this: Value,
    o: Value,
    len: u64,
    start: u64,
    del: u64,
    items: Seq<Value>,
) -> Outcome<Value> {
    if len - del + items.len() > num::MAX_SAFE {
        w.throw(ErrorKind::Type, "splice result is too long")
    } else {
        let (w, out) = species_created(w, this, del as int);
        match out {
            Err(e) => (w, Err(e)),
            Ok(out) => {
                let (w, r) = copied_span(w, o, start as int, start + del, out, 0);
                match r {
                    Err(e) => (w, Err(e)),
                    Ok(_) => {
                        let (w, r) = length_put(w, out, del as int);
                        match r {
                            Err(e) => (w, Err(e)),
                            Ok(_) => {
                                let (w, r) = tail_moved(
                                    w,
                                    o,
                                    len as int,
                                    start as int,
                                    del as int,
                                    items.len() as int,
                                );
                                match r {
                                    Err(e) => (w, Err(e)),
                                    Ok(_) => {
                                        let (w, r) = written(w, o, start as int, items, 0);
                                        match r {
                                            Err(e) => (w, Err(e)),
                                            Ok(_) => {
                                                let (w, r) = length_put(
                                                    w,
                                                    o,
                                                    len - del + items.len(),
                                                );
                                                match r {
                                                    Err(e) => (w, Err(e)),
                                                    Ok(_) => (w, Ok(out)),
                                                }
                                            },
                                        }
                                    },
                                }
                            },
                        }
                    },
                }
            },
        }
    }
}

pub fn array_splice(i: &mut Interp, this: Value, args: &[Value]) -> (r: Result<Value, Value>)
    ensures
        (final(i)@, r) == spliced(old(i)@, this, args@),
{
    let o = arr_to_object(i, this)?;
    let len: u64 = to_length(i, o)?;
    let start: u64 = read_relative(i, arg(args, 0), len)?;
    let del: u64 = read_delete_count(i, args, len - start)?;
    let items: Vec<Value> = read_inserts(args);
    let count: u64 = items.len() as u64;
    // A result length past 2^53-1 is a TypeError (before any mutation or species construction).
    if count > num::MAX_SAFE - (len - del) {
        return i.type_error("splice result is too long");
    }
    // The removed array (ArraySpeciesCreate) preserves holes via HasProperty.
    let out = array_species_create(i, this, del)?;
    copy_span(i, o, start, start + del, out, 0)?;
    set_length_throw(i, out, del)?;
    // Shift the trailing elements (preserving holes) to open or close the gap.
    move_tail(i, o, len, start, del, count)?;
    write_list(i, o, start, items.as_slice())?;
    set_length_throw(i, o, len - del + count)?;
    Ok(out)
}

/// IsConcatSpreadable: the symbol's value where it is defined, else whether it is an array.
pub open spec fn spreadable(w: World, v: Value) -> Outcome<bool> {
    if !v.object() {
        (w, Ok(false))
    } else {
        let (w, flag) = w.get(v, Key::Symbol(WellKnown::IsConcatSpreadable));
        match flag {
            Err(e) => (w, Err(e)),
            Ok(flag) => if flag == Value::Undefined {
                array_tested(w, v)
            } else {
                (w, Ok(w.truthy(flag)))
            },
        }
    }
}

fn is_spreadable(i: &mut Interp, v: Value) -> (r: Result<bool, Value>)
    ensures
        (final(i)@, r) == spreadable(old(i)@, v),
{
    if !v.is_object() {
        return Ok(false);
    }
    let flag = i.get_member(v, Key::Symbol(WellKnown::IsConcatSpreadable))?;
    if flag.is_undefined() {
        json_is_array(i, v)
    } else {
        Ok(i.to_boolean(flag))
    }
}

/// One item of a concatenation put at `n`; the next index.
pub open spec fn item_concatenated(w: World, result: Value, v: Value, n: int) -> Outcome<u64> {
    let (w, s) = spreadable(w, v);
    match s {
        Err(e) => (w, Err(e)),
        Ok(true) => {
            let (w, len) = length_of(w, v);
            match len {
                Err(e) => (w, Err(e)),
                Ok(len) => if n + len > num::MAX_SAFE {
                    w.throw(ErrorKind::Type, "concat result is too long")
                } else {
                    let (w, r) = copied_span(w, v, 0, len as int, result, n);
                    match r {
                        Err(e) => (w, Err(e)),
                        Ok(_) => (w, Ok((n + len) as u64)),
                    }
                },
            }
        },
        Ok(false) => if n >= num::MAX_SAFE {
            w.throw(ErrorKind::Type, "concat result is too long")
        } else {
            let (w, r) = created_at(w, result, n, v);
            match r {
                Err(e) => (w, Err(e)),
                Ok(_) => (w, Ok((n + 1) as u64)),
            }
        },
    }
}

fn concat_item(i: &mut Interp, result: Value, v: Value, n: u64) -> (r: Result<u64, Value>)
    requires
        n <= num::MAX_SAFE,
    ensures
        (final(i)@, r) == item_concatenated(old(i)@, result, v, n as int),
        r matches Ok(m) ==> m <= num::MAX_SAFE,
{
    if is_spreadable(i, v)? {
        let len: u64 = to_length(i, v)?;
        if n + len > num::MAX_SAFE {
            return i.type_error("concat result is too long");
        }
        copy_span(i, v, 0, len, result, n)?;
        Ok(n + len)
    } else {
        if n >= num::MAX_SAFE {
            return i.type_error("concat result is too long");
        }
        create_at(i, result, n, v)?;
        Ok(n + 1)
    }
}

/// The items of a concatenation from `j` on.
pub open spec fn concatenated_from(w: World, result: Value, args: Seq<Value>, j: int, n: int) -> Outcome<Value>
    decreases args.len() - j,
{
    if j < 0 || j >= args.len() {
        let (w1, r) = length_put(w, result, n);
        match r {
            Err(e) => (w1, Err(e)),
            Ok(_) => (w1, Ok(result)),
        }
    } else {
        let (w1, m) = item_concatenated(w, result, args[j], n);
        match m {
            Err(e) => (w1, Err(e)),
            Ok(m) => concatenated_from(w1, result, args, j + 1, m as int),
        }
    }
}

/// `Array.prototype.concat`: the receiver comes first.
pub open spec fn concatenated(w: World, this: Value, args: Seq<Value>) -> Outcome<Value> {
    let (w, o) = receiver(w, this);
    match o {
        Err(e) => (w, Err(e)),
        Ok(o) => {
            let (w, result) = species_created(w, o, 0);
            match result {
                Err(e) => (w, Err(e)),
                Ok(result) => {
                    let (w, n) = item_concatenated(w, result, o, 0);
                    match n {
                        Err(e) => (w, Err(e)),
                        Ok(n) => concatenated_from(w, result, args, 0, n as int),
                    }
                },
            }
        },
    }
}

pub fn array_concat(i: &mut Interp, this: Value, args: &[Value]) -> (r: Result<Value, Value>)
    ensures
        (final(i)@, r) == concatenated(old(i)@, this, args@),
{
    // ToObject(this): a primitive receiver is boxed (and spread/appended as its wrapper).
    let o = arr_to_object(i, this)?;
    let result = array_species_create(i, o, 0)?;
    let mut n: u64 = concat_item(i, result, o, 0)?;
    let mut j: usize = 0;
    while j < args.len()
        invariant
            j <= args@.len(),
            n <= num::MAX_SAFE,
            concatenated(old(i)@, this, args@) == concatenated_from(
                i@,
                result,
                args@,
                j as int,
                n as int,
            ),
        decreases args@.len() - j,
    {
        n = concat_item(i, result, args[j], n)?;
        j += 1;
    }
    set_length_throw(i, result, n)?;
    Ok(result)
}

/// Fills from `k` to `end`.
pub open spec fn filled_from(w: World, o: Value, v: Value, k: int, end: int) -> Outcome<Value>
    decreases end - k,
{
    if k >= end {
        (w, Ok(o))
    } else {
        let (w1, r) = put(w, o, Key::Index(k as u64), v);
        match r {
            Err(e) => (w1, Err(e)),
            Ok(_) => filled_from(w1, o, v, k + 1, end),
        }
    }
}

/// `Array.prototype.fill`: a real array is not filled over a span larger than the engine's limit.
pub open spec fn filled(w: World, this: Value, args: Seq<Value>, limit: u64) -> Outcome<Value> {
    let (w, o) = receiver(w, this);
    match o {
        Err(e) => (w, Err(e)),
        Ok(o) => {
            let (w, len) = length_of(w, o);
            match len {
                Err(e) => (w, Err(e)),
                Ok(len) => {
                    let (w, start) = relative(w, arg_at(args, 1), len);
                    match start {
                        Err(e) => (w, Err(e)),
                        Ok(start) => {
                            let (w, end) = span_end(w, arg_at(args, 2), len);
                            match end {
                                Err(e) => (w, Err(e)),
                                Ok(end) => {
                                    let (w, exotic) = w.yes(Op::IsArrayExotic(o));
                                    if exotic && end - start > limit {
                                        w.throw(
                                            ErrorKind::Range,
                                            "array length exceeds engine limit",
                                        )
                                    } else {
                                        filled_from(
                                            w,
                                            o,
                                            arg_at(args, 0),
                                            start as int,
                                            end as int,
                                        )
                                    }
                                },
                            }
                        },
                    }
                },
            }
        },
    }
}

pub fn array_fill(i: &mut Interp, this: Value, args: &[Value], limit: u64) -> (r: Result<
    Value,
    Value,
>)
    ensures
        (final(i)@, r) == filled(old(i)@, this, args@, limit),
{
    let o = arr_to_object(i, this)?;
    let len: u64 = to_length(i, o)?;
    let v = arg(args, 0);
    let start: u64 = read_relative(i, arg(args, 1), len)?;
    let end: u64 = read_span_end(i, arg(args, 2), len)?;
    // A real Array's filled span is bounded by the engine cap (it materializes one property per
    // index); a generic array-like iterates lazily.
    if i.ask_yes(Op::IsArrayExotic(o)) && end > start && end - start > limit {
        return i.fail(ErrorKind::Range, "array length exceeds engine limit");
    }
    let mut k: u64 = start;
    while k < end
        invariant
            filled(old(i)@, this, args@, limit) == filled_from(i@, o, v, k as int, end as int),
        decreases end - k,
    {
        set_throw(i, o, Key::Index(k), v)?;
        k += 1;
    }
    Ok(o)
}

/// Copies `count` elements one by one, going up or down.
pub open spec fn copied_within(
    w: World,
    o: Value,
    from: int,
    to: int,
    count: int,
    up: bool,
) -> Outcome<Value>
    decreases count,
{
    if count <= 0 {
        (w, Ok(o))
    } else {
        let (w1, r) = moved(w, o, from as u64, to as u64);
        match r {
            Err(e) => (w1, Err(e)),
            Ok(_) => if up {
                copied_within(w1, o, from + 1, to + 1, count - 1, up)
            } else {
                copied_within(w1, o, from - 1, to - 1, count - 1, up)
            },
        }
    }
}

/// How many elements `copyWithin` moves.
pub open spec fn move_count(start: int, end: int, target: int, len: int) -> int {
    let span = end - start;
    let room = len - target;
    let n = if span < room {
        span
    } else {
        room
    };
    if n < 0 {
        0
    } else {
        n
    }
}

/// `Array.prototype.copyWithin`: overlapping spans are copied from the end.
pub open spec fn moved_within(w: World, this: Value, args: Seq<Value>) -> Outcome<Value> {
    let (w, o) = receiver(w, this);
    match o {
        Err(e) => (w, Err(e)),
        Ok(o) => {
            let (w, len) = length_of(w, o);
            match len {
                Err(e) => (w, Err(e)),
                Ok(len) => {
                    let (w, target) = relative(w, arg_at(args, 0), len);
                    match target {
                        Err(e) => (w, Err(e)),
                        Ok(target) => {
                            let (w, start) = relative(w, arg_at(args, 1), len);
                            match start {
                                Err(e) => (w, Err(e)),
                                Ok(start) => {
                                    let (w, end) = span_end(w, arg_at(args, 2), len);
                                    match end {
                                        Err(e) => (w, Err(e)),
                                        Ok(end) => {
                                            let n = move_count(
                                                start as int,
                                                end as int,
                                                target as int,
                                                len as int,
                                            );
                                            if start < target && target < start + n {
                                                copied_within(
                                                    w,
                                                    o,
                                                    start + n - 1,
                                                    target + n - 1,
                                                    n,
                                                    false,
                                                )
                                            } else {
                                                copied_within(
                                                    w,
                                                    o,
                                                    start as int,
                                                    target as int,
                                                    n,
                                                    true,
                                                )
                                            }
                                        },
                                    }
                                },
                            }
                        },
                    }
                },
            }
        },
    }
}

pub fn array_copy_within(i: &mut Interp, this: Value, args: &[Value]) -> (r: Result<Value, Value>)
    ensures
        (final(i)@, r) == moved_within(old(i)@, this, args@),
{
    let o = arr_to_object(i, this)?;
    let len: u64 = to_length(i, o)?;
    let target: u64 = read_relative(i, arg(args, 0), len)?;
    let start: u64 = read_relative(i, arg(args, 1), len)?;
    let end: u64 = read_span_end(i, arg(args, 2), len)?;
    // Copy element by element (backwards when the ranges overlap that way), with live
    // HasProperty/Get/Set and DeletePropertyOrThrow for source holes.
    let span: u64 = if end > start {
        end - start
    } else {
        0
    };
    let room: u64 = len - target;
    let n: u64 = if span < room {
        span
    } else {
        room
    };
    assert(n == move_count(start as int, end as int, target as int, len as int));
    if start < target && target < start + n {
        let mut count: u64 = n;
        while count > 0
            invariant
                count <= n,
                start + n <= num::MAX_SAFE,
                target + n <= num::MAX_SAFE,
                moved_within(old(i)@, this, args@) == copied_within(
                    i@,
                    o,
                    start + count - 1,
                    target + count - 1,
                    count as int,
                    false,
                ),
            decreases count,
        {
            move_element(i, o, start + count - 1, target + count - 1)?;
            count -= 1;
        }
    } else {
        let mut done: u64 = 0;
        while done < n
            invariant
                done <= n,
                start + n <= num::MAX_SAFE,
                target + n <= num::MAX_SAFE,
                moved_within(old(i)@, this, args@) == copied_within(
                    i@,
                    o,
                    start + done,
                    target + done,
                    n - done,
                    true,
                ),
            decreases n - done,
        {
            move_element(i, o, start + done, target + done)?;
            done += 1;
        }
    }
    Ok(o)
}

/// Swaps two ends, holes included.
pub open spec fn swapped(w: World, o: Value, lower: u64, upper: u64) -> Outcome<Value> {
    let (w, lv) = present(w, o, lower);
    match lv {
        Err(e) => (w, Err(e)),
        Ok(lv) => {
            let (w, uv) = present(w, o, upper);
            match uv {
                Err(e) => (w, Err(e)),
                Ok(uv) => match (lv, uv) {
                    (Some(lv), Some(uv)) => {
                        let (w, r) = put(w, o, Key::Index(lower), uv);
                        match r {
                            Err(e) => (w, Err(e)),
                            Ok(_) => put(w, o, Key::Index(upper), lv),
                        }
                    },
                    (None, Some(uv)) => {
                        let (w, r) = put(w, o, Key::Index(lower), uv);
                        match r {
                            Err(e) => (w, Err(e)),
                            Ok(_) => w.value(Op::Remove(o, Key::Index(upper)), Seq::empty()),
                        }
                    },
                    (Some(lv), None) => {
                        let (w, r) = w.value(Op::Remove(o, Key::Index(lower)), Seq::empty());
                        match r {
                            Err(e) => (w, Err(e)),
                            Ok(_) => put(w, o, Key::Index(upper), lv),
                        }
                    },
                    (None, None) => (w, Ok(Value::Undefined)),
                },
            }
        },
    }
}

fn swap_ends(i: &mut Interp, o: Value, lower: u64, upper: u64) -> (r: Result<Value, Value>)
    ensures
        (final(i)@, r) == swapped(old(i)@, o, lower, upper),
{
    // HasProperty/Get the two ends, then swap — preserving holes (a hole moves as a
    // DeletePropertyOrThrow).
    let lv = array_get_present_index(i, o, lower)?;
    let uv = array_get_present_index(i, o, upper)?;
    match (lv, uv) {
        (Some(lv), Some(uv)) => {
            set_throw(i, o, Key::Index(lower), uv)?;
            set_throw(i, o, Key::Index(upper), lv)
        },
        (None, Some(uv)) => {
            set_throw(i, o, Key::Index(lower), uv)?;
            i.value_of(Op::Remove(o, Key::Index(upper)))
        },
        (Some(lv), None) => {
            i.value_of(Op::Remove(o, Key::Index(lower)))?;
            set_throw(i, o, Key::Index(upper), lv)
        },
        (None, None) => Ok(Value::Undefined),
    }
}

/// Reverses from pair `k` on.
pub open spec fn reversed_from(w: World, o: Value, k: int, len: int) -> Outcome<Value>
    decreases len / 2 - k,
{
    if k >= len / 2 {
        (w, Ok(o))
    } else {
        let (w1, r) = swapped(w, o, k as u64, (len - 1 - k) as u64);
        match r {
            Err(e) => (w1, Err(e)),
            Ok(_) => reversed_from(w1, o, k + 1, len),
        }
    }
}

/// `Array.prototype.reverse`.
pub open spec fn reversed(w: World, this: Value) -> Outcome<Value> {
    let (w, o) = receiver(w, this);
    match o {
        Err(e) => (w, Err(e)),
        Ok(o) => {
            let (w, len) = length_of(w, o);
            match len {
                Err(e) => (w, Err(e)),
                Ok(len) => reversed_from(w, o, 0, len as int),
            }
        },
    }
}

pub fn array_reverse(i: &mut Interp, this: Value) -> (r: Result<Value, Value>)
    ensures
        (final(i)@, r) == reversed(old(i)@, this),
{
    let o = arr_to_object(i, this)?;
    let len: u64 = to_length(i, o)?;
    let mut k: u64 = 0;
    while k < len / 2
        invariant
            k <= len / 2,
            reversed(old(i)@, this) == reversed_from(i@, o, k as int, len as int),
        decreases len / 2 - k,
    {
        swap_ends(i, o, k, len - 1 - k)?;
        k += 1;
    }
    Ok(o)
}

// Searching

/// The first index from `k` on whose element strictly equals the target; holes are skipped.
pub open spec fn index_from(w: World, o: Value, target: Value, k: int, len: int) -> Outcome<Value>
    decreases len - k,
{
    if k >= len {
        (w, Ok(Value::Num(num::MINUS_ONE)))
    } else {
        let (w1, v) = present(w, o, k as u64);
        match v {
            Err(e) => (w1, Err(e)),
            Ok(v) => if v is Some && strictly_same(v->0, target) {
                (w1, Ok(Value::Num(num::number(k))))
            } else {
                index_from(w1, o, target, k + 1, len)
            },
        }
    }
}

/// Where a search starts: 0 where the argument is undefined.
pub open spec fn search_start(w: World, v: Value, len: u64) -> Outcome<u64> {
    if v == Value::Undefined {
        (w, Ok(0))
    } else {
        relative(w, v, len)
    }
}

fn read_search_start(i: &mut Interp, v: Value, len: u64) -> (r: Result<u64, Value>)
    requires
        len <= num::MAX_SAFE,
    ensures
        (final(i)@, r) == search_start(old(i)@, v, len),
        r matches Ok(k) ==> k <= len,
{
    if v.is_undefined() {
        Ok(0)
    } else {
        read_relative(i, v, len)
    }
}

/// `Array.prototype.indexOf`: the length is tested before the start is coerced.
pub open spec fn index_found(w: World, this: Value, args: Seq<Value>) -> Outcome<Value> {
    let (w, o) = receiver(w, this);
    match o {
        Err(e) => (w, Err(e)),
        Ok(o) => {
            let (w, len) = length_of(w, o);
            match len {
                Err(e) => (w, Err(e)),
                Ok(len) => if len == 0 {
                    (w, Ok(Value::Num(num::MINUS_ONE)))
                } else {
                    let (w, k) = search_start(w, arg_at(args, 1), len);
                    match k {
                        Err(e) => (w, Err(e)),
                        Ok(k) => index_from(w, o, arg_at(args, 0), k as int, len as int),
                    }
                },
            }
        },
    }
}

pub fn array_index_of(i: &mut Interp, this: Value, args: &[Value]) -> (r: Result<Value, Value>)
    ensures
        (final(i)@, r) == index_found(old(i)@, this, args@),
{
    let o = arr_to_object(i, this)?;
    let len: u64 = to_length(i, o)?;
    if len == 0 {
        // The length check precedes the fromIndex coercion.
        return Ok(Value::Num(num::MINUS_ONE));
    }
    let target = arg(args, 0);
    let mut k: u64 = read_search_start(i, arg(args, 1), len)?;
    while k < len
        invariant
            len <= num::MAX_SAFE,
            index_found(old(i)@, this, args@) == index_from(i@, o, target, k as int, len as int),
        decreases len - k,
    {
        if let Some(v) = array_get_present_index(i, o, k)? {
            if strict_equals(v, target) {
                return Ok(Value::Num(num::of_u64(k)));
            }
        }
        k += 1;
    }
    Ok(Value::Num(num::MINUS_ONE))
}

/// Whether an element from `k` on is the target; a hole reads as undefined.
pub open spec fn included_from(w: World, o: Value, target: Value, k: int, len: int) -> Outcome<Value>
    decreases len - k,
{
    if k >= len {
        (w, Ok(Value::Bool(false)))
    } else {
        let (w1, v) = w.get(o, Key::Index(k as u64));
        match v {
            Err(e) => (w1, Err(e)),
            Ok(v) => if same_zero(v, target) {
                (w1, Ok(Value::Bool(true)))
            } else {
                included_from(w1, o, target, k + 1, len)
            },
        }
    }
}

/// `Array.prototype.includes`.
pub open spec fn inclusion(w: World, this: Value, args: Seq<Value>) -> Outcome<Value> {
    let (w, o) = receiver(w, this);
    match o {
        Err(e) => (w, Err(e)),
        Ok(o) => {
            let (w, len) = length_of(w, o);
            match len {
                Err(e) => (w, Err(e)),
                Ok(len) => if len == 0 {
                    (w, Ok(Value::Bool(false)))
                } else {
                    let (w, k) = search_start(w, arg_at(args, 1), len);
                    match k {
                        Err(e) => (w, Err(e)),
                        Ok(k) => included_from(w, o, arg_at(args, 0), k as int, len as int),
                    }
                },
            }
        },
    }
}

pub fn array_includes(i: &mut Interp, this: Value, args: &[Value]) -> (r: Result<Value, Value>)
    ensures
        (final(i)@, r) == inclusion(old(i)@, this, args@),
{
    let o = arr_to_object(i, this)?;
    let len: u64 = to_length(i, o)?;
    if len == 0 {
        // The length check precedes the fromIndex coercion.
        return Ok(Value::Bool(false));
    }
    let target = arg(args, 0);
    let mut k: u64 = read_search_start(i, arg(args, 1), len)?;
    while k < len
        invariant
            inclusion(old(i)@, this, args@) == included_from(i@, o, target, k as int, len as int),
        decreases len - k,
    {
        let v = i.get_member(o, Key::Index(k))?;
        if same_value_zero(v, target) {
            return Ok(Value::Bool(true));
        }
        k += 1;
    }
    Ok(Value::Bool(false))
}

/// The last index below `k` whose element strictly equals the target.
pub open spec fn last_index_below(w: World, o: Value, target: Value, k: int) -> Outcome<Value>
    decreases k,
{
    if k <= 0 {
        (w, Ok(Value::Num(num::MINUS_ONE)))
    } else {
        let (w1, v) = present(w, o, (k - 1) as u64);
        match v {
            Err(e) => (w1, Err(e)),
            Ok(v) => if v is Some && strictly_same(v->0, target) {
                (w1, Ok(Value::Num(num::number(k - 1))))
            } else {
                last_index_below(w1, o, target, k - 1)
            },
        }
    }
}

/// How many elements a backward search goes through: all but those behind a given position.
pub open spec fn backward_span(n: u64, len: int) -> int {
    if num::nan(n) {
        1
    } else if num::infinite(n) {
        if num::negative(n) {
            0
        } else {
            len
        }
    } else if num::integer_part(n) >= 0 {
        if num::integer_part(n) < len {
            num::integer_part(n) + 1
        } else {
            len
        }
    } else if len + num::integer_part(n) >= 0 {
        len + num::integer_part(n) + 1
    } else {
        0
    }
}

/// `Array.prototype.lastIndexOf`.
pub open spec fn last_index_found(w: World, this: Value, args: Seq<Value>) -> Outcome<Value> {
    let (w, o) = receiver(w, this);
    match o {
        Err(e) => (w, Err(e)),
        Ok(o) => {
            let (w, len) = length_of(w, o);
            match len {
                Err(e) => (w, Err(e)),
                Ok(len) => if len == 0 {
                    (w, Ok(Value::Num(num::MINUS_ONE)))
                } else if args.len() > 1 {
                    let (w, n) = w.number(args[1]);
                    match n {
                        Err(e) => (w, Err(e)),
                        Ok(n) => last_index_below(
                            w,
                            o,
                            arg_at(args, 0),
                            backward_span(n, len as int),
                        ),
                    }
                } else {
                    last_index_below(w, o, arg_at(args, 0), len as int)
                },
            }
        },
    }
}

fn read_backward_span(n: u64, len: u64) -> (r: u64)
    requires
        0 < len <= num::MAX_SAFE,
    ensures
        r == backward_span(n, len as int),
        r <= len,
{
    if num::is_nan(n) {
        return 1;
    }
    if num::is_infinite(n) {
        return if num::is_negative(n) {
            0
        } else {
            len
        };
    }
    let k: i64 = num::as_i64(n);
    if k >= 0 {
        if (k as u64) < len {
            k as u64 + 1
        } else {
            len
        }
    } else if k >= -(len as i64) {
        (len as i64 + k + 1) as u64
    } else {
        0
    }
}

pub fn array_last_index_of(i: &mut Interp, this: Value, args: &[Value]) -> (r: Result<Value, Value>)
    ensures
        (final(i)@, r) == last_index_found(old(i)@, this, args@),
{
    let o = arr_to_object(i, this)?;
    let len: u64 = to_length(i, o)?;
    if len == 0 {
        return Ok(Value::Num(num::MINUS_ONE));
    }
    let target = arg(args, 0);
    // fromIndex (default len-1): the highest index to search from, going backward.
    let mut k: u64 = if args.len() > 1 {
        let n: u64 = i.to_number(args[1])?;
        read_backward_span(n, len)
    } else {
        len
    };
    while k > 0
        invariant
            k <= num::MAX_SAFE,
            last_index_found(old(i)@, this, args@) == last_index_below(i@, o, target, k as int),
        decreases k,
    {
        if let Some(v) = array_get_present_index(i, o, k - 1)? {
            if strict_equals(v, target) {
                return Ok(Value::Num(num::of_u64(k - 1)));
            }
        }
        k -= 1;
    }
    Ok(Value::Num(num::MINUS_ONE))
}

/// A position counted from the end where it is negative.
pub open spec fn counted_position(n: u64, len: int) -> int {
    if num::cast_i64(n) < 0 {
        num::cast_i64(n) + len
    } else {
        num::cast_i64(n)
    }
}

/// `Array.prototype.at`.
pub open spec fn element_at(w: World, this: Value, args: Seq<Value>, limit: u64) -> Outcome<Value> {
    let (w, o) = receiver(w, this);
    match o {
        Err(e) => (w, Err(e)),
        Ok(o) => {
            let (w, len) = checked_length(w, o, limit);
            match len {
                Err(e) => (w, Err(e)),
                Ok(len) => {
                    let (w, n) = w.number(arg_at(args, 0));
                    match n {
                        Err(e) => (w, Err(e)),
                        Ok(n) => {
                            let k = counted_position(n, len as int);
                            if k < 0 || k >= len {
                                (w, Ok(Value::Undefined))
                            } else {
                                w.get(o, Key::Index(k as u64))
                            }
                        },
                    }
                },
            }
        },
    }
}

pub fn array_at(i: &mut Interp, this: Value, args: &[Value], limit: u64) -> (r: Result<Value, Value>)
    ensures
        (final(i)@, r) == element_at(old(i)@, this, args@, limit),
{
    let o = arr_to_object(i, this)?;
    let len: u64 = checked_array_len(i, o, limit)?;
    let n: u64 = i.to_number(arg(args, 0))?;
    let mut k: i64 = num::as_i64(n);
    if k < 0 {
        k = k + len as i64;
    }
    if k < 0 || k >= len as i64 {
        return Ok(Value::Undefined);
    }
    i.get_member(o, Key::Index(k as u64))
}

} // verus!
