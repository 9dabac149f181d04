//! The accessors of `%TypedArray%.prototype`.
use vstd::prelude::*;
use crate::interp::{Brand, ErrorKind, Interp, Op, Outcome, Value, World};
use crate::num;
use crate::promise::{count_in, count_number};

verus! {

/// The shape of a typed array.
#[derive(Clone, Copy, PartialEq, Eq, Structural, Debug)]
pub struct TypedShape {
    /// The length in elements; none where the array is out of bounds.
    pub length: Option<u64>,
    pub element_size: u64,
    pub offset: u64,
}

/// The receiver's shape.
pub open spec fn receiver_shape(w: World, this: Value) -> Outcome<TypedShape> {
    let (w, ok) = if this.object() {
        w.yes(Op::HasBrand(this, Brand::TypedArrayData))
    } else {
        (w, false)
    };
    if !ok {
        w.throw(
            ErrorKind::Type,
            "TypedArray.prototype accessor called on a non-TypedArray",
        )
    } else {
        let (w, l) = w.list(Op::TypedShape(this));
        match l {
            Err(e) => (w, Err(e)),
            Ok(l) => if l.len() < 3 {
                (w, Ok(TypedShape { length: None, element_size: 0, offset: 0 }))
            } else {
                (
                    w,
                    Ok(
                        TypedShape {
                            length: if l[0] == Value::Undefined {
                                None
                            } else {
                                Some(count_in(l[0]) as u64)
                            },
                            element_size: count_in(l[1]) as u64,
                            offset: count_in(l[2]) as u64,
                        },
                    ),
                )
            },
        }
    }
}

fn read_count(v: Value) -> (r: u64)
    ensures
        r == count_in(v),
{
    match v {
        Value::Num(n) => num::as_u64(n),
        _ => 0,
    }
}

/// The shape of a TypedArray receiver, or a TypeError (brand check for the meta getters).
pub fn ta_receiver(i: &mut Interp, this: Value) -> (r: Result<TypedShape, Value>)
    ensures
        (final(i)@, r) == receiver_shape(old(i)@, this),
{
    let ok = this.is_object() && i.ask_yes(Op::HasBrand(this, Brand::TypedArrayData));
    if !ok {
        return i.type_error("TypedArray.prototype accessor called on a non-TypedArray");
    }
    let l: Vec<Value> = i.ask_list(Op::TypedShape(this))?;
    if l.len() < 3 {
        return Ok(TypedShape { length: None, element_size: 0, offset: 0 });
    }
    let length: Option<u64> = if l[0].is_undefined() {
        None
    } else {
        Some(read_count(l[0]))
    };
    Ok(TypedShape { length, element_size: read_count(l[1]), offset: read_count(l[2]) })
}

/// The length in elements, 0 where the array is out of bounds.
pub open spec fn live_length(s: TypedShape) -> int {
    match s.length {
        Some(n) => n as int,
        None => 0,
    }
}

/// A fact about the receiver as a Number.
pub open spec fn measured(w: World, this: Value, f: spec_fn(TypedShape) -> int) -> Outcome<Value> {
    let (w, s) = receiver_shape(w, this);
    match s {
        Err(e) => (w, Err(e)),
        Ok(s) => (w, Ok(count_number(f(s)))),
    }
}

fn make_number(n: u64) -> (r: Value)
    ensures
        r == count_number(n as int),
{
    if n > num::COUNT_LIMIT {
        Value::Num(num::of_u64(num::COUNT_LIMIT))
    } else {
        Value::Num(num::of_u64(n))
    }
}

/// `length`.
pub fn ta_length_get(i: &mut Interp, this: Value) -> (r: Result<Value, Value>)
    ensures
        (final(i)@, r) == measured(old(i)@, this, |s: TypedShape| live_length(s)),
{
    let s = ta_receiver(i, this)?;
    match s.length {
        Some(n) => Ok(make_number(n)),
        None => Ok(make_number(0)),
    }
}

/// `byteLength`.
pub fn ta_bytelength_get(i: &mut Interp, this: Value) -> (r: Result<Value, Value>)
    ensures
        (final(i)@, r) == measured(
            old(i)@,
            this,
            |s: TypedShape| live_length(s) * s.element_size,
        ),
{
    let s = ta_receiver(i, this)?;
    let n: u64 = match s.length {
        Some(n) => n,
        None => 0,
    };
    match n.checked_mul(s.element_size) {
        Some(b) => Ok(make_number(b)),
        None => Ok(make_number(num::COUNT_LIMIT)),
    }
}

/// `byteOffset`: 0 where the array is out of bounds.
pub fn ta_byteoffset_get(i: &mut Interp, this: Value) -> (r: Result<Value, Value>)
    ensures
        (final(i)@, r) == measured(
            old(i)@,
            this,
            |s: TypedShape|
                if s.length is None {
                    0
                } else {
                    s.offset as int
                },
        ),
{
    let s = ta_receiver(i, this)?;
    match s.length {
        Some(_) => Ok(make_number(s.offset)),
        None => Ok(make_number(0)),
    }
}

/// `buffer`.
pub open spec fn buffer_of(w: World, this: Value) -> Outcome<Value> {
    let (w, s) = receiver_shape(w, this);
    match s {
        Err(e) => (w, Err(e)),
        Ok(_) => {
            let (w, b) = w.plain(Op::TypedBuffer(this), Seq::empty());
            (w, Ok(b))
        },
    }
}

pub fn ta_buffer_get(i: &mut Interp, this: Value) -> (r: Result<Value, Value>)
    ensures
        (final(i)@, r) == buffer_of(old(i)@, this),
{
    let _ = ta_receiver(i, this)?;
    Ok(i.perform(Op::TypedBuffer(this)))
}

} // verus!
