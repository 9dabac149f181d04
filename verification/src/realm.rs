//! Objects that constructors and coercions make: prototypes by realm, wrappers, descriptor objects.
use vstd::prelude::*;
use crate::interp::{ErrorKind, Interp, Key, Op, Outcome, PartialDesc, Property, Value, World};
use crate::num;
use crate::string::Units;

verus! {

/// A plain property: writable, enumerable and configurable.
pub open spec fn plain_property(v: Value) -> Property {
    Property::data(v, true, true, true)
}

/// Stores a plain property.
pub open spec fn stored(w: World, o: Value, k: Key, v: Value) -> World {
    w.plain(Op::StoreProperty(o, k, plain_property(v)), Seq::empty()).0
}

/// A plain own property, as literals have it.
pub fn set_data(i: &mut Interp, o: Value, k: Key, v: Value)
    ensures
        final(i)@ == stored(old(i)@, o, k, v),
{
    let _ = i.perform(Op::StoreProperty(o, k, Property::new_data(v, true, true, true)));
}

// Prototypes

/// GetFunctionRealm: unwraps bound functions and (unrevoked) proxies to their targets, and gives
/// the named intrinsic prototype of the realm found there.
pub open spec fn realm_prototype(w: World, f: Value, name: &'static str, tries: int) -> Outcome<
    Value,
>
    decreases tries,
{
    if !f.object() {
        (w, Ok(Value::Undefined))
    } else if tries <= 0 {
        let (w, p) = w.plain(Op::RealmPrototype(f, name), Seq::empty());
        (w, Ok(p))
    } else {
        let (w, pair) = w.proxy(f);
        match pair {
            Some(pair) => if pair.1 == Value::Null {
                w.throw(ErrorKind::Type, "cannot get the realm of a revoked proxy")
            } else {
                realm_prototype(w, pair.0, name, tries - 1)
            },
            None => {
                let (w, t) = w.plain(Op::BoundTarget(f), Seq::empty());
                if t.object() {
                    realm_prototype(w, t, name, tries - 1)
                } else {
                    let (w, p) = w.plain(Op::RealmPrototype(f, name), Seq::empty());
                    (w, Ok(p))
                }
            },
        }
    }
}

/// GetFunctionRealm-backed intrinsic lookup for OrdinaryCreateFromConstructor's fallback: a
/// revoked proxy on the newTarget chain is a TypeError.
pub fn ctor_realm_proto(i: &mut Interp, nt: Value, name: &'static str) -> (r: Result<Value, Value>)
    ensures
        (final(i)@, r) == realm_prototype(old(i)@, nt, name, 64),
{
    let mut f = nt;
    let mut tries: u64 = 64;
    loop
        invariant
            realm_prototype(old(i)@, nt, name, 64) == realm_prototype(i@, f, name, tries as int),
        decreases tries,
    {
        if !f.is_object() {
            return Ok(Value::Undefined);
        }
        if tries == 0 {
            return Ok(i.perform(Op::RealmPrototype(f, name)));
        }
        match i.proxy_pair(f) {
            Some(pair) => {
                match pair.1 {
                    Value::Null => {
                        return i.type_error("cannot get the realm of a revoked proxy");
                    },
                    _ => {},
                }
                f = pair.0;
            },
            None => {
                let t = i.perform(Op::BoundTarget(f));
                if !t.is_object() {
                    return Ok(i.perform(Op::RealmPrototype(f, name)));
                }
                f = t;
            },
        }
        tries -= 1;
    }
}

/// The prototype for an object that a constructor makes: the new target's `prototype`, or the
/// intrinsic of its realm, or that of the running realm.
pub open spec fn instance_prototype(w: World, nt: Value, name: &'static str) -> Outcome<Value> {
    if !nt.object() {
        let (w, p) = w.plain(Op::Intrinsic(name), Seq::empty());
        (w, Ok(p))
    } else {
        let (w, p) = w.get(nt, Key::Name("prototype"));
        match p {
            Err(e) => (w, Err(e)),
            Ok(p) => if p.object() {
                (w, Ok(p))
            } else {
                let (w, p) = realm_prototype(w, nt, name, 64);
                match p {
                    Err(e) => (w, Err(e)),
                    Ok(p) => if p.object() {
                        (w, Ok(p))
                    } else {
                        let (w, p) = w.plain(Op::Intrinsic(name), Seq::empty());
                        (w, Ok(p))
                    },
                }
            },
        }
    }
}

fn find_instance_prototype(i: &mut Interp, nt: Value, name: &'static str) -> (r: Result<
    Value,
    Value,
>)
    ensures
        (final(i)@, r) == instance_prototype(old(i)@, nt, name),
{
    if !nt.is_object() {
        return Ok(i.perform(Op::Intrinsic(name)));
    }
    let p = i.get_member(nt, Key::Name("prototype"))?;
    if p.is_object() {
        return Ok(p);
    }
    let p = ctor_realm_proto(i, nt, name)?;
    if p.is_object() {
        return Ok(p);
    }
    Ok(i.perform(Op::Intrinsic(name)))
}

/// OrdinaryCreateFromConstructor.
pub open spec fn created_from(w: World, nt: Value, name: &'static str) -> Outcome<Value> {
    let (w, p) = instance_prototype(w, nt, name);
    match p {
        Err(e) => (w, Err(e)),
        Ok(p) => {
            let (w, o) = w.plain(Op::NewWithPrototype(p), Seq::empty());
            (w, Ok(o))
        },
    }
}

/// OrdinaryCreateFromConstructor: a new object whose [[Prototype]] is `new.target.prototype` when
/// that's an object (subclassing / Reflect.construct), else the named intrinsic prototype.
pub fn new_from_ctor(i: &mut Interp, nt: Value, name: &'static str) -> (r: Result<Value, Value>)
    ensures
        (final(i)@, r) == created_from(old(i)@, nt, name),
{
    let p = find_instance_prototype(i, nt, name)?;
    Ok(i.perform(Op::NewWithPrototype(p)))
}

// Wrappers

/// Stores the units of a string from `k` on as own properties: enumerable, not writable, not
/// configurable.
pub open spec fn units_stored(w: World, o: Value, u: Units, k: int) -> World
    decreases u.len() - k,
{
    if k < 0 || k >= u.len() {
        w
    } else {
        let (w, s) = w.intern(seq![u[k]]);
        let p = Property::data(Value::Str(s), false, true, false);
        let (w, _) = w.plain(Op::StoreProperty(o, Key::Index(k as u64), p), Seq::empty());
        units_stored(w, o, u, k + 1)
    }
}

/// A wrapper object for a primitive; objects, undefined and null pass through. That of a string
/// exposes each unit, and a non-enumerable `length`.
pub open spec fn wrapped(w: World, v: Value) -> (World, Value) {
    match v {
        Value::Undefined => (w, v),
        Value::Null => (w, v),
        Value::Obj(_) => (w, v),
        Value::Str(h) => {
            let (w, o) = w.plain(Op::Wrap(v), Seq::empty());
            let u = w.units(h);
            let w = units_stored(w, o, u, 0);
            let p = Property::data(
                Value::Num(num::position(u.len() as int)),
                false,
                false,
                false,
            );
            (w.plain(Op::StoreProperty(o, Key::Name("length"), p), Seq::empty()).0, o)
        },
        _ => w.plain(Op::Wrap(v), Seq::empty()),
    }
}

/// Box a primitive into a wrapper object. Other values pass through unchanged.
pub fn box_primitive(i: &mut Interp, v: Value) -> (r: Value)
    ensures
        (final(i)@, r) == wrapped(old(i)@, v),
{
    match v {
        Value::Undefined => v,
        Value::Null => v,
        Value::Obj(_) => v,
        Value::Str(h) => {
            let o = i.perform(Op::Wrap(v));
            let u = i.units(h);
            let ghost w0 = i@;
            let mut k: usize = 0;
            while k < u.len()
                invariant
                    k <= u@.len(),
                    units_stored(w0, o, u@, 0) == units_stored(i@, o, u@, k as int),
                decreases u@.len() - k,
            {
                let piece: Vec<u16> = vec![u[k]];
                assert(piece@ =~= seq![u@[k as int]]);
                let s: u64 = i.intern(piece);
                let p = Property::new_data(Value::Str(s), false, true, false);
                let _ = i.perform(Op::StoreProperty(o, Key::Index(k as u64), p));
                k += 1;
            }
            let p = Property::new_data(
                Value::Num(num::of_position(u.len())),
                false,
                false,
                false,
            );
            let _ = i.perform(Op::StoreProperty(o, Key::Name("length"), p));
            o
        },
        _ => i.perform(Op::Wrap(v)),
    }
}

// Descriptor objects

/// A descriptor object for a property: `{value, writable, enumerable, configurable}` or
/// `{get, set, enumerable, configurable}`.
pub open spec fn descriptor_object(w: World, p: Property) -> (World, Value) {
    let (w, d) = w.plain(Op::NewObject, Seq::empty());
    let w = if p.accessor {
        stored(stored(w, d, Key::Name("get"), p.get), d, Key::Name("set"), p.set)
    } else {
        stored(
            stored(w, d, Key::Name("value"), p.value),
            d,
            Key::Name("writable"),
            Value::Bool(p.writable),
        )
    };
    let w = stored(w, d, Key::Name("enumerable"), Value::Bool(p.enumerable));
    (stored(w, d, Key::Name("configurable"), Value::Bool(p.configurable)), d)
}

/// Build a descriptor object from a property.
pub fn descriptor_from_prop(i: &mut Interp, p: Property) -> (r: Value)
    ensures
        (final(i)@, r) == descriptor_object(old(i)@, p),
{
    let d = i.perform(Op::NewObject);
    if p.accessor {
        set_data(i, d, Key::Name("get"), p.get);
        set_data(i, d, Key::Name("set"), p.set);
    } else {
        set_data(i, d, Key::Name("value"), p.value);
        set_data(i, d, Key::Name("writable"), Value::Bool(p.writable));
    }
    set_data(i, d, Key::Name("enumerable"), Value::Bool(p.enumerable));
    set_data(i, d, Key::Name("configurable"), Value::Bool(p.configurable));
    d
}

/// Stores a field that is present.
pub open spec fn field_stored(w: World, d: Value, name: &'static str, v: Option<Value>) -> World {
    match v {
        Some(v) => stored(w, d, Key::Name(name), v),
        None => w,
    }
}

fn store_field(i: &mut Interp, d: Value, name: &'static str, v: Option<Value>)
    ensures
        final(i)@ == field_stored(old(i)@, d, name, v),
{
    match v {
        Some(v) => {
            set_data(i, d, Key::Name(name), v);
        },
        None => {},
    }
}

pub open spec fn flag(b: Option<bool>) -> Option<Value> {
    match b {
        Some(b) => Some(Value::Bool(b)),
        None => None,
    }
}

fn flag_of(b: Option<bool>) -> (r: Option<Value>)
    ensures
        r == flag(b),
{
    match b {
        Some(b) => Some(Value::Bool(b)),
        None => None,
    }
}

/// A descriptor object with only the present fields, in the order value, writable, get, set,
/// enumerable, configurable.
pub open spec fn partial_object(w: World, d: PartialDesc) -> (World, Value) {
    let (w, o) = w.plain(Op::NewObject, Seq::empty());
    let w = field_stored(w, o, "value", d.value);
    let w = field_stored(w, o, "writable", flag(d.writable));
    let w = field_stored(w, o, "get", d.get);
    let w = field_stored(w, o, "set", d.set);
    let w = field_stored(w, o, "enumerable", flag(d.enumerable));
    (field_stored(w, o, "configurable", flag(d.configurable)), o)
}

pub fn make_partial_object(i: &mut Interp, d: PartialDesc) -> (r: Value)
    ensures
        (final(i)@, r) == partial_object(old(i)@, d),
{
    let o = i.perform(Op::NewObject);
    store_field(i, o, "value", d.value);
    store_field(i, o, "writable", flag_of(d.writable));
    store_field(i, o, "get", d.get);
    store_field(i, o, "set", d.set);
    store_field(i, o, "enumerable", flag_of(d.enumerable));
    store_field(i, o, "configurable", flag_of(d.configurable));
    o
}

} // verus!
