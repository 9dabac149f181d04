//! `Object`, `Object.prototype` and the reflective property operations.
use vstd::prelude::*;
use crate::array::{checked_array_len, checked_length};
use crate::equality::{
    law_same_value_zero_is_equivalence, same, same_value, same_value_zero, same_zero,
};
use crate::interp::{
    arg, arg_at, Brand, ErrorKind, Interp, Key, KeyClass, Op, Outcome, PartialDesc, Property, Value,
    WellKnown, World,
};
use crate::iterator::{step_iter_with, stepped};
use crate::num;
use crate::proxy::{
    define_own_property, defined_from, extensible_of, extensions_prevented, js_define_property,
    js_get_prototype_of, js_is_extensible, js_own_keys, js_own_property, js_prevent_extensions,
    js_set_prototype_of, lemma_own_property_left, lemma_prototype_left, list_from, own_keys_of,
    own_property_of, property_defined, prototype_of, prototype_set, read_elements_of,
};
use crate::realm::{
    box_primitive, created_from, descriptor_from_prop, descriptor_object, new_from_ctor,
    plain_property, wrapped,
};

verus! {

// Coercions

/// ToObject: an object as it is, a wrapper for a primitive, and a TypeError for null and
/// undefined.
pub open spec fn object_for(w: World, v: Value, complaint: &'static str) -> Outcome<Value> {
    if v.object() {
        (w, Ok(v))
    } else if v.nullish() {
        w.throw(ErrorKind::Type, complaint)
    } else {
        let (w, o) = wrapped(w, v);
        if o.object() {
            (w, Ok(o))
        } else {
            w.throw(ErrorKind::Type, "ToObject failed")
        }
    }
}

/// ToObject for an `Object.*` argument: an object is returned as-is, a primitive is boxed to its
/// wrapper object, and null/undefined throw a TypeError with the given message.
pub fn to_object_arg(i: &mut Interp, v: Value, complaint: &'static str) -> (r: Result<Value, Value>)
    ensures
        (final(i)@, r) == object_for(old(i)@, v, complaint),
        r matches Ok(o) ==> o.object(),
{
    if v.is_object() {
        return Ok(v);
    }
    if v.is_nullish() {
        return i.type_error(complaint);
    }
    let o = box_primitive(i, v);
    if o.is_object() {
        Ok(o)
    } else {
        i.type_error("ToObject failed")
    }
}

// hasOwn

/// Whether an object has an own property, as a boolean value.
pub open spec fn presence(w: World, o: Value, key: Value) -> Outcome<Value> {
    let (w, p) = own_property_of(w, o, key);
    match p {
        Err(e) => (w, Err(e)),
        Ok(p) => (w, Ok(Value::Bool(p is Some))),
    }
}

/// `Object.hasOwn`: the object is coerced before the key.
pub open spec fn static_has_own(w: World, args: Seq<Value>) -> Outcome<Value> {
    let (w, o) = object_for(w, arg_at(args, 0), "Object.hasOwn called on null or undefined");
    match o {
        Err(e) => (w, Err(e)),
        Ok(o) => {
            let (w, key) = w.key(arg_at(args, 1));
            match key {
                Err(e) => (w, Err(e)),
                Ok(key) => presence(w, o, key),
            }
        },
    }
}

/// `Object.hasOwn`.
pub fn nf_object_has_own(i: &mut Interp, args: &[Value]) -> (r: Result<Value, Value>)
    ensures
        (final(i)@, r) == static_has_own(old(i)@, args@),
{
    let o = to_object_arg(i, arg(args, 0), "Object.hasOwn called on null or undefined")?;
    let key = i.to_key(arg(args, 1))?;
    let p = js_own_property(i, o, key)?;
    Ok(Value::Bool(p.is_some()))
}

/// `Object.prototype.hasOwnProperty`: the key is coerced before the receiver.
pub open spec fn proto_has_own(w: World, this: Value, args: Seq<Value>) -> Outcome<Value> {
    let (w, key) = w.key(arg_at(args, 0));
    match key {
        Err(e) => (w, Err(e)),
        Ok(key) => {
            let (w, o) = object_for(
                w,
                this,
                "Object.prototype.hasOwnProperty called on null or undefined",
            );
            match o {
                Err(e) => (w, Err(e)),
                Ok(o) => presence(w, o, key),
            }
        },
    }
}

/// `Object.prototype.hasOwnProperty`.
pub fn object_has_own_property(i: &mut Interp, this: Value, args: &[Value]) -> (r: Result<
    Value,
    Value,
>)
    ensures
        (final(i)@, r) == proto_has_own(old(i)@, this, args@),
{
    let key = i.to_key(arg(args, 0))?;
    let o = to_object_arg(
        i,
        this,
        "Object.prototype.hasOwnProperty called on null or undefined",
    )?;
    let p = js_own_property(i, o, key)?;
    Ok(Value::Bool(p.is_some()))
}

/// `Object.prototype.propertyIsEnumerable`.
pub open spec fn enumerability(w: World, this: Value, args: Seq<Value>) -> Outcome<Value> {
    let (w, key) = w.key(arg_at(args, 0));
    match key {
        Err(e) => (w, Err(e)),
        Ok(key) => {
            let (w, o) = object_for(
                w,
                this,
                "Object.prototype.propertyIsEnumerable called on null or undefined",
            );
            match o {
                Err(e) => (w, Err(e)),
                Ok(o) => {
                    let (w, p) = own_property_of(w, o, key);
                    match p {
                        Err(e) => (w, Err(e)),
                        Ok(None) => (w, Ok(Value::Bool(false))),
                        Ok(Some(p)) => (w, Ok(Value::Bool(p.enumerable))),
                    }
                },
            }
        },
    }
}

pub fn object_property_is_enumerable(i: &mut Interp, this: Value, args: &[Value]) -> (r: Result<
    Value,
    Value,
>)
    ensures
        (final(i)@, r) == enumerability(old(i)@, this, args@),
{
    let key = i.to_key(arg(args, 0))?;
    let o = to_object_arg(
        i,
        this,
        "Object.prototype.propertyIsEnumerable called on null or undefined",
    )?;
    match js_own_property(i, o, key)? {
        None => Ok(Value::Bool(false)),
        Some(p) => Ok(Value::Bool(p.enumerable)),
    }
}

// Accessors by name (Annex B)

/// The descriptor of an enumerable, configurable accessor.
pub open spec fn accessor_desc(f: Value, is_get: bool) -> PartialDesc {
    PartialDesc {
        value: None,
        get: if is_get {
            Some(f)
        } else {
            None
        },
        set: if is_get {
            None
        } else {
            Some(f)
        },
        writable: None,
        enumerable: Some(true),
        configurable: Some(true),
    }
}

/// `__defineGetter__` and `__defineSetter__`.
pub open spec fn accessor_defined(w: World, this: Value, args: Seq<Value>, is_get: bool) -> Outcome<
    Value,
> {
    let (w, o) = object_for(w, this, "accessor definition called on null or undefined");
    match o {
        Err(e) => (w, Err(e)),
        Ok(o) => {
            let f = arg_at(args, 1);
            if !f.callable() {
                w.throw(ErrorKind::Type, "accessor must be a function")
            } else {
                let (w, key) = w.key(arg_at(args, 0));
                match key {
                    Err(e) => (w, Err(e)),
                    Ok(key) => {
                        let (w, ok) = property_defined(w, o, key, accessor_desc(f, is_get));
                        match ok {
                            Err(e) => (w, Err(e)),
                            Ok(true) => (w, Ok(Value::Undefined)),
                            Ok(false) => w.throw_about(
                                ErrorKind::Type,
                                "cannot define accessor '{}'",
                                key,
                            ),
                        }
                    },
                }
            }
        },
    }
}

pub fn define_accessor(i: &mut Interp, this: Value, args: &[Value], is_get: bool) -> (r: Result<
    Value,
    Value,
>)
    ensures
        (final(i)@, r) == accessor_defined(old(i)@, this, args@, is_get),
{
    let o = to_object_arg(i, this, "accessor definition called on null or undefined")?;
    let f = arg(args, 1);
    if !f.is_callable() {
        return i.type_error("accessor must be a function");
    }
    let key = i.to_key(arg(args, 0))?;
    let d = PartialDesc {
        value: None,
        get: if is_get {
            Some(f)
        } else {
            None
        },
        set: if is_get {
            None
        } else {
            Some(f)
        },
        writable: None,
        enumerable: Some(true),
        configurable: Some(true),
    };
    if js_define_property(i, o, key, d)? {
        Ok(Value::Undefined)
    } else {
        i.type_error_about("cannot define accessor '{}'", key)
    }
}

/// The function of an accessor, found along the prototype chain from `cur`.
pub open spec fn accessor_found(w: World, cur: Value, key: Value, is_get: bool) -> Outcome<Value>
    decreases w.left(),
    via accessor_found_decreases
{
    let (w1, p) = own_property_of(w, cur, key);
    match p {
        Err(e) => (w1, Err(e)),
        Ok(Some(p)) => (
            w1,
            Ok(
                if !p.accessor {
                    Value::Undefined
                } else if is_get {
                    p.get
                } else {
                    p.set
                },
            ),
        ),
        Ok(None) => {
            let (w2, proto) = prototype_of(w1, cur);
            match proto {
                Err(e) => (w2, Err(e)),
                Ok(proto) => if !proto.object() {
                    (w2, Ok(Value::Undefined))
                } else {
                    accessor_found(w2, proto, key, is_get)
                },
            }
        },
    }
}

#[via_fn]
proof fn accessor_found_decreases(w: World, cur: Value, key: Value, is_get: bool) {
    lemma_own_property_left(w, cur, key);
    lemma_prototype_left(own_property_of(w, cur, key).0, cur);
}

/// `__lookupGetter__` and `__lookupSetter__`.
pub open spec fn accessor_looked_up(
    w: World,
    this: Value,
    args: Seq<Value>,
    is_get: bool,
) -> Outcome<Value> {
    let (w, o) = object_for(w, this, "accessor lookup called on null or undefined");
    match o {
        Err(e) => (w, Err(e)),
        Ok(o) => {
            let (w, key) = w.key(arg_at(args, 0));
            match key {
                Err(e) => (w, Err(e)),
                Ok(key) => accessor_found(w, o, key, is_get),
            }
        },
    }
}

pub fn lookup_accessor(i: &mut Interp, this: Value, args: &[Value], is_get: bool) -> (r: Result<
    Value,
    Value,
>)
    ensures
        (final(i)@, r) == accessor_looked_up(old(i)@, this, args@, is_get),
{
    let o = to_object_arg(i, this, "accessor lookup called on null or undefined")?;
    let key = i.to_key(arg(args, 0))?;
    let mut cur = o;
    loop
        invariant
            accessor_looked_up(old(i)@, this, args@, is_get) == accessor_found(
                i@,
                cur,
                key,
                is_get,
            ),
        decreases i@.left(),
    {
        proof {
            lemma_own_property_left(i@, cur, key);
        }
        match js_own_property(i, cur, key)? {
            Some(p) => {
                return Ok(
                    if !p.accessor {
                        Value::Undefined
                    } else if is_get {
                        p.get
                    } else {
                        p.set
                    },
                );
            },
            None => {},
        }
        proof {
            lemma_prototype_left(i@, cur);
        }
        cur = js_get_prototype_of(i, cur)?;
        if !cur.is_object() {
            return Ok(Value::Undefined);
        }
    }
}

// Prototypes

/// Whether `me` is reached by following prototypes from `cur` on, `cur` counted.
pub open spec fn reached_from(w: World, cur: Value, me: Value) -> Outcome<Value>
    decreases w.left(),
    via reached_from_decreases
{
    if !cur.object() {
        (w, Ok(Value::Bool(false)))
    } else if cur == me {
        (w, Ok(Value::Bool(true)))
    } else {
        let (w1, next) = prototype_of(w, cur);
        match next {
            Err(e) => (w1, Err(e)),
            Ok(next) => if next.object() {
                reached_from(w1, next, me)
            } else {
                (w1, Ok(Value::Bool(false)))
            },
        }
    }
}

#[via_fn]
proof fn reached_from_decreases(w: World, cur: Value, me: Value) {
    lemma_prototype_left(w, cur);
}

/// `Object.prototype.isPrototypeOf`.
pub open spec fn prototype_tested(w: World, this: Value, args: Seq<Value>) -> Outcome<Value> {
    let v = arg_at(args, 0);
    if !v.object() {
        (w, Ok(Value::Bool(false)))
    } else {
        let (w, me) = object_for(
            w,
            this,
            "Object.prototype.isPrototypeOf called on null or undefined",
        );
        match me {
            Err(e) => (w, Err(e)),
            Ok(me) => {
                let (w, first) = prototype_of(w, v);
                match first {
                    Err(e) => (w, Err(e)),
                    Ok(first) => reached_from(w, first, me),
                }
            },
        }
    }
}

pub fn object_is_prototype_of(i: &mut Interp, this: Value, args: &[Value]) -> (r: Result<
    Value,
    Value,
>)
    ensures
        (final(i)@, r) == prototype_tested(old(i)@, this, args@),
{
    let v = arg(args, 0);
    if !v.is_object() {
        return Ok(Value::Bool(false));
    }
    let me = to_object_arg(i, this, "Object.prototype.isPrototypeOf called on null or undefined")?;
    let mut cur = js_get_prototype_of(i, v)?;
    loop
        invariant
            prototype_tested(old(i)@, this, args@) == reached_from(i@, cur, me),
        decreases i@.left(),
    {
        if !cur.is_object() {
            return Ok(Value::Bool(false));
        }
        if cur == me {
            return Ok(Value::Bool(true));
        }
        proof {
            lemma_prototype_left(i@, cur);
        }
        cur = js_get_prototype_of(i, cur)?;
        if !cur.is_object() {
            return Ok(Value::Bool(false));
        }
    }
}

/// The `__proto__` getter.
pub open spec fn proto_read(w: World, this: Value) -> Outcome<Value> {
    let (w, o) = object_for(w, this, "get __proto__ called on null or undefined");
    match o {
        Err(e) => (w, Err(e)),
        Ok(o) => prototype_of(w, o),
    }
}

pub fn get_proto(i: &mut Interp, this: Value) -> (r: Result<Value, Value>)
    ensures
        (final(i)@, r) == proto_read(old(i)@, this),
{
    let o = to_object_arg(i, this, "get __proto__ called on null or undefined")?;
    js_get_prototype_of(i, o)
}

/// The `__proto__` setter: only an object receiver with an object or null changes anything.
pub open spec fn proto_written(w: World, this: Value, args: Seq<Value>) -> Outcome<Value> {
    let v = arg_at(args, 0);
    if this.nullish() {
        w.throw(ErrorKind::Type, "__proto__ set on null or undefined")
    } else if this.object() && (v.object() || v == Value::Null) {
        let (w, ok) = prototype_set(w, this, v);
        match ok {
            Err(e) => (w, Err(e)),
            Ok(false) => w.throw(ErrorKind::Type, "cyclic __proto__ value"),
            Ok(true) => (w, Ok(Value::Undefined)),
        }
    } else {
        (w, Ok(Value::Undefined))
    }
}

pub fn set_proto(i: &mut Interp, this: Value, args: &[Value]) -> (r: Result<Value, Value>)
    ensures
        (final(i)@, r) == proto_written(old(i)@, this, args@),
{
    if this.is_nullish() {
        return i.type_error("__proto__ set on null or undefined");
    }
    let v = arg(args, 0);
    if this.is_object() && (v.is_object() || v == Value::Null) {
        if !js_set_prototype_of(i, this, v)? {
            return i.type_error("cyclic __proto__ value");
        }
    }
    Ok(Value::Undefined)
}

/// `Object.getPrototypeOf`: a primitive answers with its wrapper's prototype.
pub open spec fn prototype_got(w: World, args: Seq<Value>) -> Outcome<Value> {
    let v = arg_at(args, 0);
    if v.object() {
        prototype_of(w, v)
    } else if v.nullish() {
        w.throw(ErrorKind::Type, "called on null or undefined")
    } else {
        let (w, p) = w.plain(Op::WrapperPrototype(v), Seq::empty());
        (w, Ok(p))
    }
}

pub fn object_get_prototype_of(i: &mut Interp, args: &[Value]) -> (r: Result<Value, Value>)
    ensures
        (final(i)@, r) == prototype_got(old(i)@, args@),
{
    let v = arg(args, 0);
    if v.is_object() {
        js_get_prototype_of(i, v)
    } else if v.is_nullish() {
        i.type_error("called on null or undefined")
    } else {
        Ok(i.perform(Op::WrapperPrototype(v)))
    }
}

/// `Object.setPrototypeOf`: a refused change throws.
pub open spec fn prototype_put(w: World, args: Seq<Value>) -> Outcome<Value> {
    let obj = arg_at(args, 0);
    let proto = arg_at(args, 1);
    if !proto.object() && proto != Value::Null {
        w.throw(ErrorKind::Type, "Object prototype may only be an Object or null")
    } else if obj.nullish() {
        w.throw(ErrorKind::Type, "Object.setPrototypeOf called on null or undefined")
    } else {
        let (w, ok) = prototype_set(w, obj, proto);
        match ok {
            Err(e) => (w, Err(e)),
            Ok(false) => w.throw(ErrorKind::Type, "could not set prototype"),
            Ok(true) => (w, Ok(obj)),
        }
    }
}

pub fn object_set_prototype_of(i: &mut Interp, args: &[Value]) -> (r: Result<Value, Value>)
    ensures
        (final(i)@, r) == prototype_put(old(i)@, args@),
{
    let proto = arg(args, 1);
    if !proto.is_object() && proto != Value::Null {
        return i.type_error("Object prototype may only be an Object or null");
    }
    let obj = arg(args, 0);
    if obj.is_nullish() {
        return i.type_error("Object.setPrototypeOf called on null or undefined");
    }
    if !js_set_prototype_of(i, obj, proto)? {
        return i.type_error("could not set prototype");
    }
    Ok(obj)
}

// Integrity levels

/// What sealing or freezing asks of one property.
pub open spec fn integrity_desc(freeze: bool, is_accessor: bool) -> PartialDesc {
    PartialDesc {
        value: None,
        get: None,
        set: None,
        writable: if freeze && !is_accessor {
            Some(false)
        } else {
            None
        },
        enumerable: None,
        configurable: Some(false),
    }
}

/// Seals or freezes the properties under `keys` from `j` on.
pub open spec fn sealed_from(w: World, obj: Value, keys: Seq<Value>, j: int, freeze: bool) -> Outcome<
    bool,
>
    decreases keys.len() - j,
{
    if j < 0 || j >= keys.len() {
        (w, Ok(true))
    } else {
        let (w1, p) = own_property_of(w, obj, keys[j]);
        match p {
            Err(e) => (w1, Err(e)),
            Ok(p) => {
                let is_accessor = p is Some && p->0.accessor;
                let (w2, ok) = property_defined(
                    w1,
                    obj,
                    keys[j],
                    integrity_desc(freeze, is_accessor),
                );
                match ok {
                    Err(e) => (w2, Err(e)),
                    Ok(false) => w2.throw(
                        ErrorKind::Type,
                        "could not set the object's integrity level",
                    ),
                    Ok(true) => sealed_from(w2, obj, keys, j + 1, freeze),
                }
            },
        }
    }
}

/// SetIntegrityLevel: whether it succeeded.
pub open spec fn integrity_set(w: World, obj: Value, freeze: bool) -> Outcome<bool> {
    if !obj.object() {
        (w, Ok(true))
    } else {
        let (w, ok) = extensions_prevented(w, obj);
        match ok {
            Err(e) => (w, Err(e)),
            Ok(false) => (w, Ok(false)),
            Ok(true) => {
                let (w, elements) = w.yes(Op::HasElements(obj));
                if elements {
                    (w, Ok(false))
                } else {
                    let (w, keys) = own_keys_of(w, obj);
                    match keys {
                        Err(e) => (w, Err(e)),
                        Ok(keys) => sealed_from(w, obj, keys, 0, freeze),
                    }
                }
            },
        }
    }
}

/// SetIntegrityLevel(obj, frozen?): PreventExtensions then make every own property
/// non-configurable (and, when freezing, non-writable for data properties), all through trap-aware
/// operations.
pub fn set_integrity_level(i: &mut Interp, obj: Value, freeze: bool) -> (r: Result<bool, Value>)
    ensures
        (final(i)@, r) == integrity_set(old(i)@, obj, freeze),
{
    if !obj.is_object() {
        return Ok(true);
    }
    if !js_prevent_extensions(i, obj)? {
        return Ok(false);
    }
    // TypedArray elements can never be made non-configurable (or non-writable), so sealing or
    // freezing any view that currently has elements fails at the first DefinePropertyOrThrow.
    if i.ask_yes(Op::HasElements(obj)) {
        return Ok(false);
    }
    let keys: Vec<Value> = js_own_keys(i, obj)?;
    let mut j: usize = 0;
    while j < keys.len()
        invariant
            j <= keys@.len(),
            integrity_set(old(i)@, obj, freeze) == sealed_from(i@, obj, keys@, j as int, freeze),
        decreases keys@.len() - j,
    {
        let is_accessor = match js_own_property(i, obj, keys[j])? {
            Some(p) => p.accessor,
            None => false,
        };
        let d = PartialDesc {
            value: None,
            get: None,
            set: None,
            writable: if freeze && !is_accessor {
                Some(false)
            } else {
                None
            },
            enumerable: None,
            configurable: Some(false),
        };
        if !js_define_property(i, obj, keys[j], d)? {
            return i.type_error("could not set the object's integrity level");
        }
        j += 1;
    }
    Ok(true)
}

/// Whether the properties under `keys` from `j` on are all sealed or frozen.
pub open spec fn integrity_from(w: World, obj: Value, keys: Seq<Value>, j: int, frozen: bool) -> Outcome<
    bool,
>
    decreases keys.len() - j,
{
    if j < 0 || j >= keys.len() {
        (w, Ok(true))
    } else {
        let (w1, p) = own_property_of(w, obj, keys[j]);
        match p {
            Err(e) => (w1, Err(e)),
            Ok(Some(p)) => if p.configurable || (frozen && !p.accessor && p.writable) {
                (w1, Ok(false))
            } else {
                integrity_from(w1, obj, keys, j + 1, frozen)
            },
            Ok(None) => integrity_from(w1, obj, keys, j + 1, frozen),
        }
    }
}

/// TestIntegrityLevel.
pub open spec fn integrity_tested(w: World, v: Value, frozen: bool) -> Outcome<bool> {
    if !v.object() {
        (w, Ok(true))
    } else {
        let (w, ext) = extensible_of(w, v);
        match ext {
            Err(e) => (w, Err(e)),
            Ok(true) => (w, Ok(false)),
            Ok(false) => {
                let (w, elements) = w.yes(Op::HasElements(v));
                if elements {
                    (w, Ok(false))
                } else {
                    let (w, keys) = own_keys_of(w, v);
                    match keys {
                        Err(e) => (w, Err(e)),
                        Ok(keys) => integrity_from(w, v, keys, 0, frozen),
                    }
                }
            },
        }
    }
}

/// TestIntegrityLevel: extensibility plus per-key configurability (and, for frozen, data-property
/// writability), through the proxy [[IsExtensible]]/[[OwnPropertyKeys]]/[[GetOwnProperty]] traps.
pub fn test_integrity_level(i: &mut Interp, v: Value, frozen: bool) -> (r: Result<bool, Value>)
    ensures
        (final(i)@, r) == integrity_tested(old(i)@, v, frozen),
{
    if !v.is_object() {
        return Ok(true);
    }
    if js_is_extensible(i, v)? {
        return Ok(false);
    }
    // A TypedArray's in-bounds elements are always configurable and writable, so a view with any
    // elements is never sealed or frozen.
    if i.ask_yes(Op::HasElements(v)) {
        return Ok(false);
    }
    let keys: Vec<Value> = js_own_keys(i, v)?;
    let mut j: usize = 0;
    while j < keys.len()
        invariant
            j <= keys@.len(),
            integrity_tested(old(i)@, v, frozen) == integrity_from(i@, v, keys@, j as int, frozen),
        decreases keys@.len() - j,
    {
        if let Some(p) = js_own_property(i, v, keys[j])? {
            if p.configurable || (frozen && !p.accessor && p.writable) {
                return Ok(false);
            }
        }
        j += 1;
    }
    Ok(true)
}

/// `Object.freeze` and `Object.seal`: an object that cannot be brought to the level throws.
pub open spec fn levelled(w: World, args: Seq<Value>, freeze: bool) -> Outcome<Value> {
    let o = arg_at(args, 0);
    if !o.object() {
        (w, Ok(o))
    } else {
        let (w, ok) = integrity_set(w, o, freeze);
        match ok {
            Err(e) => (w, Err(e)),
            Ok(true) => (w, Ok(o)),
            Ok(false) => if freeze {
                w.throw(ErrorKind::Type, "Object.freeze could not freeze the object")
            } else {
                w.throw(ErrorKind::Type, "Object.seal could not seal the object")
            },
        }
    }
}

pub fn object_freeze_or_seal(i: &mut Interp, args: &[Value], freeze: bool) -> (r: Result<
    Value,
    Value,
>)
    ensures
        (final(i)@, r) == levelled(old(i)@, args@, freeze),
{
    let o = arg(args, 0);
    if o.is_object() {
        if !set_integrity_level(i, o, freeze)? {
            return if freeze {
                i.type_error("Object.freeze could not freeze the object")
            } else {
                i.type_error("Object.seal could not seal the object")
            };
        }
    }
    Ok(o)
}

/// `Object.preventExtensions`.
pub open spec fn extension_stopped(w: World, args: Seq<Value>) -> Outcome<Value> {
    let o = arg_at(args, 0);
    if !o.object() {
        (w, Ok(o))
    } else {
        let (w, ok) = extensions_prevented(w, o);
        match ok {
            Err(e) => (w, Err(e)),
            Ok(true) => (w, Ok(o)),
            Ok(false) => w.throw(ErrorKind::Type, "could not prevent extensions"),
        }
    }
}

pub fn object_prevent_extensions(i: &mut Interp, args: &[Value]) -> (r: Result<Value, Value>)
    ensures
        (final(i)@, r) == extension_stopped(old(i)@, args@),
{
    let o = arg(args, 0);
    if o.is_object() {
        if !js_prevent_extensions(i, o)? {
            return i.type_error("could not prevent extensions");
        }
    }
    Ok(o)
}

// Definitions

/// `Object.defineProperty`.
pub open spec fn property_put(w: World, args: Seq<Value>) -> Outcome<Value> {
    let o = arg_at(args, 0);
    if !o.object() {
        w.throw(ErrorKind::Type, "Object.defineProperty called on non-object")
    } else {
        let (w, key) = w.key(arg_at(args, 1));
        match key {
            Err(e) => (w, Err(e)),
            Ok(key) => {
                let (w, ok) = defined_from(w, o, key, arg_at(args, 2));
                match ok {
                    Err(e) => (w, Err(e)),
                    Ok(true) => (w, Ok(o)),
                    Ok(false) => {
                        let (w, pair) = w.proxy(o);
                        if pair is Some {
                            w.throw(
                                ErrorKind::Type,
                                "proxy defineProperty returned a falsish value",
                            )
                        } else {
                            w.throw(ErrorKind::Type, "Cannot redefine property")
                        }
                    },
                }
            },
        }
    }
}

pub fn object_define_property(i: &mut Interp, args: &[Value]) -> (r: Result<Value, Value>)
    ensures
        (final(i)@, r) == property_put(old(i)@, args@),
{
    let o = arg(args, 0);
    if !o.is_object() {
        return i.type_error("Object.defineProperty called on non-object");
    }
    let key = i.to_key(arg(args, 1))?;
    if define_own_property(i, o, key, arg(args, 2))? {
        return Ok(o);
    }
    if i.proxy_pair(o).is_some() {
        i.type_error("proxy defineProperty returned a falsish value")
    } else {
        i.type_error("Cannot redefine property")
    }
}

/// The enumerable keys from `j` on and the descriptor objects under them.
pub open spec fn descriptors_collected(
    w: World,
    props: Value,
    keys: Seq<Value>,
    j: int,
    out: Seq<(Value, Value)>,
) -> Outcome<Seq<(Value, Value)>>
    decreases keys.len() - j,
{
    if j < 0 || j >= keys.len() {
        (w, Ok(out))
    } else {
        let (w1, p) = own_property_of(w, props, keys[j]);
        match p {
            Err(e) => (w1, Err(e)),
            Ok(p) => if p is Some && p->0.enumerable {
                let (w2, d) = w1.get(props, Key::Of(keys[j]));
                match d {
                    Err(e) => (w2, Err(e)),
                    Ok(d) => descriptors_collected(w2, props, keys, j + 1, out.push((keys[j], d))),
                }
            } else {
                descriptors_collected(w1, props, keys, j + 1, out)
            },
        }
    }
}

/// Defines the collected properties from `j` on.
pub open spec fn all_defined(w: World, o: Value, descs: Seq<(Value, Value)>, j: int) -> Outcome<()>
    decreases descs.len() - j,
{
    if j < 0 || j >= descs.len() {
        (w, Ok(()))
    } else {
        let (w1, ok) = defined_from(w, o, descs[j].0, descs[j].1);
        match ok {
            Err(e) => (w1, Err(e)),
            Ok(false) => w1.throw(ErrorKind::Type, "cannot define property"),
            Ok(true) => all_defined(w1, o, descs, j + 1),
        }
    }
}

/// ObjectDefineProperties: every descriptor object is read before any property is defined.
pub open spec fn properties_defined(
    w: World,
    o: Value,
    props: Value,
    complaint: &'static str,
) -> Outcome<()> {
    let (w, props) = object_for(w, props, complaint);
    match props {
        Err(e) => (w, Err(e)),
        Ok(props) => {
            let (w, keys) = own_keys_of(w, props);
            match keys {
                Err(e) => (w, Err(e)),
                Ok(keys) => {
                    let (w, descs) = descriptors_collected(w, props, keys, 0, Seq::empty());
                    match descs {
                        Err(e) => (w, Err(e)),
                        Ok(descs) => all_defined(w, o, descs, 0),
                    }
                },
            }
        },
    }
}

/// ObjectDefineProperties(O, Properties): ToObject(Properties), then for each *enumerable* own key
/// (string or symbol, proxy-aware) collect its descriptor object, then DefinePropertyOrThrow each
/// on O (which may itself be a proxy).
pub fn object_define_properties(
    i: &mut Interp,
    o: Value,
    props_arg: Value,
    complaint: &'static str,
) -> (r: Result<(), Value>)
    ensures
        (final(i)@, r) == properties_defined(old(i)@, o, props_arg, complaint),
{
    let props = to_object_arg(i, props_arg, complaint)?;
    let keys: Vec<Value> = js_own_keys(i, props)?;
    // Collect descriptor objects for enumerable own keys first (so all Gets precede any Defines).
    let mut descs: Vec<(Value, Value)> = Vec::new();
    let mut j: usize = 0;
    let ghost start = i@;
    assert(descs@ =~= Seq::<(Value, Value)>::empty());
    while j < keys.len()
        invariant
            j <= keys@.len(),
            descriptors_collected(start, props, keys@, 0, Seq::empty()) == descriptors_collected(
                i@,
                props,
                keys@,
                j as int,
                descs@,
            ),
            properties_defined(old(i)@, o, props_arg, complaint) == {
                let (w, descs) = descriptors_collected(start, props, keys@, 0, Seq::empty());
                match descs {
                    Err(e) => (w, Err(e)),
                    Ok(descs) => all_defined(w, o, descs, 0),
                }
            },
        decreases keys@.len() - j,
    {
        let enumerable = match js_own_property(i, props, keys[j])? {
            Some(p) => p.enumerable,
            None => false,
        };
        if enumerable {
            let d = i.get_member(props, Key::Of(keys[j]))?;
            descs.push((keys[j], d));
        }
        j += 1;
    }
    let mut k: usize = 0;
    while k < descs.len()
        invariant
            k <= descs@.len(),
            properties_defined(old(i)@, o, props_arg, complaint) == all_defined(
                i@,
                o,
                descs@,
                k as int,
            ),
        decreases descs@.len() - k,
    {
        if !define_own_property(i, o, descs[k].0, descs[k].1)? {
            return i.type_error("cannot define property");
        }
        k += 1;
    }
    Ok(())
}

/// `Object.defineProperties`.
pub open spec fn object_with_properties(w: World, args: Seq<Value>) -> Outcome<Value> {
    let o = arg_at(args, 0);
    if !o.object() {
        w.throw(ErrorKind::Type, "Object.defineProperties on non-object")
    } else {
        let (w, r) = properties_defined(
            w,
            o,
            arg_at(args, 1),
            "Object.defineProperties called on null or undefined",
        );
        match r {
            Err(e) => (w, Err(e)),
            Ok(_) => (w, Ok(o)),
        }
    }
}

pub fn object_define_properties_method(i: &mut Interp, args: &[Value]) -> (r: Result<Value, Value>)
    ensures
        (final(i)@, r) == object_with_properties(old(i)@, args@),
{
    let o = arg(args, 0);
    if !o.is_object() {
        return i.type_error("Object.defineProperties on non-object");
    }
    object_define_properties(
        i,
        o,
        arg(args, 1),
        "Object.defineProperties called on null or undefined",
    )?;
    Ok(o)
}

/// `Object.create`.
pub open spec fn created(w: World, args: Seq<Value>) -> Outcome<Value> {
    let proto = arg_at(args, 0);
    let props = arg_at(args, 1);
    if !proto.object() && proto != Value::Null {
        w.throw(ErrorKind::Type, "Object.create proto must be object or null")
    } else {
        let (w, o) = w.plain(Op::NewWithPrototype(proto), Seq::empty());
        if props == Value::Undefined {
            (w, Ok(o))
        } else {
            let (w, r) = properties_defined(
                w,
                o,
                props,
                "Object.create called on null or undefined",
            );
            match r {
                Err(e) => (w, Err(e)),
                Ok(_) => (w, Ok(o)),
            }
        }
    }
}

pub fn object_create(i: &mut Interp, args: &[Value]) -> (r: Result<Value, Value>)
    ensures
        (final(i)@, r) == created(old(i)@, args@),
{
    let proto = arg(args, 0);
    if !proto.is_object() && proto != Value::Null {
        return i.type_error("Object.create proto must be object or null");
    }
    let o = i.perform(Op::NewWithPrototype(proto));
    // Object.create(O, Properties): when Properties is not undefined, ObjectDefineProperties.
    let props = arg(args, 1);
    if !props.is_undefined() {
        object_define_properties(i, o, props, "Object.create called on null or undefined")?;
    }
    Ok(o)
}

// Listing own properties

/// Whether a proxy shows a key as enumerable, by its trap or by its target.
pub open spec fn trap_enumerable(w: World, target: Value, handler: Value, key: Value) -> Outcome<bool>
    decreases w.left(),
{
    let (w1, trap) = w.get(handler, Key::Name("getOwnPropertyDescriptor"));
    match trap {
        Err(e) => (w1, Err(e)),
        Ok(trap) => if trap.callable() {
            let (w2, res) = w1.call(trap, handler, seq![target, key]);
            match res {
                Err(e) => (w2, Err(e)),
                Ok(res) => if res == Value::Undefined {
                    (w2, Ok(false))
                } else {
                    let (w3, e) = w2.get(res, Key::Name("enumerable"));
                    match e {
                        Err(e) => (w3, Err(e)),
                        Ok(e) => (w3, Ok(w3.truthy(e))),
                    }
                },
            }
        } else {
            let (w2, pair) = w1.proxy(target);
            match pair {
                Some((t2, h2)) => trap_enumerable(w2, t2, h2, key),
                None => stored_enumerable(w2, target, key),
            }
        },
    }
}

/// Whether an object that is no proxy has an enumerable own property.
pub open spec fn stored_enumerable(w: World, o: Value, key: Value) -> Outcome<bool> {
    if !o.object() {
        (w, Ok(false))
    } else {
        let (w, p) = w.property(Op::OwnProperty(o, Key::Of(key)));
        match p {
            Err(e) => (w, Err(e)),
            Ok(None) => (w, Ok(false)),
            Ok(Some(p)) => (w, Ok(p.enumerable)),
        }
    }
}

fn is_stored_enumerable(i: &mut Interp, o: Value, key: Value) -> (r: Result<bool, Value>)
    ensures
        (final(i)@, r) == stored_enumerable(old(i)@, o, key),
{
    if !o.is_object() {
        return Ok(false);
    }
    match i.ask_property(Op::OwnProperty(o, Key::Of(key)))? {
        None => Ok(false),
        Some(p) => Ok(p.enumerable),
    }
}

pub fn proxy_key_enumerable(i: &mut Interp, target: Value, handler: Value, key: Value) -> (r: Result<
    bool,
    Value,
>)
    ensures
        (final(i)@, r) == trap_enumerable(old(i)@, target, handler, key),
    decreases old(i)@.left(),
{
    let trap = i.get_member(handler, Key::Name("getOwnPropertyDescriptor"))?;
    if trap.is_callable() {
        let args = vec![target, key];
        assert(args@ =~= seq![target, key]);
        let res = i.call(trap, handler, args)?;
        if res.is_undefined() {
            return Ok(false);
        }
        let e = i.get_member(res, Key::Name("enumerable"))?;
        return Ok(i.to_boolean(e));
    }
    match i.proxy_pair(target) {
        // Absent gOPD trap over a proxy target: forward to the target's [[GetOwnProperty]].
        Some((t2, h2)) => proxy_key_enumerable(i, t2, h2, key),
        None => is_stored_enumerable(i, target, key),
    }
}

/// Whether an object shows a key as enumerable.
pub open spec fn shown(w: World, o: Value, pair: Option<(Value, Value)>, key: Value) -> Outcome<bool> {
    match pair {
        Some((t, h)) => trap_enumerable(w, t, h, key),
        None => stored_enumerable(w, o, key),
    }
}

fn is_shown(i: &mut Interp, o: Value, pair: Option<(Value, Value)>, key: Value) -> (r: Result<
    bool,
    Value,
>)
    ensures
        (final(i)@, r) == shown(old(i)@, o, pair, key),
{
    match pair {
        Some((t, h)) => proxy_key_enumerable(i, t, h, key),
        None => is_stored_enumerable(i, o, key),
    }
}

/// What a listing of own properties gives for each key.
#[derive(Clone, Copy, PartialEq, Eq, Structural, Debug)]
pub enum Listing {
    Keys,
    Values,
    Entries,
}

/// The enumerable string-keyed properties from key `j` on; each key is tested and read in turn.
pub open spec fn listed_from(
    w: World,
    o: Value,
    pair: Option<(Value, Value)>,
    keys: Seq<Value>,
    j: int,
    what: Listing,
    out: Seq<Value>,
) -> Outcome<Seq<Value>>
    decreases keys.len() - j,
{
    if j < 0 || j >= keys.len() {
        (w, Ok(out))
    } else if !(keys[j] is Str) {
        listed_from(w, o, pair, keys, j + 1, what, out)
    } else {
        let (w1, e) = shown(w, o, pair, keys[j]);
        match e {
            Err(e) => (w1, Err(e)),
            Ok(false) => listed_from(w1, o, pair, keys, j + 1, what, out),
            Ok(true) => match what {
                Listing::Keys => listed_from(w1, o, pair, keys, j + 1, what, out.push(keys[j])),
                Listing::Values => {
                    let (w2, v) = w1.get(o, Key::Of(keys[j]));
                    match v {
                        Err(e) => (w2, Err(e)),
                        Ok(v) => listed_from(w2, o, pair, keys, j + 1, what, out.push(v)),
                    }
                },
                Listing::Entries => {
                    let (w2, v) = w1.get(o, Key::Of(keys[j]));
                    match v {
                        Err(e) => (w2, Err(e)),
                        Ok(v) => {
                            let (w3, entry) = w2.plain(Op::NewArray, seq![keys[j], v]);
                            listed_from(w3, o, pair, keys, j + 1, what, out.push(entry))
                        },
                    }
                },
            },
        }
    }
}

/// EnumerableOwnProperties of an object.
pub open spec fn listed(w: World, o: Value, what: Listing) -> Outcome<Value> {
    let (w, pair) = w.proxy(o);
    let (w, keys) = own_keys_of(w, o);
    match keys {
        Err(e) => (w, Err(e)),
        Ok(keys) => {
            let (w, out) = listed_from(w, o, pair, keys, 0, what, Seq::empty());
            match out {
                Err(e) => (w, Err(e)),
                Ok(out) => {
                    let (w, a) = w.plain(Op::NewArray, out);
                    (w, Ok(a))
                },
            }
        },
    }
}

/// EnumerableOwnProperties for Object.keys/values/entries: for each own string key (in order), do
/// [[GetOwnProperty]] then — if enumerable — [[Get]] the value, interleaved per key (matters for
/// the observable trap order on proxies).
pub fn enumerable_own_value_list(i: &mut Interp, o: Value, what: Listing) -> (r: Result<
    Value,
    Value,
>)
    ensures
        (final(i)@, r) == listed(old(i)@, o, what),
{
    let pair = i.proxy_pair(o);
    let keys: Vec<Value> = js_own_keys(i, o)?;
    let mut out: Vec<Value> = Vec::new();
    let mut j: usize = 0;
    let ghost start = i@;
    assert(out@ =~= Seq::<Value>::empty());
    while j < keys.len()
        invariant
            j <= keys@.len(),
            listed_from(start, o, pair, keys@, 0, what, Seq::empty()) == listed_from(
                i@,
                o,
                pair,
                keys@,
                j as int,
                what,
                out@,
            ),
            listed(old(i)@, o, what) == {
                let (w, out) = listed_from(start, o, pair, keys@, 0, what, Seq::empty());
                match out {
                    Err(e) => (w, Err(e)),
                    Ok(out) => {
                        let (w, a) = w.plain(Op::NewArray, out);
                        (w, Ok(a))
                    },
                }
            },
        decreases keys@.len() - j,
    {
        let key = keys[j];
        j += 1;
        let is_string = match key {
            Value::Str(_) => true,
            _ => false,
        };
        if is_string {
            if is_shown(i, o, pair, key)? {
                match what {
                    Listing::Keys => out.push(key),
                    Listing::Values => {
                        let v = i.get_member(o, Key::Of(key))?;
                        out.push(v);
                    },
                    Listing::Entries => {
                        let v = i.get_member(o, Key::Of(key))?;
                        let pair = vec![key, v];
                        assert(pair@ =~= seq![key, v]);
                        let entry = i.make_array(pair);
                        out.push(entry);
                    },
                }
            }
        }
    }
    Ok(i.make_array(out))
}

/// `Object.keys`, `Object.values` and `Object.entries`.
pub open spec fn listing(w: World, args: Seq<Value>, what: Listing) -> Outcome<Value> {
    let (w, o) = object_for(w, arg_at(args, 0), "called on null or undefined");
    match o {
        Err(e) => (w, Err(e)),
        Ok(o) => {
            let (w, t) = w.triggered(o, Value::Undefined);
            match t {
                Err(e) => (w, Err(e)),
                Ok(_) => listed(w, o, what),
            }
        },
    }
}

pub fn object_listing(i: &mut Interp, args: &[Value], what: Listing) -> (r: Result<Value, Value>)
    ensures
        (final(i)@, r) == listing(old(i)@, args@, what),
{
    let o = to_object_arg(i, arg(args, 0), "called on null or undefined")?;
    i.trigger(o, Value::Undefined)?;
    enumerable_own_value_list(i, o, what)
}

/// The keys of one type, in order.
pub open spec fn keys_of_type(keys: Seq<Value>, symbols: bool) -> Seq<Value>
    decreases keys.len(),
{
    if keys.len() == 0 {
        Seq::empty()
    } else {
        let front = keys_of_type(keys.drop_last(), symbols);
        let k = keys.last();
        if if symbols {
            k is Sym
        } else {
            k is Str
        } {
            front.push(k)
        } else {
            front
        }
    }
}

fn pick_keys(keys: &Vec<Value>, symbols: bool) -> (r: Vec<Value>)
    ensures
        r@ == keys_of_type(keys@, symbols),
{
    let mut out: Vec<Value> = Vec::new();
    let mut j: usize = 0;
    assert(out@ =~= keys_of_type(keys@.take(0), symbols));
    while j < keys.len()
        invariant
            j <= keys@.len(),
            out@ == keys_of_type(keys@.take(j as int), symbols),
        decreases keys@.len() - j,
    {
        assert(keys@.take(j + 1).drop_last() =~= keys@.take(j as int));
        let wanted = match keys[j] {
            Value::Sym(_) => symbols,
            Value::Str(_) => !symbols,
            _ => false,
        };
        if wanted {
            out.push(keys[j]);
        }
        j += 1;
    }
    assert(keys@.take(j as int) =~= keys@);
    out
}

/// `Object.getOwnPropertyNames` and `Object.getOwnPropertySymbols`.
pub open spec fn own_names(w: World, args: Seq<Value>, symbols: bool) -> Outcome<Value> {
    let (w, o) = object_for(w, arg_at(args, 0), "called on null or undefined");
    match o {
        Err(e) => (w, Err(e)),
        Ok(o) => {
            let (w, t) = w.triggered(o, Value::Undefined);
            match t {
                Err(e) => (w, Err(e)),
                Ok(_) => {
                    let (w, keys) = own_keys_of(w, o);
                    match keys {
                        Err(e) => (w, Err(e)),
                        Ok(keys) => {
                            let (w, a) = w.plain(Op::NewArray, keys_of_type(keys, symbols));
                            (w, Ok(a))
                        },
                    }
                },
            }
        },
    }
}

pub fn object_own_names(i: &mut Interp, args: &[Value], symbols: bool) -> (r: Result<Value, Value>)
    ensures
        (final(i)@, r) == own_names(old(i)@, args@, symbols),
{
    let o = to_object_arg(i, arg(args, 0), "called on null or undefined")?;
    i.trigger(o, Value::Undefined)?;
    let keys: Vec<Value> = js_own_keys(i, o)?;
    let names = pick_keys(&keys, symbols);
    Ok(i.make_array(names))
}

/// A property as a descriptor object, or undefined.
pub open spec fn described(w: World, p: Option<Property>) -> Outcome<Value> {
    match p {
        None => (w, Ok(Value::Undefined)),
        Some(p) => {
            let (w, d) = descriptor_object(w, p);
            (w, Ok(d))
        },
    }
}

/// `Object.getOwnPropertyDescriptor`.
pub open spec fn descriptor_got(w: World, args: Seq<Value>) -> Outcome<Value> {
    let (w, o) = object_for(
        w,
        arg_at(args, 0),
        "Object.getOwnPropertyDescriptor called on null or undefined",
    );
    match o {
        Err(e) => (w, Err(e)),
        Ok(o) => {
            let (w, key) = w.key(arg_at(args, 1));
            match key {
                Err(e) => (w, Err(e)),
                Ok(key) => {
                    let (w, t) = w.triggered(o, key);
                    match t {
                        Err(e) => (w, Err(e)),
                        Ok(_) => {
                            let (w, p) = own_property_of(w, o, key);
                            match p {
                                Err(e) => (w, Err(e)),
                                Ok(p) => described(w, p),
                            }
                        },
                    }
                },
            }
        },
    }
}

pub fn object_get_own_property_descriptor(i: &mut Interp, args: &[Value]) -> (r: Result<
    Value,
    Value,
>)
    ensures
        (final(i)@, r) == descriptor_got(old(i)@, args@),
{
    let o = to_object_arg(
        i,
        arg(args, 0),
        "Object.getOwnPropertyDescriptor called on null or undefined",
    )?;
    let key = i.to_key(arg(args, 1))?;
    i.trigger(o, key)?;
    match js_own_property(i, o, key)? {
        None => Ok(Value::Undefined),
        Some(p) => Ok(descriptor_from_prop(i, p)),
    }
}

/// Stores the descriptor of each key from `j` on in `result`.
pub open spec fn descriptors_from(w: World, o: Value, keys: Seq<Value>, j: int, result: Value) -> Outcome<
    Value,
>
    decreases keys.len() - j,
{
    if j < 0 || j >= keys.len() {
        (w, Ok(result))
    } else {
        let (w1, p) = own_property_of(w, o, keys[j]);
        match p {
            Err(e) => (w1, Err(e)),
            Ok(None) => descriptors_from(w1, o, keys, j + 1, result),
            Ok(Some(p)) => {
                let (w2, d) = descriptor_object(w1, p);
                let (w3, _) = w2.plain(
                    Op::StoreProperty(result, Key::Of(keys[j]), plain_property(d)),
                    Seq::empty(),
                );
                descriptors_from(w3, o, keys, j + 1, result)
            },
        }
    }
}

/// `Object.getOwnPropertyDescriptors`.
pub open spec fn descriptors_got(w: World, args: Seq<Value>) -> Outcome<Value> {
    let (w, o) = object_for(
        w,
        arg_at(args, 0),
        "Object.getOwnPropertyDescriptors called on null or undefined",
    );
    match o {
        Err(e) => (w, Err(e)),
        Ok(o) => {
            let (w, result) = w.plain(Op::NewObject, Seq::empty());
            let (w, keys) = own_keys_of(w, o);
            match keys {
                Err(e) => (w, Err(e)),
                Ok(keys) => descriptors_from(w, o, keys, 0, result),
            }
        },
    }
}

pub fn object_get_own_property_descriptors(i: &mut Interp, args: &[Value]) -> (r: Result<
    Value,
    Value,
>)
    ensures
        (final(i)@, r) == descriptors_got(old(i)@, args@),
{
    let o = to_object_arg(
        i,
        arg(args, 0),
        "Object.getOwnPropertyDescriptors called on null or undefined",
    )?;
    let result = i.perform(Op::NewObject);
    let keys: Vec<Value> = js_own_keys(i, o)?;
    let mut j: usize = 0;
    while j < keys.len()
        invariant
            j <= keys@.len(),
            descriptors_got(old(i)@, args@) == descriptors_from(i@, o, keys@, j as int, result),
        decreases keys@.len() - j,
    {
        if let Some(p) = js_own_property(i, o, keys[j])? {
            let d = descriptor_from_prop(i, p);
            let _ = i.perform(
                Op::StoreProperty(result, Key::Of(keys[j]), Property::new_data(d, true, true, true)),
            );
        }
        j += 1;
    }
    Ok(result)
}

// assign, fromEntries, groupBy

/// Copies the enumerable properties of one source from key `j` on.
pub open spec fn copied_from(
    w: World,
    to: Value,
    from: Value,
    pair: Option<(Value, Value)>,
    keys: Seq<Value>,
    j: int,
) -> Outcome<()>
    decreases keys.len() - j,
{
    if j < 0 || j >= keys.len() {
        (w, Ok(()))
    } else {
        let (w1, e) = shown(w, from, pair, keys[j]);
        match e {
            Err(e) => (w1, Err(e)),
            Ok(false) => copied_from(w1, to, from, pair, keys, j + 1),
            Ok(true) => {
                let (w2, v) = w1.get(from, Key::Of(keys[j]));
                match v {
                    Err(e) => (w2, Err(e)),
                    Ok(v) => {
                        let (w3, r) = w2.value(Op::Put(to, Key::Of(keys[j]), v), Seq::empty());
                        match r {
                            Err(e) => (w3, Err(e)),
                            Ok(_) => copied_from(w3, to, from, pair, keys, j + 1),
                        }
                    },
                }
            },
        }
    }
}

/// One source of `Object.assign`.
pub open spec fn assigned_one(w: World, to: Value, src: Value) -> Outcome<()> {
    if src.nullish() {
        (w, Ok(()))
    } else {
        let (w, from) = object_for(w, src, "Object.assign called on null or undefined");
        match from {
            Err(e) => (w, Err(e)),
            Ok(from) => {
                let (w, pair) = w.proxy(from);
                let (w, keys) = own_keys_of(w, from);
                match keys {
                    Err(e) => (w, Err(e)),
                    Ok(keys) => copied_from(w, to, from, pair, keys, 0),
                }
            },
        }
    }
}

fn assign_one(i: &mut Interp, to: Value, src: Value) -> (r: Result<(), Value>)
    ensures
        (final(i)@, r) == assigned_one(old(i)@, to, src),
{
    if src.is_nullish() {
        return Ok(());
    }
    let from = to_object_arg(i, src, "Object.assign called on null or undefined")?;
    let pair = i.proxy_pair(from);
    let keys: Vec<Value> = js_own_keys(i, from)?;
    let mut j: usize = 0;
    while j < keys.len()
        invariant
            j <= keys@.len(),
            assigned_one(old(i)@, to, src) == copied_from(i@, to, from, pair, keys@, j as int),
        decreases keys@.len() - j,
    {
        if is_shown(i, from, pair, keys[j])? {
            let v = i.get_member(from, Key::Of(keys[j]))?;
            i.value_of(Op::Put(to, Key::Of(keys[j]), v))?;
        }
        j += 1;
    }
    Ok(())
}

/// The sources of `Object.assign` from argument `k` on.
pub open spec fn assigned_from(w: World, to: Value, args: Seq<Value>, k: int) -> Outcome<Value>
    decreases args.len() - k,
{
    if k < 0 || k >= args.len() {
        (w, Ok(to))
    } else {
        let (w1, r) = assigned_one(w, to, args[k]);
        match r {
            Err(e) => (w1, Err(e)),
            Ok(_) => assigned_from(w1, to, args, k + 1),
        }
    }
}

/// `Object.assign`.
pub open spec fn assigned(w: World, args: Seq<Value>) -> Outcome<Value> {
    let (w, to) = object_for(w, arg_at(args, 0), "Object.assign called on null or undefined");
    match to {
        Err(e) => (w, Err(e)),
        Ok(to) => assigned_from(w, to, args, 1),
    }
}

pub fn object_assign(i: &mut Interp, args: &[Value]) -> (r: Result<Value, Value>)
    ensures
        (final(i)@, r) == assigned(old(i)@, args@),
{
    let to = to_object_arg(i, arg(args, 0), "Object.assign called on null or undefined")?;
    let mut k: usize = 1;
    while k < args.len()
        invariant
            1 <= k,
            assigned(old(i)@, args@) == assigned_from(i@, to, args@, k as int),
        decreases args@.len() - k,
    {
        assign_one(i, to, args[k])?;
        k += 1;
    }
    Ok(to)
}

/// One entry of `Object.fromEntries` stored in `obj`.
pub open spec fn entry_stored(w: World, obj: Value, entry: Value) -> Outcome<()> {
    if !entry.object() {
        w.throw(ErrorKind::Type, "Object.fromEntries entry is not an object")
    } else {
        let (w, k) = w.get(entry, Key::Index(0));
        match k {
            Err(e) => (w, Err(e)),
            Ok(k) => {
                let (w, v) = w.get(entry, Key::Index(1));
                match v {
                    Err(e) => (w, Err(e)),
                    Ok(v) => {
                        let (w, key) = w.key(k);
                        match key {
                            Err(e) => (w, Err(e)),
                            Ok(key) => {
                                let (w, _) = w.plain(
                                    Op::StoreProperty(obj, Key::Of(key), plain_property(v)),
                                    Seq::empty(),
                                );
                                (w, Ok(()))
                            },
                        }
                    },
                }
            },
        }
    }
}

fn store_entry(i: &mut Interp, obj: Value, entry: Value) -> (r: Result<(), Value>)
    ensures
        (final(i)@, r) == entry_stored(old(i)@, obj, entry),
{
    // Each entry must be an Object; keys/values are added via CreateDataPropertyOnObject, which
    // defines a plain data property and never invokes inherited setters.
    if !entry.is_object() {
        return i.type_error("Object.fromEntries entry is not an object");
    }
    let k = i.get_member(entry, Key::Index(0))?;
    let v = i.get_member(entry, Key::Index(1))?;
    let key = i.to_key(k)?;
    let _ = i.perform(
        Op::StoreProperty(obj, Key::Of(key), Property::new_data(v, true, true, true)),
    );
    Ok(())
}

/// The rest of `Object.fromEntries`.
pub open spec fn entries_from(w: World, iter: Value, next: Value, obj: Value) -> Outcome<Value>
    decreases w.left(),
{
    let (w1, step) = stepped(w, iter, next);
    match step {
        Err(e) => (w1, Err(e)),
        Ok(None) => (w1, Ok(obj)),
        Ok(Some(entry)) => {
            let (w2, r) = entry_stored(w1, obj, entry);
            match r {
                Err(e) => w2.close_and_throw(iter, e),
                Ok(_) => entries_from(w2, iter, next, obj),
            }
        },
    }
}

/// `Object.fromEntries`.
pub open spec fn from_entries(w: World, args: Seq<Value>) -> Outcome<Value> {
    let iterable = arg_at(args, 0);
    if iterable.nullish() {
        w.throw(ErrorKind::Type, "Object.fromEntries called on null or undefined")
    } else {
        let (w, obj) = w.plain(Op::NewObject, Seq::empty());
        let (w, it) = w.iterator(iterable);
        match it {
            Err(e) => (w, Err(e)),
            Ok((iter, next)) => entries_from(w, iter, next, obj),
        }
    }
}

pub fn object_from_entries(i: &mut Interp, args: &[Value]) -> (r: Result<Value, Value>)
    ensures
        (final(i)@, r) == from_entries(old(i)@, args@),
{
    let iterable = arg(args, 0);
    if iterable.is_nullish() {
        return i.type_error("Object.fromEntries called on null or undefined");
    }
    let obj = i.perform(Op::NewObject);
    // Lazily step the iterator; an abrupt completion while processing an entry closes it.
    let (iter, next) = i.get_iterator(iterable)?;
    loop
        invariant
            from_entries(old(i)@, args@) == entries_from(i@, iter, next, obj),
        decreases i@.left(),
    {
        match step_iter_with(i, iter, next)? {
            None => return Ok(obj),
            Some(entry) => {
                if let Err(e) = store_entry(i, obj, entry) {
                    i.iterator_close(iter);
                    return Err(e);
                }
            },
        }
    }
}

/// A group of values under a key.
pub struct Group {
    pub key: Value,
    pub members: Vec<Value>,
}

impl View for Group {
    type V = (Value, Seq<Value>);

    open spec fn view(&self) -> (Value, Seq<Value>) {
        (self.key, self.members@)
    }
}

pub open spec fn group_views(g: Seq<Group>) -> Seq<(Value, Seq<Value>)> {
    g.map_values(|x: Group| x@)
}

/// Adds an element to the group whose key is the same, with minus zero taken as zero; it is opened
/// at the end where there is none.
pub open spec fn grouped(g: Seq<(Value, Seq<Value>)>, key: Value, el: Value) -> Seq<
    (Value, Seq<Value>),
>
    decreases g.len(),
{
    if g.len() == 0 {
        seq![(key, seq![el])]
    } else if same_zero(g[0].0, key) {
        seq![(g[0].0, g[0].1.push(el))] + g.drop_first()
    } else {
        seq![g[0]] + grouped(g.drop_first(), key, el)
    }
}

proof fn lemma_grouped_at(g: Seq<(Value, Seq<Value>)>, key: Value, el: Value, j: int)
    requires
        0 <= j <= g.len(),
        forall|k: int| 0 <= k < j ==> !same_zero((#[trigger] g[k]).0, key),
        j < g.len() ==> same_zero(g[j].0, key),
    ensures
        j < g.len() ==> grouped(g, key, el) == g.update(j, (g[j].0, g[j].1.push(el))),
        j == g.len() ==> grouped(g, key, el) == g.push((key, seq![el])),
    decreases g.len(),
{
    if g.len() == 0 {
        assert(grouped(g, key, el) =~= g.push((key, seq![el])));
    } else if j == 0 {
        assert(grouped(g, key, el) =~= g.update(0, (g[0].0, g[0].1.push(el))));
    } else {
        let rest = g.drop_first();
        assert forall|k: int| 0 <= k < j - 1 implies !same_zero((#[trigger] rest[k]).0, key) by {
            assert(rest[k] == g[k + 1]);
        }
        lemma_grouped_at(rest, key, el, j - 1);
        if j < g.len() {
            assert(grouped(g, key, el) =~= g.update(j, (g[j].0, g[j].1.push(el))));
        } else {
            assert(grouped(g, key, el) =~= g.push((key, seq![el])));
        }
    }
}

/// Adds an element to its group.
pub fn add_to_group(groups: &mut Vec<Group>, key: Value, el: Value)
    ensures
        group_views(final(groups)@) == grouped(group_views(old(groups)@), key, el),
{
    let ghost g = group_views(groups@);
    let mut j: usize = 0;
    while j < groups.len()
        invariant
            j <= groups@.len(),
            groups@ == old(groups)@,
            g == group_views(groups@),
            forall|k: int| 0 <= k < j ==> !same_zero((#[trigger] g[k]).0, key),
        decreases groups@.len() - j,
    {
        assert(g[j as int] == groups@[j as int]@);
        if same_value_zero(groups[j].key, key) {
            proof {
                lemma_grouped_at(g, key, el, j as int);
            }
            groups[j].members.push(el);
            assert(group_views(groups@) =~= g.update(
                j as int,
                (g[j as int].0, g[j as int].1.push(el)),
            ));
            return;
        }
        j += 1;
    }
    proof {
        lemma_grouped_at(g, key, el, j as int);
    }
    let members = vec![el];
    assert(members@ =~= seq![el]);
    groups.push(Group { key, members });
    assert(group_views(groups@) =~= g.push((key, seq![el])));
}

/// The groups of the elements from `j` on, added to `g`. A key is the callback's result, coerced
/// to a property key or, for a map, with minus zero replaced by zero.
pub open spec fn groups_from(
    w: World,
    cb: Value,
    elems: Seq<Value>,
    j: int,
    for_map: bool,
    g: Seq<(Value, Seq<Value>)>,
) -> Outcome<Seq<(Value, Seq<Value>)>>
    decreases elems.len() - j,
{
    if j < 0 || j >= elems.len() {
        (w, Ok(g))
    } else {
        let (w1, k) = w.call(cb, Value::Undefined, seq![elems[j], Value::Num(num::position(j))]);
        match k {
            Err(e) => (w1, Err(e)),
            Ok(k) => {
                let (w2, key) = if for_map {
                    (w1, Ok(crate::equality::canonical_key(k)))
                } else {
                    w1.key(k)
                };
                match key {
                    Err(e) => (w2, Err(e)),
                    Ok(key) => groups_from(
                        w2,
                        cb,
                        elems,
                        j + 1,
                        for_map,
                        grouped(g, key, elems[j]),
                    ),
                }
            },
        }
    }
}

/// GroupBy: the elements of an iterable by what the callback gives for each.
pub open spec fn grouped_by(w: World, items: Value, cb: Value, for_map: bool) -> Outcome<
    Seq<(Value, Seq<Value>)>,
> {
    let (w, elems) = w.list(Op::IterateAll(items));
    match elems {
        Err(e) => (w, Err(e)),
        Ok(elems) => groups_from(w, cb, elems, 0, for_map, Seq::empty()),
    }
}

pub fn group_by(i: &mut Interp, items: Value, cb: Value, for_map: bool) -> (r: Result<
    Vec<Group>,
    Value,
>)
    ensures
        final(i)@ == grouped_by(old(i)@, items, cb, for_map).0,
        match r {
            Ok(g) => grouped_by(old(i)@, items, cb, for_map).1 == Ok::<
                Seq<(Value, Seq<Value>)>,
                Value,
            >(group_views(g@)),
            Err(e) => grouped_by(old(i)@, items, cb, for_map).1 == Err::<
                Seq<(Value, Seq<Value>)>,
                Value,
            >(e),
        },
{
    let elems: Vec<Value> = i.ask_list(Op::IterateAll(items))?;
    let mut groups: Vec<Group> = Vec::new();
    let mut j: usize = 0;
    assert(group_views(groups@) =~= Seq::empty());
    while j < elems.len()
        invariant
            j <= elems@.len(),
            grouped_by(old(i)@, items, cb, for_map) == groups_from(
                i@,
                cb,
                elems@,
                j as int,
                for_map,
                group_views(groups@),
            ),
        decreases elems@.len() - j,
    {
        let el = elems[j];
        let list = vec![el, Value::Num(num::of_position(j))];
        assert(list@ =~= seq![el, Value::Num(num::position(j as int))]);
        let k = i.call(cb, Value::Undefined, list)?;
        let key = if for_map {
            crate::equality::canonicalize_map_key(k)
        } else {
            i.to_key(k)?
        };
        add_to_group(&mut groups, key, el);
        j += 1;
    }
    Ok(groups)
}

/// Stores the groups from `j` on as arrays in `result`.
pub open spec fn groups_stored(w: World, g: Seq<(Value, Seq<Value>)>, j: int, result: Value) -> World
    decreases g.len() - j,
{
    if j < 0 || j >= g.len() {
        w
    } else {
        let (w1, a) = w.plain(Op::NewArray, g[j].1);
        let (w2, _) = w1.plain(
            Op::StoreProperty(result, Key::Of(g[j].0), plain_property(a)),
            Seq::empty(),
        );
        groups_stored(w2, g, j + 1, result)
    }
}

/// `Object.groupBy`: a null-prototype object with an array for each group.
pub open spec fn object_grouped(w: World, args: Seq<Value>) -> Outcome<Value> {
    let cb = arg_at(args, 1);
    if !cb.callable() {
        w.throw(ErrorKind::Type, "Object.groupBy callback is not callable")
    } else {
        let (w, g) = grouped_by(w, arg_at(args, 0), cb, false);
        match g {
            Err(e) => (w, Err(e)),
            Ok(g) => {
                let (w, result) = w.plain(Op::NewWithPrototype(Value::Null), Seq::empty());
                (groups_stored(w, g, 0, result), Ok(result))
            },
        }
    }
}

pub fn object_group_by(i: &mut Interp, args: &[Value]) -> (r: Result<Value, Value>)
    ensures
        (final(i)@, r) == object_grouped(old(i)@, args@),
{
    let cb = arg(args, 1);
    if !cb.is_callable() {
        return i.type_error("Object.groupBy callback is not callable");
    }
    let groups: Vec<Group> = group_by(i, arg(args, 0), cb, false)?;
    let ghost g = group_views(groups@);
    // groupBy returns a null-prototype object
    let result = i.perform(Op::NewWithPrototype(Value::Null));
    let mut j: usize = 0;
    let ghost start = i@;
    while j < groups.len()
        invariant
            j <= groups@.len(),
            g == group_views(groups@),
            groups_stored(start, g, 0, result) == groups_stored(i@, g, j as int, result),
        decreases groups@.len() - j,
    {
        assert(g[j as int] == groups@[j as int]@);
        let members = copy_list(&groups[j].members);
        let a = i.make_array(members);
        let _ = i.perform(
            Op::StoreProperty(
                result,
                Key::Of(groups[j].key),
                Property::new_data(a, true, true, true),
            ),
        );
        j += 1;
    }
    Ok(result)
}

/// A copy of a list of values.
pub fn copy_list(v: &Vec<Value>) -> (r: Vec<Value>)
    ensures
        r@ == v@,
{
    let mut out: Vec<Value> = Vec::new();
    let mut j: usize = 0;
    while j < v.len()
        invariant
            j <= v@.len(),
            out@ == v@.subrange(0, j as int),
        decreases v@.len() - j,
    {
        out.push(v[j]);
        assert(v@.subrange(0, j + 1) =~= v@.subrange(0, j as int).push(v@[j as int]));
        j += 1;
    }
    assert(v@.subrange(0, j as int) =~= v@);
    out
}

/// Grouping loses no element and puts each under its own key, in order.
pub proof fn law_grouping_appends(g: Seq<(Value, Seq<Value>)>, key: Value, el: Value, other: Value)
    ensures
        members_of(grouped(g, key, el), key) == members_of(g, key).push(el),
        !same_zero(other, key) ==> members_of(grouped(g, key, el), other) == members_of(g, other),
    decreases g.len(),
{
    let h = grouped(g, key, el);
    law_same_value_zero_is_equivalence(key, other, key);
    if g.len() > 0 {
        let rest = g.drop_first();
        law_same_value_zero_is_equivalence(g[0].0, key, other);
        law_same_value_zero_is_equivalence(other, g[0].0, key);
        if same_zero(g[0].0, key) {
            assert(h.drop_first() =~= rest);
        } else {
            law_grouping_appends(rest, key, el, other);
            assert(h.drop_first() =~= grouped(rest, key, el));
        }
    } else {
        assert(h.drop_first() =~= Seq::empty());
        assert(members_of(h.drop_first(), other) == Seq::<Value>::empty());
        assert(members_of(h, key) =~= seq![el]);
        assert(Seq::<Value>::empty().push(el) =~= seq![el]);
    }
}

/// The elements of the first group under `key`.
pub open spec fn members_of(g: Seq<(Value, Seq<Value>)>, key: Value) -> Seq<Value>
    decreases g.len(),
{
    if g.len() == 0 {
        Seq::empty()
    } else if same_zero(g[0].0, key) {
        g[0].1
    } else {
        members_of(g.drop_first(), key)
    }
}

// toString and friends

/// IsArray: a proxy is an array where its target is.
pub open spec fn array_tested(w: World, v: Value) -> Outcome<bool>
    decreases w.left(),
{
    let (w1, pair) = w.proxy(v);
    match pair {
        Some((target, handler)) => if handler == Value::Null {
            w1.throw(ErrorKind::Type, "Cannot perform IsArray on a revoked Proxy")
        } else {
            array_tested(w1, target)
        },
        None => if v.object() {
            let (w2, b) = w1.yes(Op::IsArrayExotic(v));
            (w2, Ok(b))
        } else {
            (w1, Ok(false))
        },
    }
}

/// IsArray, seeing through proxies (a Proxy whose target is an Array is itself an Array).
pub fn json_is_array(i: &mut Interp, v: Value) -> (r: Result<bool, Value>)
    ensures
        (final(i)@, r) == array_tested(old(i)@, v),
    decreases old(i)@.left(),
{
    match i.proxy_pair(v) {
        Some((target, handler)) => {
            if handler == Value::Null {
                return i.type_error("Cannot perform IsArray on a revoked Proxy");
            }
            json_is_array(i, target)
        },
        None => if v.is_object() {
            Ok(i.ask_yes(Op::IsArrayExotic(v)))
        } else {
            Ok(false)
        },
    }
}

/// The code units of `[object `.
pub open spec fn tag_open() -> Seq<u16> {
    seq![0x5bu16, 0x6f, 0x62, 0x6a, 0x65, 0x63, 0x74, 0x20]
}

pub open spec fn tag_undefined() -> Seq<u16> {
    seq![0x55u16, 0x6e, 0x64, 0x65, 0x66, 0x69, 0x6e, 0x65, 0x64]
}

pub open spec fn tag_null() -> Seq<u16> {
    seq![0x4eu16, 0x75, 0x6c, 0x6c]
}

/// `[object tag]`.
pub open spec fn tagged(tag: Seq<u16>) -> Seq<u16> {
    (tag_open() + tag).push(0x5du16)
}

fn write_tag(tag: &Vec<u16>) -> (r: Vec<u16>)
    ensures
        r@ == tagged(tag@),
{
    let mut out: Vec<u16> = vec![0x5bu16, 0x6f, 0x62, 0x6a, 0x65, 0x63, 0x74, 0x20];
    assert(out@ =~= tag_open());
    crate::text::push_units(&mut out, tag);
    out.push(0x5d);
    out
}

/// What `Object.prototype.toString` calls a value without a tag of its own.
#[derive(Clone, Copy, PartialEq, Eq, Structural, Debug)]
pub enum BuiltinTag {
    Array,
    Arguments,
    Function,
    Error,
    Boolean,
    Number,
    Text,
    Date,
    RegExp,
    Plain,
}

pub open spec fn tag_text(t: BuiltinTag) -> Seq<u16> {
    match t {
        BuiltinTag::Array => seq![0x41u16, 0x72, 0x72, 0x61, 0x79],
        BuiltinTag::Arguments => seq![0x41u16, 0x72, 0x67, 0x75, 0x6d, 0x65, 0x6e, 0x74, 0x73],
        BuiltinTag::Function => seq![0x46u16, 0x75, 0x6e, 0x63, 0x74, 0x69, 0x6f, 0x6e],
        BuiltinTag::Error => seq![0x45u16, 0x72, 0x72, 0x6f, 0x72],
        BuiltinTag::Boolean => seq![0x42u16, 0x6f, 0x6f, 0x6c, 0x65, 0x61, 0x6e],
        BuiltinTag::Number => seq![0x4eu16, 0x75, 0x6d, 0x62, 0x65, 0x72],
        BuiltinTag::Text => seq![0x53u16, 0x74, 0x72, 0x69, 0x6e, 0x67],
        BuiltinTag::Date => seq![0x44u16, 0x61, 0x74, 0x65],
        BuiltinTag::RegExp => seq![0x52u16, 0x65, 0x67, 0x45, 0x78, 0x70],
        BuiltinTag::Plain => seq![0x4fu16, 0x62, 0x6a, 0x65, 0x63, 0x74],
    }
}

fn tag_units(t: BuiltinTag) -> (r: Vec<u16>)
    ensures
        r@ == tag_text(t),
{
    let r: Vec<u16> = match t {
        BuiltinTag::Array => vec![0x41u16, 0x72, 0x72, 0x61, 0x79],
        BuiltinTag::Arguments => vec![0x41u16, 0x72, 0x67, 0x75, 0x6d, 0x65, 0x6e, 0x74, 0x73],
        BuiltinTag::Function => vec![0x46u16, 0x75, 0x6e, 0x63, 0x74, 0x69, 0x6f, 0x6e],
        BuiltinTag::Error => vec![0x45u16, 0x72, 0x72, 0x6f, 0x72],
        BuiltinTag::Boolean => vec![0x42u16, 0x6f, 0x6f, 0x6c, 0x65, 0x61, 0x6e],
        BuiltinTag::Number => vec![0x4eu16, 0x75, 0x6d, 0x62, 0x65, 0x72],
        BuiltinTag::Text => vec![0x53u16, 0x74, 0x72, 0x69, 0x6e, 0x67],
        BuiltinTag::Date => vec![0x44u16, 0x61, 0x74, 0x65],
        BuiltinTag::RegExp => vec![0x52u16, 0x65, 0x67, 0x45, 0x78, 0x70],
        BuiltinTag::Plain => vec![0x4fu16, 0x62, 0x6a, 0x65, 0x63, 0x74],
    };
    assert(r@ =~= tag_text(t));
    r
}

/// Tells a tag by a slot, or goes on.
pub open spec fn tag_or(w: World, o: Value, slot: Brand, tag: BuiltinTag, otherwise: spec_fn(World) -> (
    World,
    BuiltinTag,
)) -> (World, BuiltinTag) {
    let (w, yes) = w.yes(Op::HasBrand(o, slot));
    if yes {
        (w, tag)
    } else {
        otherwise(w)
    }
}

/// The tag of a wrapper, a date or a regular expression; anything else is a plain object.
pub open spec fn wrapper_tag(w: World, o: Value) -> (World, BuiltinTag) {
    tag_or(
        w,
        o,
        Brand::BooleanData,
        BuiltinTag::Boolean,
        |w: World|
            tag_or(
                w,
                o,
                Brand::NumberData,
                BuiltinTag::Number,
                |w: World|
                    tag_or(
                        w,
                        o,
                        Brand::StringData,
                        BuiltinTag::Text,
                        |w: World|
                            tag_or(
                                w,
                                o,
                                Brand::DateData,
                                BuiltinTag::Date,
                                |w: World|
                                    tag_or(
                                        w,
                                        o,
                                        Brand::RegExpData,
                                        BuiltinTag::RegExp,
                                        |w: World| (w, BuiltinTag::Plain),
                                    ),
                            ),
                    ),
            ),
    )
}

/// The builtin tag of a value.
pub open spec fn builtin_tag_of(w: World, this: Value) -> (World, BuiltinTag) {
    match this {
        Value::Num(_) => (w, BuiltinTag::Number),
        Value::Str(_) => (w, BuiltinTag::Text),
        Value::Bool(_) => (w, BuiltinTag::Boolean),
        Value::Obj(_) => {
            let (w, array) = w.yes(Op::IsArrayExotic(this));
            if array {
                (w, BuiltinTag::Array)
            } else {
                tag_or(
                    w,
                    this,
                    Brand::ArgumentsData,
                    BuiltinTag::Arguments,
                    |w: World|
                        if this.callable() {
                            (w, BuiltinTag::Function)
                        } else {
                            tag_or(
                                w,
                                this,
                                Brand::ErrorData,
                                BuiltinTag::Error,
                                |w: World| wrapper_tag(w, this),
                            )
                        },
                )
            }
        },
        _ => (w, BuiltinTag::Plain),
    }
}

/// The Object.prototype.toString builtin tag for `this` (the `[object <tag>]` body without an
/// overriding `@@toStringTag`).
pub fn builtin_tag(i: &mut Interp, this: Value) -> (r: BuiltinTag)
    ensures
        (final(i)@, r) == builtin_tag_of(old(i)@, this),
{
    match this {
        Value::Num(_) => BuiltinTag::Number,
        Value::Str(_) => BuiltinTag::Text,
        Value::Bool(_) => BuiltinTag::Boolean,
        Value::Obj(_) => {
            if i.ask_yes(Op::IsArrayExotic(this)) {
                BuiltinTag::Array
            } else if i.ask_yes(Op::HasBrand(this, Brand::ArgumentsData)) {
                BuiltinTag::Arguments
            } else if this.is_callable() {
                BuiltinTag::Function
            } else if i.ask_yes(Op::HasBrand(this, Brand::ErrorData)) {
                BuiltinTag::Error
            } else if i.ask_yes(Op::HasBrand(this, Brand::BooleanData)) {
                BuiltinTag::Boolean
            } else if i.ask_yes(Op::HasBrand(this, Brand::NumberData)) {
                BuiltinTag::Number
            } else if i.ask_yes(Op::HasBrand(this, Brand::StringData)) {
                BuiltinTag::Text
            } else if i.ask_yes(Op::HasBrand(this, Brand::DateData)) {
                BuiltinTag::Date
            } else if i.ask_yes(Op::HasBrand(this, Brand::RegExpData)) {
                BuiltinTag::RegExp
            } else {
                BuiltinTag::Plain
            }
        },
        _ => BuiltinTag::Plain,
    }
}

/// The tag of a value without one of its own.
pub open spec fn default_tag(w: World, this: Value) -> Outcome<Seq<u16>> {
    let (w, is_array) = array_tested(w, this);
    match is_array {
        Err(e) => (w, Err(e)),
        Ok(true) => (w, Ok(tag_text(BuiltinTag::Array))),
        Ok(false) => {
            let (w, t) = builtin_tag_of(w, this);
            (w, Ok(tag_text(t)))
        },
    }
}

/// `Object.prototype.toString`.
pub open spec fn stringified(w: World, this: Value) -> Outcome<Value> {
    if this == Value::Undefined {
        w.text_value(tagged(tag_undefined()))
    } else if this == Value::Null {
        w.text_value(tagged(tag_null()))
    } else {
        let (w, builtin) = default_tag(w, this);
        match builtin {
            Err(e) => (w, Err(e)),
            Ok(builtin) => {
                let (w, own) = w.get(this, Key::Symbol(WellKnown::ToStringTag));
                match own {
                    Err(e) => (w, Err(e)),
                    Ok(Value::Str(s)) => w.text_value(tagged(w.units(s))),
                    Ok(_) => w.text_value(tagged(builtin)),
                }
            },
        }
    }
}

pub fn object_to_string(i: &mut Interp, this: Value) -> (r: Result<Value, Value>)
    ensures
        (final(i)@, r) == stringified(old(i)@, this),
{
    if this.is_undefined() {
        let tag: Vec<u16> = vec![0x55u16, 0x6e, 0x64, 0x65, 0x66, 0x69, 0x6e, 0x65, 0x64];
        assert(tag@ =~= tag_undefined());
        return i.text_value(write_tag(&tag));
    }
    if this == Value::Null {
        let tag: Vec<u16> = vec![0x4eu16, 0x75, 0x6c, 0x6c];
        assert(tag@ =~= tag_null());
        return i.text_value(write_tag(&tag));
    }
    // IsArray pierces proxies (a revoked proxy throws).
    let builtin: Vec<u16> = if json_is_array(i, this)? {
        tag_units(BuiltinTag::Array)
    } else {
        let t = builtin_tag(i, this);
        tag_units(t)
    };
    match i.get_member(this, Key::Symbol(WellKnown::ToStringTag))? {
        Value::Str(s) => {
            let own = i.units(s);
            i.text_value(write_tag(&own))
        },
        _ => i.text_value(write_tag(&builtin)),
    }
}

/// `Object.prototype.toLocaleString`: the receiver's own `toString`.
pub open spec fn locally_stringified(w: World, this: Value) -> Outcome<Value> {
    let (w, f) = w.get(this, Key::Name("toString"));
    match f {
        Err(e) => (w, Err(e)),
        Ok(f) => if !f.callable() {
            w.throw(ErrorKind::Type, "toString is not callable")
        } else {
            w.call(f, this, Seq::empty())
        },
    }
}

pub fn object_to_locale_string(i: &mut Interp, this: Value) -> (r: Result<Value, Value>)
    ensures
        (final(i)@, r) == locally_stringified(old(i)@, this),
{
    let f = i.get_member(this, Key::Name("toString"))?;
    if !f.is_callable() {
        return i.type_error("toString is not callable");
    }
    let args: Vec<Value> = Vec::new();
    assert(args@ =~= Seq::<Value>::empty());
    i.call(f, this, args)
}

/// The `Object` constructor: a subclass instance for a foreign new target, otherwise ToObject with
/// a fresh object for null and undefined.
pub open spec fn constructed(w: World, args: Seq<Value>) -> Outcome<Value> {
    let (w, nt) = w.plain(Op::NewTarget, Seq::empty());
    let (w, own) = if nt.object() {
        w.yes(Op::IsObjectConstructor(nt))
    } else {
        (w, true)
    };
    if nt.object() && !own {
        created_from(w, nt, "Object")
    } else {
        let v = arg_at(args, 0);
        if v.nullish() {
            let (w, o) = w.plain(Op::NewObject, Seq::empty());
            (w, Ok(o))
        } else if v.object() {
            (w, Ok(v))
        } else {
            let (w, o) = wrapped(w, v);
            (w, Ok(o))
        }
    }
}

pub fn object_constructor(i: &mut Interp, args: &[Value]) -> (r: Result<Value, Value>)
    ensures
        (final(i)@, r) == constructed(old(i)@, args@),
{
    // `new Object()` with a newTarget other than %Object% itself (a subclass or a
    // Reflect.construct target): OrdinaryCreateFromConstructor(newTarget, %Object.prototype%).
    let nt = i.perform(Op::NewTarget);
    if nt.is_object() {
        if !i.ask_yes(Op::IsObjectConstructor(nt)) {
            return new_from_ctor(i, nt, "Object");
        }
    }
    let v = arg(args, 0);
    if v.is_nullish() {
        Ok(i.perform(Op::NewObject))
    } else if v.is_object() {
        Ok(v)
    } else {
        // ToObject of a primitive yields its wrapper object.
        Ok(box_primitive(i, v))
    }
}

/// `Object.is`.
pub fn object_is(args: &[Value]) -> (r: Value)
    ensures
        r == Value::Bool(same(arg_at(args@, 0), arg_at(args@, 1))),
{
    Value::Bool(same_value(arg(args, 0), arg(args, 1)))
}

// [[Get]] and [[Set]] with a receiver

/// OrdinaryGet: the value found along the chain from `current`; a getter runs on `receiver`.
pub open spec fn got_for(w: World, current: Value, key: Value, receiver: Value) -> Outcome<Value>
    decreases w.left(),
{
    let (w1, pair) = w.proxy(current);
    if pair is Some {
        w1.value(Op::GetFor(current, Key::Of(key), receiver), Seq::empty())
    } else if !current.object() {
        (w1, Ok(Value::Undefined))
    } else {
        let (w1, t) = w1.triggered(current, key);
        let (w2, class) = w1.class(current, Key::Of(key));
        if t is Err {
            (w1, Err(t->Err_0))
        } else if class == KeyClass::NoElement {
            (w2, Ok(Value::Undefined))
        } else {
            let (w3, own) = w2.property(Op::OwnProperty(current, Key::Of(key)));
            match own {
                Err(e) => (w3, Err(e)),
                Ok(Some(p)) => if p.accessor {
                    if p.get.callable() {
                        w3.call(p.get, receiver, Seq::empty())
                    } else {
                        (w3, Ok(Value::Undefined))
                    }
                } else {
                    (w3, Ok(p.value))
                },
                Ok(None) => {
                    let (w4, proto) = w3.plain(Op::Prototype(current), Seq::empty());
                    if proto.object() {
                        got_for(w4, proto, key, receiver)
                    } else {
                        (w4, Ok(Value::Undefined))
                    }
                },
            }
        }
    }
}

/// OrdinaryGet(target, key, receiver): walk target's chain; a data property returns its value, an
/// accessor invokes its getter with `receiver` as `this`. A proxy on the chain answers by its own
/// [[Get]], with the receiver handed on.
pub fn reflect_ordinary_get(i: &mut Interp, target: Value, key: Value, receiver: Value) -> (r: Result<
    Value,
    Value,
>)
    ensures
        (final(i)@, r) == got_for(old(i)@, target, key, receiver),
{
    let mut current = target;
    loop
        invariant
            got_for(old(i)@, target, key, receiver) == got_for(i@, current, key, receiver),
        decreases i@.left(),
    {
        if i.proxy_pair(current).is_some() {
            return i.value_of(Op::GetFor(current, Key::Of(key), receiver));
        }
        if !current.is_object() {
            return Ok(Value::Undefined);
        }
        // A deferred namespace on the chain triggers its module's evaluation before the read.
        i.trigger(current, key)?;
        // A canonical-numeric non-index of a typed array short-circuits to undefined without
        // consulting the prototype chain.
        if i.classify(current, Key::Of(key)) == KeyClass::NoElement {
            return Ok(Value::Undefined);
        }
        match i.ask_property(Op::OwnProperty(current, Key::Of(key)))? {
            Some(p) => {
                if !p.accessor {
                    return Ok(p.value);
                }
                if p.get.is_callable() {
                    let args: Vec<Value> = Vec::new();
                    assert(args@ =~= Seq::<Value>::empty());
                    return i.call(p.get, receiver, args);
                }
                return Ok(Value::Undefined);
            },
            None => {},
        }
        current = i.perform(Op::Prototype(current));
        if !current.is_object() {
            return Ok(Value::Undefined);
        }
    }
}

pub open spec fn value_desc(v: Value) -> PartialDesc {
    PartialDesc {
        value: Some(v),
        get: None,
        set: None,
        writable: None,
        enumerable: None,
        configurable: None,
    }
}

pub open spec fn full_desc(v: Value) -> PartialDesc {
    PartialDesc {
        value: Some(v),
        get: None,
        set: None,
        writable: Some(true),
        enumerable: Some(true),
        configurable: Some(true),
    }
}

/// A writable data assignment applied to the receiver of a [[Set]].
pub open spec fn receiver_written(w: World, receiver: Value, key: Value, value: Value) -> Outcome<bool> {
    let (w, pair) = w.proxy(receiver);
    if pair is Some {
        let (w, existing) = own_property_of(w, receiver, key);
        match existing {
            Err(e) => (w, Err(e)),
            Ok(Some(p)) => if p.accessor || !p.writable {
                (w, Ok(false))
            } else {
                property_defined(w, receiver, key, value_desc(value))
            },
            Ok(None) => property_defined(w, receiver, key, full_desc(value)),
        }
    } else if !receiver.object() {
        (w, Ok(false))
    } else {
        let (w, class) = w.class(receiver, Key::Of(key));
        match class {
            KeyClass::Element(idx) => {
                let (w, r) = w.value(Op::StoreElement(receiver, idx, value), Seq::empty());
                match r {
                    Err(e) => (w, Err(e)),
                    Ok(_) => (w, Ok(true)),
                }
            },
            KeyClass::NoElement => (w, Ok(false)),
            KeyClass::HostIndex => (w, Ok(false)),
            _ => {
                let (w, is_array) = w.yes(Op::IsArrayExotic(receiver));
                if is_array {
                    let (w, r) = w.value(
                        Op::SetFor(receiver, Key::Of(key), value, receiver),
                        Seq::empty(),
                    );
                    match r {
                        Err(e) => (w, Err(e)),
                        Ok(r) => (w, Ok(r == Value::Bool(true))),
                    }
                } else {
                    let (w, existing) = w.property(Op::OwnProperty(receiver, Key::Of(key)));
                    match existing {
                        Err(e) => (w, Err(e)),
                        Ok(Some(p)) => if p.accessor || !p.writable {
                            (w, Ok(false))
                        } else {
                            let (w, _) = w.plain(
                                Op::StoreProperty(
                                    receiver,
                                    Key::Of(key),
                                    Property { value, ..p },
                                ),
                                Seq::empty(),
                            );
                            (w, Ok(true))
                        },
                        Ok(None) => {
                            let (w, extensible) = w.yes(Op::Extensible(receiver));
                            if !extensible {
                                (w, Ok(false))
                            } else {
                                let (w, _) = w.plain(
                                    Op::StoreProperty(
                                        receiver,
                                        Key::Of(key),
                                        plain_property(value),
                                    ),
                                    Seq::empty(),
                                );
                                (w, Ok(true))
                            }
                        },
                    }
                }
            },
        }
    }
}

/// Apply a writable data assignment to `receiver`: update an existing writable data property, or
/// CreateDataProperty when absent (respecting extensibility); accessor/non-writable existing →
/// false.
pub fn reflect_define_on_receiver(i: &mut Interp, receiver: Value, key: Value, value: Value) -> (r:
    Result<bool, Value>)
    ensures
        (final(i)@, r) == receiver_written(old(i)@, receiver, key, value),
{
    if i.proxy_pair(receiver).is_some() {
        // The receiver's [[GetOwnProperty]] runs first (its trap is observable); an existing
        // accessor or non-writable property rejects, an existing data property is redefined with
        // just {value}, and an absent one gets CreateDataProperty.
        return match js_own_property(i, receiver, key)? {
            Some(p) => {
                if p.accessor || !p.writable {
                    return Ok(false);
                }
                let d = PartialDesc {
                    value: Some(value),
                    get: None,
                    set: None,
                    writable: None,
                    enumerable: None,
                    configurable: None,
                };
                js_define_property(i, receiver, key, d)
            },
            None => {
                let d = PartialDesc {
                    value: Some(value),
                    get: None,
                    set: None,
                    writable: Some(true),
                    enumerable: Some(true),
                    configurable: Some(true),
                };
                js_define_property(i, receiver, key, d)
            },
        };
    }
    if !receiver.is_object() {
        return Ok(false);
    }
    match i.classify(receiver, Key::Of(key)) {
        // A TypedArray receiver's integer index is written through its exotic
        // [[DefineOwnProperty]], not stored as an ordinary property.
        KeyClass::Element(idx) => {
            i.value_of(Op::StoreElement(receiver, idx, value))?;
            return Ok(true);
        },
        KeyClass::NoElement => return Ok(false),
        KeyClass::HostIndex => return Ok(false),
        _ => {},
    }
    // An Array receiver's `length` (and index writes) go through the exotic [[Set]] semantics
    // (double coercion, RangeError, truncation) rather than a raw property write.
    if i.ask_yes(Op::IsArrayExotic(receiver)) {
        let r = i.value_of(Op::SetFor(receiver, Key::Of(key), value, receiver))?;
        return Ok(r == Value::Bool(true));
    }
    match i.ask_property(Op::OwnProperty(receiver, Key::Of(key)))? {
        Some(p) => {
            if p.accessor || !p.writable {
                return Ok(false);
            }
            let mut q = p;
            q.value = value;
            let _ = i.perform(Op::StoreProperty(receiver, Key::Of(key), q));
            Ok(true)
        },
        None => {
            if !i.ask_yes(Op::Extensible(receiver)) {
                return Ok(false);
            }
            let q = Property::new_data(value, true, true, true);
            let _ = i.perform(Op::StoreProperty(receiver, Key::Of(key), q));
            Ok(true)
        },
    }
}

/// OrdinarySet along the chain from `current`.
pub open spec fn set_along(
    w: World,
    current: Value,
    key: Value,
    value: Value,
    receiver: Value,
) -> Outcome<bool>
    decreases w.left(),
{
    let (w1, pair) = w.proxy(current);
    if pair is Some {
        let (w2, r) = w1.value(Op::SetFor(current, Key::Of(key), value, receiver), Seq::empty());
        match r {
            Err(e) => (w2, Err(e)),
            Ok(r) => (w2, Ok(r == Value::Bool(true))),
        }
    } else if !current.object() {
        (w1, Ok(false))
    } else {
        let (w2, class) = w1.class(current, Key::Of(key));
        let element = class is Element || class == KeyClass::NoElement;
        if element && current == receiver {
            let (w3, r) = w2.value(Op::WriteElement(current, Key::Of(key), value), Seq::empty());
            match r {
                Err(e) => (w3, Err(e)),
                Ok(_) => (w3, Ok(true)),
            }
        } else if class == KeyClass::NoElement {
            (w2, Ok(true))
        } else if class is Element {
            receiver_written(w2, receiver, key, value)
        } else {
            let (w3, own) = w2.property(Op::OwnProperty(current, Key::Of(key)));
            match own {
                Err(e) => (w3, Err(e)),
                Ok(Some(p)) => if class == KeyClass::HostIndex {
                    (w3, Ok(false))
                } else if p.accessor {
                    if p.set.callable() {
                        let (w4, r) = w3.call(p.set, receiver, seq![value]);
                        match r {
                            Err(e) => (w4, Err(e)),
                            Ok(_) => (w4, Ok(true)),
                        }
                    } else {
                        (w3, Ok(false))
                    }
                } else if !p.writable {
                    (w3, Ok(false))
                } else {
                    receiver_written(w3, receiver, key, value)
                },
                Ok(None) => {
                    let (w4, proto) = w3.plain(Op::Prototype(current), Seq::empty());
                    if proto.object() {
                        set_along(w4, proto, key, value, receiver)
                    } else {
                        receiver_written(w4, receiver, key, value)
                    }
                },
            }
        }
    }
}

/// OrdinarySet: whether it succeeded.
pub open spec fn set_for(w: World, target: Value, key: Value, value: Value, receiver: Value) -> Outcome<
    bool,
> {
    let (w, fixed) = if target.object() {
        w.yes(Op::IsNamespace(target))
    } else {
        (w, false)
    };
    if fixed {
        (w, Ok(false))
    } else {
        set_along(w, target, key, value, receiver)
    }
}

/// OrdinarySet(target, key, value, receiver): walks target's prototype chain to find the
/// controlling descriptor, then applies the result on `receiver` (which may differ from `target`).
/// Returns the success boolean. A proxy on the chain answers by its own [[Set]].
pub fn reflect_ordinary_set(
    i: &mut Interp,
    target: Value,
    key: Value,
    value: Value,
    receiver: Value,
) -> (r: Result<bool, Value>)
    ensures
        (final(i)@, r) == set_for(old(i)@, target, key, value, receiver),
{
    // A module namespace exotic object's [[Set]] always returns false.
    if target.is_object() {
        if i.ask_yes(Op::IsNamespace(target)) {
            return Ok(false);
        }
    }
    let mut current = target;
    loop
        invariant
            set_for(old(i)@, target, key, value, receiver) == set_along(
                i@,
                current,
                key,
                value,
                receiver,
            ),
        decreases i@.left(),
    {
        if i.proxy_pair(current).is_some() {
            // A proxy's [[Set]] returns its own success boolean (via the trap or a forwarded
            // [[Set]]).
            let r = i.value_of(Op::SetFor(current, Key::Of(key), value, receiver))?;
            return Ok(r == Value::Bool(true));
        }
        if !current.is_object() {
            return Ok(false);
        }
        let class = i.classify(current, Key::Of(key));
        // Integer-indexed exotic [[Set]] — applies to the target or any TypedArray reached along
        // the prototype chain. With the TypedArray itself as receiver the value is coerced
        // unconditionally and written only in range; with a foreign receiver, a valid index acts
        // as a writable data property (created on the receiver) and a canonical non-index is an
        // inert success.
        match class {
            KeyClass::Element(_) => {
                if current == receiver {
                    i.value_of(Op::WriteElement(current, Key::Of(key), value))?;
                    return Ok(true);
                }
                return reflect_define_on_receiver(i, receiver, key, value);
            },
            KeyClass::NoElement => {
                if current == receiver {
                    i.value_of(Op::WriteElement(current, Key::Of(key), value))?;
                }
                return Ok(true);
            },
            _ => {},
        }
        match i.ask_property(Op::OwnProperty(current, Key::Of(key)))? {
            Some(p) => {
                if class == KeyClass::HostIndex {
                    return Ok(false);
                }
                if p.accessor {
                    if !p.set.is_callable() {
                        return Ok(false);
                    }
                    let args = vec![value];
                    assert(args@ =~= seq![value]);
                    i.call(p.set, receiver, args)?;
                    return Ok(true);
                }
                if !p.writable {
                    return Ok(false);
                }
                return reflect_define_on_receiver(i, receiver, key, value);
            },
            None => {},
        }
        let proto = i.perform(Op::Prototype(current));
        if !proto.is_object() {
            return reflect_define_on_receiver(i, receiver, key, value);
        }
        current = proto;
    }
}

// Helpers of the array mutators

/// CreateDataPropertyOrThrow.
pub open spec fn data_created(w: World, holder: Value, key: Value, v: Value) -> Outcome<()> {
    let (w, ok) = property_defined(w, holder, key, full_desc(v));
    match ok {
        Err(e) => (w, Err(e)),
        Ok(true) => (w, Ok(())),
        Ok(false) => w.throw_about(ErrorKind::Type, "cannot define element '{}'", key),
    }
}

/// CreateDataPropertyOrThrow (trap-aware for proxy targets).
pub fn cdp_or_throw(i: &mut Interp, target: Value, key: Value, v: Value) -> (r: Result<(), Value>)
    ensures
        (final(i)@, r) == (if target.object() {
            let (w, t) = old(i)@.triggered(target, key);
            match t {
                Err(e) => (w, Err(e)),
                Ok(_) => data_created(w, target, key, v),
            }
        } else {
            old(i)@.throw(ErrorKind::Type, "cannot define a property on a non-object")
        }),
{
    if !target.is_object() {
        return i.type_error("cannot define a property on a non-object");
    }
    i.trigger(target, key)?;
    let d = PartialDesc {
        value: Some(v),
        get: None,
        set: None,
        writable: Some(true),
        enumerable: Some(true),
        configurable: Some(true),
    };
    if js_define_property(i, target, key, d)? {
        Ok(())
    } else {
        i.type_error_about("cannot define element '{}'", key)
    }
}

/// DeletePropertyOrThrow of an object that is no proxy: an absent property deletes successfully,
/// and a non-configurable one throws.
pub open spec fn deleted(w: World, holder: Value, key: Value) -> Outcome<()> {
    let (w, pair) = w.proxy(holder);
    if pair is Some {
        let (w, r) = w.value(Op::Delete(holder, Key::Of(key)), Seq::empty());
        match r {
            Err(e) => (w, Err(e)),
            Ok(r) => if r == Value::Bool(true) {
                (w, Ok(()))
            } else {
                w.throw_about(ErrorKind::Type, "Cannot delete property '{}'", key)
            },
        }
    } else if !holder.object() {
        (w, Ok(()))
    } else {
        let (w, class) = w.class(holder, Key::Of(key));
        let (w, p) = w.property(Op::OwnProperty(holder, Key::Of(key)));
        match p {
            Err(e) => (w, Err(e)),
            Ok(None) => (w, Ok(())),
            Ok(Some(p)) => if class == KeyClass::HostIndex || !p.configurable {
                w.throw_about(ErrorKind::Type, "Cannot delete property '{}'", key)
            } else {
                let (w, _) = w.plain(Op::RemoveProperty(holder, Key::Of(key)), Seq::empty());
                (w, Ok(()))
            },
        }
    }
}

/// DeletePropertyOrThrow(O, P): [[Delete]] and throw a TypeError if it returns false. An absent
/// property deletes successfully, matching what the Array mutators use.
pub fn delete_or_throw(i: &mut Interp, holder: Value, key: Value) -> (r: Result<(), Value>)
    ensures
        (final(i)@, r) == deleted(old(i)@, holder, key),
{
    if i.proxy_pair(holder).is_some() {
        let r = i.value_of(Op::Delete(holder, Key::Of(key)))?;
        if r == Value::Bool(true) {
            return Ok(());
        }
        return i.type_error_about("Cannot delete property '{}'", key);
    }
    if !holder.is_object() {
        return Ok(());
    }
    let class = i.classify(holder, Key::Of(key));
    match i.ask_property(Op::OwnProperty(holder, Key::Of(key)))? {
        None => Ok(()),
        Some(p) => {
            if class == KeyClass::HostIndex || !p.configurable {
                return i.type_error_about("Cannot delete property '{}'", key);
            }
            let _ = i.perform(Op::RemoveProperty(holder, Key::Of(key)));
            Ok(())
        },
    }
}

/// `Function.prototype.apply`.
pub open spec fn applied(w: World, this: Value, args: Seq<Value>, limit: u64) -> Outcome<Value> {
    let list = arg_at(args, 1);
    if list.nullish() {
        w.call(this, arg_at(args, 0), Seq::empty())
    } else if !list.object() {
        w.throw(ErrorKind::Type, "apply: argument list must be array-like")
    } else {
        let (w, len) = checked_length(w, list, limit);
        match len {
            Err(e) => (w, Err(e)),
            Ok(len) => {
                let (w, l) = list_from(w, list, len as int, 0, Seq::empty());
                match l {
                    Err(e) => (w, Err(e)),
                    Ok(l) => w.call(this, arg_at(args, 0), l),
                }
            },
        }
    }
}

/// `Function.prototype.apply`: the argument list is read before the call.
pub fn nf_function_apply(i: &mut Interp, this: Value, args: &[Value], limit: u64) -> (r: Result<
    Value,
    Value,
>)
    ensures
        (final(i)@, r) == applied(old(i)@, this, args@, limit),
{
    let this_arg = arg(args, 0);
    let list = arg(args, 1);
    if list.is_nullish() {
        let none: Vec<Value> = Vec::new();
        assert(none@ =~= Seq::<Value>::empty());
        return i.call(this, this_arg, none);
    }
    if !list.is_object() {
        return i.type_error("apply: argument list must be array-like");
    }
    let len: u64 = checked_array_len(i, list, limit)?;
    let l: Vec<Value> = read_elements_of(i, list, len)?;
    i.call(this, this_arg, l)
}

// Laws

/// `Object.hasOwn` looks at its object before its key: on null and undefined the key is not
/// touched. `hasOwnProperty` coerces the key first.
pub proof fn law_has_own_order(w: World, v: Value, key: Value)
    requires
        v.nullish(),
        !(key is Str),
        !(key is Sym),
        !w.halted(),
    ensures
        static_has_own(w, seq![v, key]).0.asked == w.asked.push(
            crate::interp::Question {
                op: Op::NewError(ErrorKind::Type, "Object.hasOwn called on null or undefined"),
                list: Seq::empty(),
                state: None,
            },
        ),
        static_has_own(w, seq![v, key]).1 is Err,
        proto_has_own(w, v, seq![key]).0.asked.len() > w.asked.len(),
        proto_has_own(w, v, seq![key]).0.asked[w.asked.len() as int] == (crate::interp::Question {
            op: Op::ToKey(key),
            list: Seq::empty(),
            state: None,
        }),
        proto_has_own(w, v, seq![key]).1 is Err,
{
}

/// Testing for an own property reads no value: on an object that is no proxy, the only question
/// about the property is what it is.
pub proof fn law_has_own_reads_no_value(w: World, o: Value, key: Value)
    requires
        o.object(),
        key is Str || key is Sym,
        w.proxy(o).1 is None,
    ensures
        static_has_own(w, seq![o, key]).0 == w.proxy(o).0.property(
            Op::OwnProperty(o, Key::Of(key)),
        ).0,
{
    reveal_with_fuel(own_property_of, 2);
}

/// Freezing asks of each property no more than a frozen one already is: a property that a
/// definition was let through for no longer fails the test.
pub proof fn law_frozen_properties_pass(p: Property, extensible: bool)
    requires
        p.wf(),
    ensures
        integrity_desc(true, p.accessor).defined(Some(p), extensible) matches Some(q) && {
            &&& !q.configurable
            &&& !q.accessor ==> !q.writable
            &&& q.value == p.value
            &&& q.get == p.get
            &&& q.set == p.set
            &&& q.enumerable == p.enumerable
        },
{
}

/// Sealing changes nothing but configurability.
pub proof fn law_sealing_only_pins(p: Property, extensible: bool)
    requires
        p.wf(),
    ensures
        integrity_desc(false, p.accessor).defined(Some(p), extensible) == Some(
            Property { configurable: false, ..p },
        ),
{
}

} // verus!
