//! The essential internal methods of objects, with proxies and their invariants.
use vstd::prelude::*;
use crate::descriptor::{
    build_partial, complete_descriptor, descriptor_read, validate_and_apply,
};
use crate::equality::{same, same_value, strict_equals, strictly_same};
use crate::interp::{
    ErrorKind, Interp, Key, KeyClass, Op, Outcome, PartialDesc, Property, Value, World,
};
use crate::num;
use crate::own_keys::{ordinary_keys, read_ordinary_keys};
use crate::realm::{make_partial_object, partial_object};

verus! {

// [[IsExtensible]]

/// `[[IsExtensible]]`: a proxy's trap must agree with its target.
pub open spec fn extensible_of(w: World, obj: Value) -> Outcome<bool>
    decreases w.left(),
{
    let (w1, pair) = w.proxy(obj);
    match pair {
        None => if obj.object() {
            let (w2, b) = w1.yes(Op::Extensible(obj));
            (w2, Ok(b))
        } else {
            (w1, Ok(false))
        },
        Some((target, handler)) => if handler == Value::Null {
            w1.throw(ErrorKind::Type, "proxy is revoked")
        } else {
            let (w2, trap) = w1.get(handler, Key::Name("isExtensible"));
            match trap {
                Err(e) => (w2, Err(e)),
                Ok(trap) => if trap.nullish() {
                    extensible_of(w2, target)
                } else if !trap.callable() {
                    w2.throw(ErrorKind::Type, "proxy 'isExtensible' trap is not callable")
                } else {
                    let (w3, res) = w2.call(trap, handler, seq![target]);
                    match res {
                        Err(e) => (w3, Err(e)),
                        Ok(res) => {
                            let (w4, actual) = extensible_of(w3, target);
                            match actual {
                                Err(e) => (w4, Err(e)),
                                Ok(actual) => if w3.truthy(res) != actual {
                                    w4.throw(
                                        ErrorKind::Type,
                                        "proxy 'isExtensible' must match the target",
                                    )
                                } else {
                                    (w4, Ok(actual))
                                },
                            }
                        },
                    }
                },
            }
        },
    }
}

/// `[[IsExtensible]]`, proxy-aware (recurses into a proxy target, enforcing the trap invariant).
pub fn js_is_extensible(i: &mut Interp, obj: Value) -> (r: Result<bool, Value>)
    ensures
        (final(i)@, r) == extensible_of(old(i)@, obj),
    decreases old(i)@.left(),
{
    match i.proxy_pair(obj) {
        None => if obj.is_object() {
            Ok(i.ask_yes(Op::Extensible(obj)))
        } else {
            Ok(false)
        },
        Some((target, handler)) => {
            if handler == Value::Null {
                return i.type_error("proxy is revoked");
            }
            let trap = i.get_member(handler, Key::Name("isExtensible"))?;
            if trap.is_nullish() {
                return js_is_extensible(i, target);
            }
            if !trap.is_callable() {
                return i.type_error("proxy 'isExtensible' trap is not callable");
            }
            let args = vec![target];
            assert(args@ =~= seq![target]);
            let res = i.call(trap, handler, args)?;
            let result = i.to_boolean(res);
            let actual = js_is_extensible(i, target)?;
            if result != actual {
                return i.type_error("proxy 'isExtensible' must match the target");
            }
            Ok(result)
        },
    }
}

// [[GetPrototypeOf]]

/// `[[GetPrototypeOf]]`: a proxy over a non-extensible target must report the target's prototype.
pub open spec fn prototype_of(w: World, obj: Value) -> Outcome<Value>
    decreases w.left(),
    via prototype_of_decreases
{
    let (w1, pair) = w.proxy(obj);
    match pair {
        None => if obj.object() {
            let (w2, p) = w1.plain(Op::Prototype(obj), Seq::empty());
            (
                w2,
                Ok(
                    if p.object() {
                        p
                    } else {
                        Value::Null
                    },
                ),
            )
        } else {
            (w1, Ok(Value::Null))
        },
        Some((target, handler)) => if handler == Value::Null {
            w1.throw(ErrorKind::Type, "proxy is revoked")
        } else {
            let (w2, trap) = w1.get(handler, Key::Name("getPrototypeOf"));
            match trap {
                Err(e) => (w2, Err(e)),
                Ok(trap) => if trap.nullish() {
                    prototype_of(w2, target)
                } else if !trap.callable() {
                    w2.throw(ErrorKind::Type, "proxy 'getPrototypeOf' trap is not callable")
                } else {
                    let (w3, res) = w2.call(trap, handler, seq![target]);
                    match res {
                        Err(e) => (w3, Err(e)),
                        Ok(res) => if !res.object() && res != Value::Null {
                            w3.throw(
                                ErrorKind::Type,
                                "getPrototypeOf trap must return an object or null",
                            )
                        } else {
                            let (w4, ext) = extensible_of(w3, target);
                            match ext {
                                Err(e) => (w4, Err(e)),
                                Ok(true) => (w4, Ok(res)),
                                Ok(false) => {
                                    let (w5, actual) = prototype_of(w4, target);
                                    match actual {
                                        Err(e) => (w5, Err(e)),
                                        Ok(actual) => if !strictly_same(res, actual) {
                                            w5.throw(
                                                ErrorKind::Type,
                                                "getPrototypeOf trap result differs from a non-extensible target's prototype",
                                            )
                                        } else {
                                            (w5, Ok(res))
                                        },
                                    }
                                },
                            }
                        },
                    }
                },
            }
        },
    }
}

#[via_fn]
proof fn prototype_of_decreases(w: World, obj: Value) {
    let (w1, pair) = w.proxy(obj);
    if let Some((target, handler)) = pair {
        let (w2, trap) = w1.get(handler, Key::Name("getPrototypeOf"));
        if let Ok(trap) = trap {
            let (w3, res) = w2.call(trap, handler, seq![target]);
            lemma_extensible_left(w3, target);
        }
    }
}

/// Questions are only ever added, and answers never change.
pub proof fn lemma_extensible_left(w: World, obj: Value)
    ensures
        extensible_of(w, obj).0.left() <= w.left(),
    decreases w.left(),
{
    let (w1, pair) = w.proxy(obj);
    if let Some((target, handler)) = pair {
        if handler != Value::Null {
            let (w2, trap) = w1.get(handler, Key::Name("isExtensible"));
            if let Ok(trap) = trap {
                if trap.nullish() {
                    lemma_extensible_left(w2, target);
                } else if trap.callable() {
                    let (w3, res) = w2.call(trap, handler, seq![target]);
                    if res is Ok {
                        lemma_extensible_left(w3, target);
                    }
                }
            }
        }
    }
}

/// `[[GetPrototypeOf]]`, proxy-aware.
pub fn js_get_prototype_of(i: &mut Interp, obj: Value) -> (r: Result<Value, Value>)
    ensures
        (final(i)@, r) == prototype_of(old(i)@, obj),
    decreases old(i)@.left(),
{
    match i.proxy_pair(obj) {
        None => if obj.is_object() {
            let p = i.perform(Op::Prototype(obj));
            if p.is_object() {
                Ok(p)
            } else {
                Ok(Value::Null)
            }
        } else {
            Ok(Value::Null)
        },
        Some((target, handler)) => {
            if handler == Value::Null {
                return i.type_error("proxy is revoked");
            }
            let trap = i.get_member(handler, Key::Name("getPrototypeOf"))?;
            if trap.is_nullish() {
                // Forward to the target's [[GetPrototypeOf]] (recursing for a proxy target).
                return js_get_prototype_of(i, target);
            }
            if !trap.is_callable() {
                return i.type_error("proxy 'getPrototypeOf' trap is not callable");
            }
            let args = vec![target];
            assert(args@ =~= seq![target]);
            let res = i.call(trap, handler, args)?;
            if !res.is_object() && res != Value::Null {
                return i.type_error("getPrototypeOf trap must return an object or null");
            }
            // IsExtensible(target) runs unconditionally (its trap is observable and may throw); a
            // non-extensible target pins the reported prototype to the real one (via the
            // target's own [[GetPrototypeOf]], which may itself be a trap).
            proof {
                lemma_extensible_left(i@, target);
            }
            let extensible = js_is_extensible(i, target)?;
            if !extensible {
                let actual = js_get_prototype_of(i, target)?;
                if !strict_equals(res, actual) {
                    return i.type_error(
                        "getPrototypeOf trap result differs from a non-extensible target's prototype",
                    );
                }
            }
            Ok(res)
        },
    }
}

pub proof fn lemma_prototype_left(w: World, obj: Value)
    ensures
        prototype_of(w, obj).0.left() <= w.left(),
        prototype_of(w, obj).1 matches Ok(p) && p.object() ==> prototype_of(w, obj).0.left()
            < w.left(),
    decreases w.left(),
{
    let (w1, pair) = w.proxy(obj);
    if let Some((target, handler)) = pair {
        if handler != Value::Null {
            let (w2, trap) = w1.get(handler, Key::Name("getPrototypeOf"));
            if let Ok(trap) = trap {
                if trap.nullish() {
                    lemma_prototype_left(w2, target);
                } else if trap.callable() {
                    let (w3, res) = w2.call(trap, handler, seq![target]);
                    lemma_extensible_left(w3, target);
                    let (w4, ext) = extensible_of(w3, target);
                    if res is Ok && ext is Ok {
                        lemma_prototype_left(w4, target);
                    }
                }
            }
        }
    }
}

// [[SetPrototypeOf]]

/// Whether `o` lies on the prototype chain that starts at `p`. The walk stops at a proxy, whose
/// own answer could differ each time.
pub open spec fn on_chain(w: World, p: Value, o: Value) -> (World, bool)
    decreases w.left(),
{
    if !p.object() {
        (w, false)
    } else if p == o {
        (w, true)
    } else if w.halted() {
        (w, false)
    } else {
        let (w1, pair) = w.proxy(p);
        if pair is Some {
            (w1, false)
        } else {
            let (w2, next) = w1.plain(Op::Prototype(p), Seq::empty());
            on_chain(w2, next, o)
        }
    }
}

fn is_on_chain(i: &mut Interp, start: Value, o: Value) -> (r: bool)
    ensures
        (final(i)@, r) == on_chain(old(i)@, start, o),
{
    let mut p = start;
    loop
        invariant
            on_chain(i@, p, o) == on_chain(old(i)@, start, o),
        decreases i@.left(),
    {
        if !p.is_object() {
            return false;
        }
        if p == o {
            return true;
        }
        if i.is_halted() {
            return false;
        }
        if i.proxy_pair(p).is_some() {
            return false;
        }
        p = i.perform(Op::Prototype(p));
    }
}

/// `[[SetPrototypeOf]]` of an object that is no proxy: a change is refused on `Object.prototype`,
/// on a non-extensible object, and where it would close a cycle.
pub open spec fn ordinary_prototype_set(w: World, obj: Value, proto: Value) -> (World, bool) {
    let (w, cur) = w.plain(Op::Prototype(obj), Seq::empty());
    let cur = if cur.object() {
        cur
    } else {
        Value::Null
    };
    if strictly_same(proto, cur) {
        (w, true)
    } else {
        let (w, fixed) = w.yes(Op::IsObjectPrototype(obj));
        if fixed {
            (w, false)
        } else {
            let (w, extensible) = w.yes(Op::Extensible(obj));
            if !extensible {
                (w, false)
            } else {
                let (w, cycle) = on_chain(w, proto, obj);
                if cycle {
                    (w, false)
                } else {
                    let (w, _) = w.plain(
                        Op::StorePrototype(
                            obj,
                            if proto.object() {
                                proto
                            } else {
                                Value::Null
                            },
                        ),
                        Seq::empty(),
                    );
                    (w, true)
                }
            }
        }
    }
}

fn set_ordinary_prototype(i: &mut Interp, obj: Value, proto: Value) -> (r: bool)
    ensures
        (final(i)@, r) == ordinary_prototype_set(old(i)@, obj, proto),
{
    let stored = i.perform(Op::Prototype(obj));
    let cur = if stored.is_object() {
        stored
    } else {
        Value::Null
    };
    if strict_equals(proto, cur) {
        return true;
    }
    // %Object.prototype% is an immutable-prototype exotic object: any actual change fails.
    if i.ask_yes(Op::IsObjectPrototype(obj)) {
        return false;
    }
    if !i.ask_yes(Op::Extensible(obj)) {
        return false;
    }
    // Cycle check: refuse if `obj` already lies on the candidate prototype's chain.
    if is_on_chain(i, proto, obj) {
        return false;
    }
    let stored = if proto.is_object() {
        proto
    } else {
        Value::Null
    };
    let _ = i.perform(Op::StorePrototype(obj, stored));
    true
}

/// What a proxy's `setPrototypeOf` trap may report: on a non-extensible target, only success that
/// leaves the prototype as it is.
pub open spec fn prototype_report(w: World, target: Value, proto: Value) -> Outcome<bool> {
    let (w, ext) = extensible_of(w, target);
    match ext {
        Err(e) => (w, Err(e)),
        Ok(true) => (w, Ok(true)),
        Ok(false) => {
            let (w, cur) = prototype_of(w, target);
            match cur {
                Err(e) => (w, Err(e)),
                Ok(cur) => if !strictly_same(proto, cur) {
                    w.throw(
                        ErrorKind::Type,
                        "proxy 'setPrototypeOf' changed a non-extensible target's prototype",
                    )
                } else {
                    (w, Ok(true))
                },
            }
        },
    }
}

/// `[[SetPrototypeOf]]`: whether it succeeded.
pub open spec fn prototype_set(w: World, obj: Value, proto: Value) -> Outcome<bool>
    decreases w.left(),
{
    if !obj.object() {
        (w, Ok(true))
    } else {
        let (w1, pair) = w.proxy(obj);
        match pair {
            None => {
                let (w2, b) = ordinary_prototype_set(w1, obj, proto);
                (w2, Ok(b))
            },
            Some((target, handler)) => if handler == Value::Null {
                w1.throw(ErrorKind::Type, "proxy is revoked")
            } else {
                let (w2, trap) = w1.get(handler, Key::Name("setPrototypeOf"));
                match trap {
                    Err(e) => (w2, Err(e)),
                    Ok(trap) => if trap.nullish() {
                        prototype_set(w2, target, proto)
                    } else if !trap.callable() {
                        w2.throw(ErrorKind::Type, "proxy 'setPrototypeOf' trap is not callable")
                    } else {
                        let (w3, res) = w2.call(trap, handler, seq![target, proto]);
                        match res {
                            Err(e) => (w3, Err(e)),
                            Ok(res) => if !w3.truthy(res) {
                                (w3, Ok(false))
                            } else {
                                prototype_report(w3, target, proto)
                            },
                        }
                    },
                }
            },
        }
    }
}

/// `[[SetPrototypeOf]]`, proxy-aware. Returns whether the operation succeeded (Reflect-style).
pub fn js_set_prototype_of(i: &mut Interp, obj: Value, proto: Value) -> (r: Result<bool, Value>)
    ensures
        (final(i)@, r) == prototype_set(old(i)@, obj, proto),
    decreases old(i)@.left(),
{
    if !obj.is_object() {
        return Ok(true);
    }
    match i.proxy_pair(obj) {
        None => Ok(set_ordinary_prototype(i, obj, proto)),
        Some((target, handler)) => {
            if handler == Value::Null {
                return i.type_error("proxy is revoked");
            }
            let trap = i.get_member(handler, Key::Name("setPrototypeOf"))?;
            if trap.is_nullish() {
                return js_set_prototype_of(i, target, proto);
            }
            if !trap.is_callable() {
                return i.type_error("proxy 'setPrototypeOf' trap is not callable");
            }
            let args = vec![target, proto];
            assert(args@ =~= seq![target, proto]);
            let res = i.call(trap, handler, args)?;
            if !i.to_boolean(res) {
                return Ok(false);
            }
            // Invariant: a non-extensible target's prototype can't be changed.
            if !js_is_extensible(i, target)? {
                let cur = js_get_prototype_of(i, target)?;
                if !strict_equals(proto, cur) {
                    return i.type_error(
                        "proxy 'setPrototypeOf' changed a non-extensible target's prototype",
                    );
                }
            }
            Ok(true)
        },
    }
}

// [[PreventExtensions]]

/// `[[PreventExtensions]]`: whether it succeeded. A proxy may report success only where its target
/// is no longer extensible.
pub open spec fn extensions_prevented(w: World, obj: Value) -> Outcome<bool>
    decreases w.left(),
{
    let (w1, pair) = w.proxy(obj);
    match pair {
        None => if !obj.object() {
            (w1, Ok(true))
        } else {
            let (w2, stays) = w1.yes(Op::StaysExtensible(obj));
            if stays {
                (w2, Ok(false))
            } else {
                let (w3, _) = w2.plain(Op::StopExtensions(obj), Seq::empty());
                (w3, Ok(true))
            }
        },
        Some((target, handler)) => if handler == Value::Null {
            w1.throw(ErrorKind::Type, "proxy is revoked")
        } else {
            let (w2, trap) = w1.get(handler, Key::Name("preventExtensions"));
            match trap {
                Err(e) => (w2, Err(e)),
                Ok(trap) => if trap.nullish() {
                    extensions_prevented(w2, target)
                } else if !trap.callable() {
                    w2.throw(ErrorKind::Type, "proxy 'preventExtensions' trap is not callable")
                } else {
                    let (w3, res) = w2.call(trap, handler, seq![target]);
                    match res {
                        Err(e) => (w3, Err(e)),
                        Ok(res) => if !w3.truthy(res) {
                            (w3, Ok(false))
                        } else {
                            let (w4, ext) = extensible_of(w3, target);
                            match ext {
                                Err(e) => (w4, Err(e)),
                                Ok(true) => w4.throw(
                                    ErrorKind::Type,
                                    "proxy 'preventExtensions' reported success but the target is extensible",
                                ),
                                Ok(false) => (w4, Ok(true)),
                            }
                        },
                    }
                },
            }
        },
    }
}

/// `[[PreventExtensions]]`, proxy-aware. Returns whether it succeeded.
pub fn js_prevent_extensions(i: &mut Interp, obj: Value) -> (r: Result<bool, Value>)
    ensures
        (final(i)@, r) == extensions_prevented(old(i)@, obj),
    decreases old(i)@.left(),
{
    match i.proxy_pair(obj) {
        None => {
            if obj.is_object() {
                // Platform objects with indexed properties, and typed arrays whose length can
                // change, stay extensible.
                if i.ask_yes(Op::StaysExtensible(obj)) {
                    return Ok(false);
                }
                let _ = i.perform(Op::StopExtensions(obj));
            }
            Ok(true)
        },
        Some((target, handler)) => {
            if handler == Value::Null {
                return i.type_error("proxy is revoked");
            }
            let trap = i.get_member(handler, Key::Name("preventExtensions"))?;
            if trap.is_nullish() {
                return js_prevent_extensions(i, target);
            }
            if !trap.is_callable() {
                return i.type_error("proxy 'preventExtensions' trap is not callable");
            }
            let args = vec![target];
            assert(args@ =~= seq![target]);
            let res = i.call(trap, handler, args)?;
            let ok = i.to_boolean(res);
            // Invariant: a true result requires the target to actually be non-extensible.
            if ok && js_is_extensible(i, target)? {
                return i.type_error(
                    "proxy 'preventExtensions' reported success but the target is extensible",
                );
            }
            Ok(ok)
        },
    }
}

// [[OwnPropertyKeys]]

/// CreateListFromArrayLike, with `k` of `len` elements read.
pub open spec fn list_from(w: World, o: Value, len: int, k: int, out: Seq<Value>) -> Outcome<
    Seq<Value>,
>
    decreases len - k,
{
    if k >= len {
        (w, Ok(out))
    } else {
        let (w1, v) = w.get(o, Key::Index(k as u64));
        match v {
            Err(e) => (w1, Err(e)),
            Ok(v) => list_from(w1, o, len, k + 1, out.push(v)),
        }
    }
}

/// ToLength of a Number: truncated, and held between 0 and the largest safe integer.
pub open spec fn length_of_number(n: u64) -> int {
    if num::nan(n) || num::negative(n) {
        0
    } else if num::infinite(n) || num::magnitude(n) > num::MAX_SAFE {
        num::MAX_SAFE as int
    } else {
        num::magnitude(n)
    }
}

/// ToLength of a Number.
pub fn number_to_length(n: u64) -> (r: u64)
    ensures
        r == length_of_number(n),
        r <= num::MAX_SAFE,
{
    if num::is_nan(n) || num::is_negative(n) {
        return 0;
    }
    if num::is_infinite(n) {
        return num::MAX_SAFE;
    }
    let m: u64 = num::magnitude_u64(n);
    proof {
        num::lemma_magnitude_nonneg(n);
    }
    if m > num::MAX_SAFE {
        num::MAX_SAFE
    } else {
        m
    }
}

/// LengthOfArrayLike.
pub open spec fn length_of(w: World, o: Value) -> Outcome<u64> {
    let (w, v) = w.get(o, Key::Name("length"));
    match v {
        Err(e) => (w, Err(e)),
        Ok(v) => {
            let (w, n) = w.number(v);
            match n {
                Err(e) => (w, Err(e)),
                Ok(n) => (w, Ok(length_of_number(n) as u64)),
            }
        },
    }
}

/// LengthOfArrayLike.
pub fn to_length(i: &mut Interp, o: Value) -> (r: Result<u64, Value>)
    ensures
        (final(i)@, r) == length_of(old(i)@, o),
        r matches Ok(n) ==> n <= num::MAX_SAFE,
{
    let v = i.get_member(o, Key::Name("length"))?;
    let n: u64 = i.to_number(v)?;
    Ok(number_to_length(n))
}

/// CreateListFromArrayLike.
pub open spec fn list_of(w: World, o: Value) -> Outcome<Seq<Value>> {
    if !o.object() {
        w.throw(ErrorKind::Type, "CreateListFromArrayLike called on non-object")
    } else {
        let (w, len) = length_of(w, o);
        match len {
            Err(e) => (w, Err(e)),
            Ok(len) => list_from(w, o, len as int, 0, Seq::empty()),
        }
    }
}

/// The elements of an array-like object of a known length, read one by one.
pub fn read_elements_of(i: &mut Interp, o: Value, len: u64) -> (r: Result<Vec<Value>, Value>)
    ensures
        final(i)@ == list_from(old(i)@, o, len as int, 0, Seq::empty()).0,
        match r {
            Ok(l) => list_from(old(i)@, o, len as int, 0, Seq::empty()).1 == Ok::<
                Seq<Value>,
                Value,
            >(l@),
            Err(e) => list_from(old(i)@, o, len as int, 0, Seq::empty()).1 == Err::<
                Seq<Value>,
                Value,
            >(e),
        },
{
    let mut out: Vec<Value> = Vec::new();
    let mut k: u64 = 0;
    assert(out@ =~= Seq::<Value>::empty());
    while k < len
        invariant
            k <= len,
            list_from(old(i)@, o, len as int, 0, Seq::empty()) == list_from(
                i@,
                o,
                len as int,
                k as int,
                out@,
            ),
        decreases len - k,
    {
        let v = i.get_member(o, Key::Index(k))?;
        out.push(v);
        k += 1;
    }
    Ok(out)
}

/// The elements of an array-like object.
pub fn create_list_from_array_like(i: &mut Interp, o: Value) -> (r: Result<Vec<Value>, Value>)
    ensures
        final(i)@ == list_of(old(i)@, o).0,
        match r {
            Ok(l) => list_of(old(i)@, o).1 == Ok::<Seq<Value>, Value>(l@),
            Err(e) => list_of(old(i)@, o).1 == Err::<Seq<Value>, Value>(e),
        },
{
    if !o.is_object() {
        return i.type_error("CreateListFromArrayLike called on non-object");
    }
    let len: u64 = to_length(i, o)?;
    read_elements_of(i, o, len)
}

/// Every listed key is a string or a symbol.
pub open spec fn all_keys(keys: Seq<Value>) -> bool {
    forall|j: int| 0 <= j < keys.len() ==> (#[trigger] keys[j]) is Str || keys[j] is Sym
}

fn are_keys(keys: &Vec<Value>) -> (r: bool)
    ensures
        r == all_keys(keys@),
{
    let mut j: usize = 0;
    while j < keys.len()
        invariant
            j <= keys@.len(),
            forall|k: int| 0 <= k < j ==> (#[trigger] keys@[k]) is Str || keys@[k] is Sym,
        decreases keys@.len() - j,
    {
        match keys[j] {
            Value::Str(_) => {},
            Value::Sym(_) => {},
            _ => return false,
        }
        j += 1;
    }
    true
}

fn holds(keys: &Vec<Value>, key: Value) -> (r: bool)
    ensures
        r == keys@.contains(key),
{
    let mut j: usize = 0;
    while j < keys.len()
        invariant
            j <= keys@.len(),
            forall|k: int| 0 <= k < j ==> keys@[k] != key,
        decreases keys@.len() - j,
    {
        if keys[j] == key {
            return true;
        }
        j += 1;
    }
    false
}

fn are_distinct(keys: &Vec<Value>) -> (r: bool)
    ensures
        r == keys@.no_duplicates(),
{
    let mut j: usize = 0;
    while j < keys.len()
        invariant
            j <= keys@.len(),
            forall|a: int, b: int| 0 <= a < b < j ==> keys@[a] != keys@[b],
        decreases keys@.len() - j,
    {
        let mut k: usize = 0;
        while k < j
            invariant
                k <= j < keys@.len(),
                forall|a: int, b: int| 0 <= a < b < j ==> keys@[a] != keys@[b],
                forall|a: int| 0 <= a < k ==> keys@[a] != keys@[j as int],
            decreases j - k,
        {
            if keys[k] == keys[j] {
                assert(keys@[k as int] == keys@[j as int] && k < j);
                return false;
            }
            k += 1;
        }
        j += 1;
    }
    true
}

/// Whether each of the target's own keys is non-configurable, read from `j` on.
pub open spec fn fixed_keys(w: World, target: Value, keys: Seq<Value>, out: Seq<bool>) -> (
    World,
    Seq<bool>,
)
    decreases keys.len() - out.len(),
{
    if out.len() >= keys.len() {
        (w, out)
    } else {
        let (w1, p) = w.property(Op::StoredProperty(target, Key::Of(keys[out.len() as int])));
        let fixed = match p {
            Ok(Some(p)) => !p.configurable,
            _ => false,
        };
        fixed_keys(w1, target, keys, out.push(fixed))
    }
}

fn read_fixed_keys(i: &mut Interp, target: Value, keys: &Vec<Value>) -> (r: Vec<bool>)
    ensures
        (final(i)@, r@) == fixed_keys(old(i)@, target, keys@, Seq::empty()),
        r@.len() == keys@.len(),
{
    let mut out: Vec<bool> = Vec::new();
    assert(out@ =~= Seq::<bool>::empty());
    while out.len() < keys.len()
        invariant
            out@.len() <= keys@.len(),
            fixed_keys(i@, target, keys@, out@) == fixed_keys(
                old(i)@,
                target,
                keys@,
                Seq::empty(),
            ),
        decreases keys@.len() - out@.len(),
    {
        let fixed = match i.ask_property(Op::StoredProperty(target, Key::Of(keys[out.len()]))) {
            Ok(Some(p)) => !p.configurable,
            _ => false,
        };
        out.push(fixed);
    }
    out
}

pub proof fn lemma_fixed_keys_len(w: World, target: Value, keys: Seq<Value>, out: Seq<bool>)
    requires
        out.len() <= keys.len(),
    ensures
        fixed_keys(w, target, keys, out).1.len() == keys.len(),
    decreases keys.len() - out.len(),
{
    if out.len() < keys.len() {
        let (w1, p) = w.property(Op::StoredProperty(target, Key::Of(keys[out.len() as int])));
        let fixed = match p {
            Ok(Some(p)) => !p.configurable,
            _ => false,
        };
        lemma_fixed_keys_len(w1, target, keys, out.push(fixed));
    }
}

/// What is wrong with the keys that a proxy reports, given those of its target.
pub open spec fn key_complaint(
    reported: Seq<Value>,
    actual: Seq<Value>,
    fixed: Seq<bool>,
    extensible: bool,
) -> Option<&'static str> {
    if exists|j: int|
        0 <= j < actual.len() && fixed[j] && !reported.contains(#[trigger] actual[j]) {
        Some("ownKeys trap omitted a non-configurable target key")
    } else if !extensible && exists|j: int|
        0 <= j < actual.len() && !reported.contains(#[trigger] actual[j]) {
        Some("ownKeys trap omitted a key of a non-extensible target")
    } else if !extensible && reported.len() != actual.len() {
        Some("ownKeys trap added a key to a non-extensible target")
    } else {
        None
    }
}

fn find_key_complaint(
    reported: &Vec<Value>,
    actual: &Vec<Value>,
    fixed: &Vec<bool>,
    extensible: bool,
) -> (r: Option<&'static str>)
    requires
        fixed@.len() == actual@.len(),
    ensures
        r == key_complaint(reported@, actual@, fixed@, extensible),
{
    let mut j: usize = 0;
    while j < actual.len()
        invariant
            j <= actual@.len(),
            fixed@.len() == actual@.len(),
            forall|k: int|
                0 <= k < j && fixed@[k] ==> reported@.contains(#[trigger] actual@[k]),
        decreases actual@.len() - j,
    {
        if fixed[j] && !holds(reported, actual[j]) {
            assert(fixed@[j as int] && !reported@.contains(actual@[j as int]));
            return Some("ownKeys trap omitted a non-configurable target key");
        }
        j += 1;
    }
    if extensible {
        return None;
    }
    let mut k: usize = 0;
    while k < actual.len()
        invariant
            k <= actual@.len(),
            fixed@.len() == actual@.len(),
            !extensible,
            forall|m: int|
                0 <= m < actual@.len() && fixed@[m] ==> reported@.contains(#[trigger] actual@[m]),
            forall|m: int| 0 <= m < k ==> reported@.contains(#[trigger] actual@[m]),
        decreases actual@.len() - k,
    {
        if !holds(reported, actual[k]) {
            assert(!reported@.contains(actual@[k as int]));
            return Some("ownKeys trap omitted a key of a non-extensible target");
        }
        k += 1;
    }
    if reported.len() != actual.len() {
        return Some("ownKeys trap added a key to a non-extensible target");
    }
    None
}

/// The keys that a trap reported, checked.
pub open spec fn checked_keys(w: World, target: Value, res: Value) -> Outcome<Seq<Value>> {
    if !res.object() {
        w.throw(ErrorKind::Type, "ownKeys trap must return an array-like object")
    } else {
        let (w, keys) = list_of(w, res);
        match keys {
            Err(e) => (w, Err(e)),
            Ok(keys) => if !all_keys(keys) {
                w.throw(
                    ErrorKind::Type,
                    "ownKeys trap result must contain only strings and symbols",
                )
            } else if !keys.no_duplicates() {
                w.throw(ErrorKind::Type, "ownKeys trap result has duplicate keys")
            } else if !target.object() {
                (w, Ok(keys))
            } else {
                let (w, extensible) = w.yes(Op::Extensible(target));
                let (w, actual) = ordinary_keys(w, target);
                match actual {
                    Err(e) => (w, Err(e)),
                    Ok(actual) => {
                        let (w, fixed) = fixed_keys(w, target, actual, Seq::empty());
                        match key_complaint(keys, actual, fixed, extensible) {
                            Some(message) => w.throw(ErrorKind::Type, message),
                            None => (w, Ok(keys)),
                        }
                    },
                }
            },
        }
    }
}

fn check_keys(i: &mut Interp, target: Value, res: Value) -> (r: Result<Vec<Value>, Value>)
    ensures
        final(i)@ == checked_keys(old(i)@, target, res).0,
        match r {
            Ok(l) => checked_keys(old(i)@, target, res).1 == Ok::<Seq<Value>, Value>(l@),
            Err(e) => checked_keys(old(i)@, target, res).1 == Err::<Seq<Value>, Value>(e),
        },
{
    if !res.is_object() {
        return i.type_error("ownKeys trap must return an array-like object");
    }
    let keys: Vec<Value> = create_list_from_array_like(i, res)?;
    if !are_keys(&keys) {
        return i.type_error("ownKeys trap result must contain only strings and symbols");
    }
    // No duplicate keys.
    if !are_distinct(&keys) {
        return i.type_error("ownKeys trap result has duplicate keys");
    }
    // Invariants relative to the target's own keys / extensibility.
    if target.is_object() {
        let extensible = i.ask_yes(Op::Extensible(target));
        let actual: Vec<Value> = read_ordinary_keys(i, target)?;
        let fixed: Vec<bool> = read_fixed_keys(i, target, &actual);
        match find_key_complaint(&keys, &actual, &fixed, extensible) {
            Some(message) => return i.type_error(message),
            None => {},
        }
    }
    Ok(keys)
}

/// `[[OwnPropertyKeys]]`.
pub open spec fn own_keys_of(w: World, obj: Value) -> Outcome<Seq<Value>>
    decreases w.left(),
{
    let (w1, pair) = w.proxy(obj);
    match pair {
        None => if obj.object() {
            ordinary_keys(w1, obj)
        } else {
            (w1, Ok(Seq::empty()))
        },
        Some((target, handler)) => if handler == Value::Null {
            w1.throw(ErrorKind::Type, "proxy is revoked")
        } else {
            let (w2, trap) = w1.get(handler, Key::Name("ownKeys"));
            match trap {
                Err(e) => (w2, Err(e)),
                Ok(trap) => if trap.nullish() {
                    own_keys_of(w2, target)
                } else if !trap.callable() {
                    w2.throw(ErrorKind::Type, "proxy 'ownKeys' trap is not callable")
                } else {
                    let (w3, res) = w2.call(trap, handler, seq![target]);
                    match res {
                        Err(e) => (w3, Err(e)),
                        Ok(res) => checked_keys(w3, target, res),
                    }
                },
            }
        },
    }
}

/// `[[OwnPropertyKeys]]`: an object's own keys, or a proxy's trap result (must be a list of
/// strings/symbols) or its target's own keys.
pub fn js_own_keys(i: &mut Interp, obj: Value) -> (r: Result<Vec<Value>, Value>)
    ensures
        final(i)@ == own_keys_of(old(i)@, obj).0,
        match r {
            Ok(l) => own_keys_of(old(i)@, obj).1 == Ok::<Seq<Value>, Value>(l@),
            Err(e) => own_keys_of(old(i)@, obj).1 == Err::<Seq<Value>, Value>(e),
        },
    decreases old(i)@.left(),
{
    match i.proxy_pair(obj) {
        None => if obj.is_object() {
            read_ordinary_keys(i, obj)
        } else {
            let none: Vec<Value> = Vec::new();
            assert(none@ =~= Seq::<Value>::empty());
            Ok(none)
        },
        Some((target, handler)) => {
            if handler == Value::Null {
                return i.type_error("proxy is revoked");
            }
            let trap = i.get_member(handler, Key::Name("ownKeys"))?;
            if trap.is_nullish() {
                // Forward to the target's [[OwnPropertyKeys]] (recursing for a proxy target).
                return js_own_keys(i, target);
            }
            if !trap.is_callable() {
                return i.type_error("proxy 'ownKeys' trap is not callable");
            }
            let args = vec![target];
            assert(args@ =~= seq![target]);
            let res = i.call(trap, handler, args)?;
            check_keys(i, target, res)
        },
    }
}

// [[GetOwnProperty]]

/// What is wrong with a proxy's report that a property is absent.
pub open spec fn absence_complaint(actual: Option<Property>, extensible: bool) -> Option<
    &'static str,
> {
    match actual {
        Some(p) => if !p.configurable {
            Some("gOPD trap reported undefined for a non-configurable property")
        } else if !extensible {
            Some("gOPD trap reported undefined for a non-extensible target's property")
        } else {
            None
        },
        None => None,
    }
}

fn find_absence_complaint(actual: Option<Property>, extensible: bool) -> (r: Option<&'static str>)
    ensures
        r == absence_complaint(actual, extensible),
{
    match actual {
        Some(p) => if !p.configurable {
            Some("gOPD trap reported undefined for a non-configurable property")
        } else if !extensible {
            Some("gOPD trap reported undefined for a non-extensible target's property")
        } else {
            None
        },
        None => None,
    }
}

/// A complaint; the second part says whether the message names the key.
pub type Complaint = Option<(&'static str, bool)>;

/// What is wrong with a descriptor that a proxy reports for a property that its target pins.
pub open spec fn pinned_complaint(p: Property, pd: PartialDesc) -> Complaint {
    if pd.configurable != Some(false) {
        Some(
            (
                "proxy can't report an existing non-configurable property '{}' as configurable",
                true,
            ),
        )
    } else if pd.enumerable is Some && pd.enumerable->0 != p.enumerable {
        Some(
            (
                "proxy can't report a different 'enumerable' for '{}' when the target property is not configurable",
                true,
            ),
        )
    } else if (pd.accessor() && !p.accessor) || (pd.data() && p.accessor) {
        Some(
            (
                "proxy can't report a differently-shaped descriptor for the non-configurable property '{}'",
                true,
            ),
        )
    } else if !p.accessor && !p.writable && pd.writable == Some(true) {
        Some(
            (
                "proxy can't report a non-configurable, non-writable property '{}' as writable",
                true,
            ),
        )
    } else if !p.accessor && !p.writable && pd.value is Some && !same(pd.value->0, p.value) {
        Some(
            (
                "proxy must report the same value for the non-writable, non-configurable property '{}'",
                true,
            ),
        )
    } else if p.accessor && pd.get is Some && !same(pd.get->0, p.get) {
        Some(
            (
                "proxy must report the same getter for the non-configurable property '{}'",
                true,
            ),
        )
    } else if p.accessor && pd.set is Some && !same(pd.set->0, p.set) {
        Some(
            (
                "proxy must report the same setter for the non-configurable property '{}'",
                true,
            ),
        )
    } else {
        None
    }
}

/// What is wrong with a descriptor that a proxy reports, given its target's own property and
/// extensibility.
pub open spec fn report_complaint(
    actual: Option<Property>,
    extensible: bool,
    pd: PartialDesc,
) -> Complaint {
    match actual {
        None => if !extensible {
            Some(("gOPD trap reported a property missing from a non-extensible target", false))
        } else if pd.configurable == Some(false) {
            Some(("gOPD trap reported a non-configurable descriptor the target lacks", false))
        } else {
            None
        },
        Some(p) => if !p.configurable && pinned_complaint(p, pd) is Some {
            pinned_complaint(p, pd)
        } else if pd.configurable == Some(false) && p.configurable {
            Some(("gOPD trap reported non-configurable for a configurable target property", false))
        } else if pd.configurable == Some(false) && pd.writable == Some(false) && !p.accessor
            && p.writable {
            Some(("gOPD trap reported non-writable for a writable target property", false))
        } else {
            None
        },
    }
}

fn is_flag(b: Option<bool>, want: bool) -> (r: bool)
    ensures
        r == (b == Some(want)),
{
    match b {
        Some(b) => b == want,
        None => false,
    }
}

fn find_pinned_complaint(p: Property, pd: PartialDesc) -> (r: Complaint)
    ensures
        r == pinned_complaint(p, pd),
{
    if !is_flag(pd.configurable, false) {
        return Some(
            (
                "proxy can't report an existing non-configurable property '{}' as configurable",
                true,
            ),
        );
    }
    if let Some(e) = pd.enumerable {
        if e != p.enumerable {
            return Some(
                (
                    "proxy can't report a different 'enumerable' for '{}' when the target property is not configurable",
                    true,
                ),
            );
        }
    }
    if (pd.is_accessor() && !p.accessor) || (pd.is_data() && p.accessor) {
        return Some(
            (
                "proxy can't report a differently-shaped descriptor for the non-configurable property '{}'",
                true,
            ),
        );
    }
    if !p.accessor && !p.writable {
        if is_flag(pd.writable, true) {
            return Some(
                (
                    "proxy can't report a non-configurable, non-writable property '{}' as writable",
                    true,
                ),
            );
        }
        if let Some(v) = pd.value {
            if !same_value(v, p.value) {
                return Some(
                    (
                        "proxy must report the same value for the non-writable, non-configurable property '{}'",
                        true,
                    ),
                );
            }
        }
    }
    if p.accessor {
        if let Some(g) = pd.get {
            if !same_value(g, p.get) {
                return Some(
                    (
                        "proxy must report the same getter for the non-configurable property '{}'",
                        true,
                    ),
                );
            }
        }
        if let Some(s) = pd.set {
            if !same_value(s, p.set) {
                return Some(
                    (
                        "proxy must report the same setter for the non-configurable property '{}'",
                        true,
                    ),
                );
            }
        }
    }
    None
}

fn find_report_complaint(actual: Option<Property>, extensible: bool, pd: PartialDesc) -> (r:
    Complaint)
    ensures
        r == report_complaint(actual, extensible, pd),
{
    match actual {
        None => {
            // A descriptor may be reported for a property the target lacks only on an extensible
            // target.
            if !extensible {
                return Some(
                    ("gOPD trap reported a property missing from a non-extensible target", false),
                );
            }
            // A reported non-configurable descriptor must be backed by the target.
            if is_flag(pd.configurable, false) {
                return Some(
                    ("gOPD trap reported a non-configurable descriptor the target lacks", false),
                );
            }
            None
        },
        Some(p) => {
            // A non-configurable target property pins the reported descriptor.
            if !p.configurable {
                let pinned = find_pinned_complaint(p, pd);
                if pinned.is_some() {
                    return pinned;
                }
            }
            if is_flag(pd.configurable, false) {
                if p.configurable {
                    return Some(
                        (
                            "gOPD trap reported non-configurable for a configurable target property",
                            false,
                        ),
                    );
                }
                if is_flag(pd.writable, false) && !p.accessor && p.writable {
                    return Some(
                        ("gOPD trap reported non-writable for a writable target property", false),
                    );
                }
            }
            None
        },
    }
}

/// A complaint about a key, thrown; or nothing.
pub open spec fn complained<T>(w: World, c: Complaint, key: Value, otherwise: Outcome<T>) -> Outcome<
    T,
> {
    match c {
        None => otherwise,
        Some((message, names_key)) => if names_key {
            w.throw_about(ErrorKind::Type, message, key)
        } else {
            w.throw(ErrorKind::Type, message)
        },
    }
}

fn complain<T>(i: &mut Interp, message: &'static str, names_key: bool, key: Value) -> (r: Result<
    T,
    Value,
>)
    ensures
        (final(i)@, r) == complained::<T>(
            old(i)@,
            Some((message, names_key)),
            key,
            (old(i)@, Err(Value::Undefined)),
        ),
{
    if names_key {
        i.type_error_about(message, key)
    } else {
        i.type_error(message)
    }
}

/// The property that an object stores, else the one that its platform supplies.
pub open spec fn stored_or(stored: Option<Property>, supplied: Option<Property>) -> Option<Property> {
    match stored {
        Some(p) => Some(p),
        None => supplied,
    }
}

/// The property that a target stores or its platform supplied, and whether it is extensible.
pub open spec fn target_state(w: World, target: Value, key: Value, supplied: Option<Property>) -> (
    World,
    Result<(Option<Property>, bool), Value>,
) {
    let (w, stored) = w.property(Op::StoredProperty(target, Key::Of(key)));
    match stored {
        Err(e) => (w, Err(e)),
        Ok(stored) => {
            let (w, extensible) = w.yes(Op::Extensible(target));
            (w, Ok((stored_or(stored, supplied), extensible)))
        },
    }
}

fn read_target_state(i: &mut Interp, target: Value, key: Value, supplied: Option<Property>) -> (r:
    Result<(Option<Property>, bool), Value>)
    ensures
        (final(i)@, r) == target_state(old(i)@, target, key, supplied),
{
    let stored = i.ask_property(Op::StoredProperty(target, Key::Of(key)))?;
    let extensible = i.ask_yes(Op::Extensible(target));
    let actual = match stored {
        Some(p) => Some(p),
        None => supplied,
    };
    Ok((actual, extensible))
}

/// The property that a proxy's trap reported, checked against the target's state.
pub open spec fn report_checked(
    w: World,
    target: Value,
    key: Value,
    res: Value,
    supplied: Option<Property>,
) -> Outcome<Option<Property>> {
    if res == Value::Undefined {
        if !target.object() {
            (w, Ok(None))
        } else {
            let (w, s) = target_state(w, target, key, supplied);
            match s {
                Err(e) => (w, Err(e)),
                Ok((actual, extensible)) => match absence_complaint(actual, extensible) {
                    Some(message) => w.throw(ErrorKind::Type, message),
                    None => (w, Ok(None)),
                },
            }
        }
    } else if !res.object() {
        w.throw(
            ErrorKind::Type,
            "getOwnPropertyDescriptor trap must return an object or undefined",
        )
    } else {
        let (w, pd) = descriptor_read(w, res);
        match pd {
            Err(e) => (w, Err(e)),
            Ok(pd) => if !target.object() {
                (w, Ok(Some(pd.completed())))
            } else {
                let (w, s) = target_state(w, target, key, supplied);
                match s {
                    Err(e) => (w, Err(e)),
                    Ok((actual, extensible)) => complained(
                        w,
                        report_complaint(actual, extensible, pd),
                        key,
                        (w, Ok(Some(pd.completed()))),
                    ),
                }
            },
        }
    }
}

/// The property that a proxy's trap reported, checked against the target. What a platform
/// supplies is asked for right after the trap, before its report is read.
pub open spec fn checked_property(w: World, target: Value, key: Value, res: Value) -> Outcome<
    Option<Property>,
> {
    let (w, supplied) = if target.object() {
        w.property(Op::SuppliedProperty(target, Key::Of(key)))
    } else {
        (w, Ok(None))
    };
    match supplied {
        Err(e) => (w, Err(e)),
        Ok(supplied) => report_checked(w, target, key, res, supplied),
    }
}

fn check_property(i: &mut Interp, target: Value, key: Value, res: Value) -> (r: Result<
    Option<Property>,
    Value,
>)
    ensures
        (final(i)@, r) == checked_property(old(i)@, target, key, res),
{
    let supplied = if target.is_object() {
        i.ask_property(Op::SuppliedProperty(target, Key::Of(key)))?
    } else {
        None
    };
    if res.is_undefined() {
        // The trap may report a property absent only if the target permits it.
        if target.is_object() {
            let (actual, extensible) = read_target_state(i, target, key, supplied)?;
            match find_absence_complaint(actual, extensible) {
                Some(message) => return i.type_error(message),
                None => {},
            }
        }
        return Ok(None);
    }
    if !res.is_object() {
        return i.type_error("getOwnPropertyDescriptor trap must return an object or undefined");
    }
    let pd = build_partial(i, res)?;
    if target.is_object() {
        let (actual, extensible) = read_target_state(i, target, key, supplied)?;
        match find_report_complaint(actual, extensible, pd) {
            Some((message, names_key)) => return complain(i, message, names_key, key),
            None => {},
        }
    }
    Ok(Some(complete_descriptor(pd)))
}

/// `[[GetOwnProperty]]`.
pub open spec fn own_property_of(w: World, obj: Value, key: Value) -> Outcome<Option<Property>>
    decreases w.left(),
{
    let (w1, pair) = w.proxy(obj);
    match pair {
        None => if obj.object() {
            w1.property(Op::OwnProperty(obj, Key::Of(key)))
        } else {
            (w1, Ok(None))
        },
        Some((target, handler)) => if handler == Value::Null {
            w1.throw(ErrorKind::Type, "proxy is revoked")
        } else {
            let (w2, trap) = w1.get(handler, Key::Name("getOwnPropertyDescriptor"));
            match trap {
                Err(e) => (w2, Err(e)),
                Ok(trap) => if trap.nullish() {
                    own_property_of(w2, target, key)
                } else if !trap.callable() {
                    w2.throw(
                        ErrorKind::Type,
                        "proxy 'getOwnPropertyDescriptor' trap is not callable",
                    )
                } else {
                    let (w3, res) = w2.call(trap, handler, seq![target, key]);
                    match res {
                        Err(e) => (w3, Err(e)),
                        Ok(res) => checked_property(w3, target, key, res),
                    }
                },
            }
        },
    }
}

/// `[[GetOwnProperty]]`: an object's own property; for a proxy the trap result as a complete
/// property (or none), held to the target's invariants. A missing trap forwards to the target
/// (recursing for a proxy target).
pub fn js_own_property(i: &mut Interp, obj: Value, key: Value) -> (r: Result<
    Option<Property>,
    Value,
>)
    ensures
        (final(i)@, r) == own_property_of(old(i)@, obj, key),
    decreases old(i)@.left(),
{
    match i.proxy_pair(obj) {
        None => if obj.is_object() {
            i.ask_property(Op::OwnProperty(obj, Key::Of(key)))
        } else {
            Ok(None)
        },
        Some((target, handler)) => {
            if handler == Value::Null {
                return i.type_error("proxy is revoked");
            }
            let trap = i.get_member(handler, Key::Name("getOwnPropertyDescriptor"))?;
            if trap.is_nullish() {
                return js_own_property(i, target, key);
            }
            if !trap.is_callable() {
                return i.type_error("proxy 'getOwnPropertyDescriptor' trap is not callable");
            }
            let args = vec![target, key];
            assert(args@ =~= seq![target, key]);
            let res = i.call(trap, handler, args)?;
            check_property(i, target, key, res)
        },
    }
}

pub proof fn lemma_own_property_left(w: World, obj: Value, key: Value)
    ensures
        own_property_of(w, obj, key).0.left() <= w.left(),
        obj.object() && own_property_of(w, obj, key).1 is Ok ==> own_property_of(
            w,
            obj,
            key,
        ).0.left() < w.left(),
    decreases w.left(),
{
    let (w1, pair) = w.proxy(obj);
    if let Some((target, handler)) = pair {
        if handler != Value::Null {
            let (w2, trap) = w1.get(handler, Key::Name("getOwnPropertyDescriptor"));
            if let Ok(trap) = trap {
                if trap.nullish() {
                    lemma_own_property_left(w2, target, key);
                } else if trap.callable() {
                    let (w3, res) = w2.call(trap, handler, seq![target, key]);
                    if let Ok(res) = res {
                        lemma_checked_property_left(w3, target, key, res);
                    }
                }
            }
        }
    }
}

proof fn lemma_checked_property_left(w: World, target: Value, key: Value, res: Value)
    ensures
        checked_property(w, target, key, res).0.left() <= w.left(),
{
    let (w, supplied) = if target.object() {
        w.property(Op::SuppliedProperty(target, Key::Of(key)))
    } else {
        (w, Ok(None))
    };
    if let Ok(supplied) = supplied {
        lemma_report_checked_left(w, target, key, res, supplied);
    }
}

proof fn lemma_report_checked_left(
    w: World,
    target: Value,
    key: Value,
    res: Value,
    supplied: Option<Property>,
)
    ensures
        report_checked(w, target, key, res, supplied).0.left() <= w.left(),
{
    lemma_target_state_left(w, target, key, supplied);
    lemma_descriptor_read_left(w, res);
    lemma_target_state_left(descriptor_read(w, res).0, target, key, supplied);
}

proof fn lemma_target_state_left(w: World, target: Value, key: Value, supplied: Option<Property>)
    ensures
        target_state(w, target, key, supplied).0.left() <= w.left(),
{
}

pub proof fn lemma_descriptor_read_left(w: World, desc: Value)
    ensures
        descriptor_read(w, desc).0.left() <= w.left(),
{
}

/// Trap-aware HasOwnProperty.
pub fn has_own_property_trapped(i: &mut Interp, v: Value, key: Value) -> (r: Result<bool, Value>)
    ensures
        final(i)@ == own_property_of(old(i)@, v, key).0,
        match own_property_of(old(i)@, v, key).1 {
            Ok(p) => r == Ok::<bool, Value>(p is Some),
            Err(e) => r == Err::<bool, Value>(e),
        },
{
    Ok(js_own_property(i, v, key)?.is_some())
}

// [[DefineOwnProperty]]

/// The length that an array stores and whether it may change.
pub open spec fn stored_length(w: World, o: Value) -> Outcome<(u64, bool)> {
    let (w, p) = w.property(Op::OwnProperty(o, Key::Name("length")));
    match p {
        Err(e) => (w, Err(e)),
        Ok(None) => (w, Ok((0, true))),
        Ok(Some(p)) => (
            w,
            Ok(
                (
                    match p.value {
                        Value::Num(n) => num::cast_u64(n) as u64,
                        _ => 0,
                    },
                    p.writable,
                ),
            ),
        ),
    }
}

fn read_stored_length(i: &mut Interp, o: Value) -> (r: Result<(u64, bool), Value>)
    ensures
        (final(i)@, r) == stored_length(old(i)@, o),
{
    match i.ask_property(Op::OwnProperty(o, Key::Name("length")))? {
        None => Ok((0, true)),
        Some(p) => {
            let n: u64 = match p.value {
                Value::Num(n) => num::as_u64(n),
                _ => 0,
            };
            Ok((n, p.writable))
        },
    }
}

/// Stores an array's length.
pub open spec fn length_stored(w: World, o: Value, len: int, writable: bool) -> World {
    w.plain(
        Op::StoreProperty(
            o,
            Key::Name("length"),
            Property::data(Value::Num(num::number(len)), writable, false, false),
        ),
        Seq::empty(),
    ).0
}

fn store_length(i: &mut Interp, o: Value, len: u64, writable: bool)
    requires
        len <= num::COUNT_LIMIT,
    ensures
        final(i)@ == length_stored(old(i)@, o, len as int, writable),
{
    let p = Property::new_data(Value::Num(num::of_u64(len)), writable, false, false);
    let _ = i.perform(Op::StoreProperty(o, Key::Name("length"), p));
}

/// Deletes the elements at `new_len` and above from the top down. A non-configurable element stops
/// the deletion: its index is given back.
pub open spec fn elements_dropped(w: World, o: Value, new_len: int) -> Outcome<Option<u64>>
    decreases w.left(),
{
    let (w1, top) = w.value(Op::HighestIndex(o), Seq::empty());
    match top {
        Err(e) => (w1, Err(e)),
        Ok(Value::Num(n)) => {
            let idx = num::cast_u64(n);
            if idx < new_len || idx >= 0xffff_ffff {
                (w1, Ok(None))
            } else {
                let (w2, p) = w1.property(Op::OwnProperty(o, Key::Index(idx as u64)));
                match p {
                    Err(e) => (w2, Err(e)),
                    Ok(p) => if p is Some && !p->0.configurable {
                        (w2, Ok(Some(idx as u64)))
                    } else {
                        let (w3, _) = w2.plain(
                            Op::RemoveProperty(o, Key::Index(idx as u64)),
                            Seq::empty(),
                        );
                        elements_dropped(w3, o, new_len)
                    },
                }
            }
        },
        Ok(_) => (w1, Ok(None)),
    }
}

fn drop_elements(i: &mut Interp, o: Value, new_len: u64) -> (r: Result<Option<u64>, Value>)
    ensures
        (final(i)@, r) == elements_dropped(old(i)@, o, new_len as int),
        r matches Ok(Some(idx)) ==> idx < 0xffff_ffff,
{
    loop
        invariant
            elements_dropped(i@, o, new_len as int) == elements_dropped(
                old(i)@,
                o,
                new_len as int,
            ),
        decreases i@.left(),
    {
        match i.value_of(Op::HighestIndex(o))? {
            Value::Num(n) => {
                let idx: u64 = num::as_u64(n);
                if idx < new_len || idx >= 0xffff_ffff {
                    return Ok(None);
                }
                let p = i.ask_property(Op::OwnProperty(o, Key::Index(idx)))?;
                if let Some(p) = p {
                    if !p.configurable {
                        return Ok(Some(idx));
                    }
                }
                let _ = i.perform(Op::RemoveProperty(o, Key::Index(idx)));
            },
            _ => return Ok(None),
        }
    }
}

/// The new length that a descriptor's value stands for: coerced twice, ToUint32 against ToNumber.
pub open spec fn new_length(w: World, v: Value) -> Outcome<u64> {
    let (w, n1) = w.number(v);
    match n1 {
        Err(e) => (w, Err(e)),
        Ok(n1) => {
            let (w, n2) = w.number(v);
            match n2 {
                Err(e) => (w, Err(e)),
                Ok(n2) => if num::equal(num::number(num::modulo_u32(n1)), n2) {
                    (w, Ok(num::modulo_u32(n1) as u64))
                } else {
                    w.throw(ErrorKind::Range, "Invalid array length")
                },
            }
        },
    }
}

fn read_new_length(i: &mut Interp, v: Value) -> (r: Result<u64, Value>)
    ensures
        (final(i)@, r) == new_length(old(i)@, v),
        r matches Ok(n) ==> n <= 0xffff_ffff,
{
    // ArraySetLength coerces first — ToUint32(value) then ToNumber(value), both observable — and a
    // mismatch (fraction, negative, 2^32 and above) is a RangeError before any attribute
    // validation.
    let n1: u64 = i.to_number(v)?;
    let new_len: u32 = num::to_uint32(n1);
    let n2: u64 = i.to_number(v)?;
    if !num::is_equal(num::of_u64(new_len as u64), n2) {
        return i.fail(ErrorKind::Range, "Invalid array length");
    }
    Ok(new_len as u64)
}

/// `length` is a non-configurable, non-enumerable data property.
pub open spec fn unfit_for_length(d: PartialDesc) -> bool {
    d.accessor() || d.configurable == Some(true) || d.enumerable == Some(true)
}

/// Array exotic `length` define.
pub open spec fn array_length_set(w: World, o: Value, d: PartialDesc) -> Outcome<bool> {
    match d.value {
        None => if unfit_for_length(d) {
            (w, Ok(false))
        } else {
            let (w, cur) = stored_length(w, o);
            match cur {
                Err(e) => (w, Err(e)),
                Ok((len, len_writable)) => match d.writable {
                    None => (w, Ok(true)),
                    Some(writable) => if !len_writable && writable {
                        (w, Ok(false))
                    } else {
                        (length_stored(w, o, bounded(len as int), writable), Ok(true))
                    },
                },
            }
        },
        Some(v) => {
            let (w, new_len) = new_length(w, v);
            match new_len {
                Err(e) => (w, Err(e)),
                Ok(new_len) => if unfit_for_length(d) {
                    (w, Ok(false))
                } else {
                    let (w, cur) = stored_length(w, o);
                    match cur {
                        Err(e) => (w, Err(e)),
                        Ok((old_len, len_writable)) => if !len_writable && (new_len != old_len
                            || d.writable == Some(true)) {
                            (w, Ok(false))
                        } else {
                            let writable = match d.writable {
                                Some(b) => b,
                                None => len_writable,
                            };
                            if new_len < old_len {
                                let (w, stop) = elements_dropped(w, o, new_len as int);
                                match stop {
                                    Err(e) => (w, Err(e)),
                                    Ok(Some(idx)) => (
                                        length_stored(w, o, idx + 1, writable),
                                        Ok(false),
                                    ),
                                    Ok(None) => (
                                        length_stored(w, o, new_len as int, writable),
                                        Ok(true),
                                    ),
                                }
                            } else {
                                (length_stored(w, o, new_len as int, writable), Ok(true))
                            }
                        },
                    }
                },
            }
        },
    }
}

/// A length held at the count limit.
pub open spec fn bounded(n: int) -> int {
    if n > num::COUNT_LIMIT {
        num::COUNT_LIMIT as int
    } else {
        n
    }
}

fn bound(n: u64) -> (r: u64)
    ensures
        r == bounded(n as int),
        r <= num::COUNT_LIMIT,
{
    if n > num::COUNT_LIMIT {
        num::COUNT_LIMIT
    } else {
        n
    }
}

fn is_unfit_for_length(d: PartialDesc) -> (r: bool)
    ensures
        r == unfit_for_length(d),
{
    d.is_accessor() || is_flag(d.configurable, true) || is_flag(d.enumerable, true)
}

/// Array exotic `length` define: validate the new length is a valid uint32, honor a non-writable
/// `length`, and drop the now-out-of-range index properties.
pub fn array_set_length(i: &mut Interp, o: Value, d: PartialDesc) -> (r: Result<bool, Value>)
    ensures
        (final(i)@, r) == array_length_set(old(i)@, o, d),
{
    let new_len: u64 = match d.value {
        None => {
            if is_unfit_for_length(d) {
                return Ok(false);
            }
            let (len, len_writable) = read_stored_length(i, o)?;
            // No value: only a writable change.
            if let Some(w) = d.writable {
                if !len_writable && w {
                    return Ok(false);  // can't make a non-writable length writable again
                }
                store_length(i, o, bound(len), w);
            }
            return Ok(true);
        },
        Some(v) => read_new_length(i, v)?,
    };
    // Now the ordinary-define validation against the current `length`.
    if is_unfit_for_length(d) {
        return Ok(false);
    }
    let (old_len, len_writable) = read_stored_length(i, o)?;
    if !len_writable && (new_len != old_len || is_flag(d.writable, true)) {
        return Ok(false);
    }
    let writable: bool = match d.writable {
        Some(b) => b,
        None => len_writable,
    };
    if new_len < old_len {
        // ArraySetLength deletes elements from the top down; a non-configurable element blocks
        // the shrink, so length only drops to just past it and the operation reports failure.
        if let Some(idx) = drop_elements(i, o, new_len)? {
            store_length(i, o, idx + 1, writable);
            return Ok(false);
        }
    }
    store_length(i, o, new_len, writable);
    Ok(true)
}

/// A property defined under an ordinary key.
pub open spec fn plainly_defined(w: World, o: Value, key: Value, d: PartialDesc) -> Outcome<bool> {
    let (w, cur) = w.property(Op::OwnProperty(o, Key::Of(key)));
    match cur {
        Err(e) => (w, Err(e)),
        Ok(cur) => {
            let (w, extensible) = w.yes(Op::Extensible(o));
            match d.defined(cur, extensible) {
                None => (w, Ok(false)),
                Some(p) => {
                    let (w, _) = w.plain(Op::StoreProperty(o, Key::Of(key), p), Seq::empty());
                    (w, Ok(true))
                },
            }
        },
    }
}

fn define_plainly(i: &mut Interp, o: Value, key: Value, d: PartialDesc) -> (r: Result<bool, Value>)
    ensures
        (final(i)@, r) == plainly_defined(old(i)@, o, key, d),
{
    let cur = i.ask_property(Op::OwnProperty(o, Key::Of(key)))?;
    let extensible = i.ask_yes(Op::Extensible(o));
    match validate_and_apply(d, cur, extensible) {
        None => Ok(false),
        Some(p) => {
            let _ = i.perform(Op::StoreProperty(o, Key::Of(key), p));
            Ok(true)
        },
    }
}

/// An array index defined: refused at or past a length that may not change, and otherwise growing
/// the length to just past the index.
pub open spec fn index_defined(w: World, o: Value, key: Value, idx: u64, d: PartialDesc) -> Outcome<
    bool,
> {
    let (w, cur) = stored_length(w, o);
    match cur {
        Err(e) => (w, Err(e)),
        Ok((len, len_writable)) => if idx >= len && !len_writable {
            (w, Ok(false))
        } else {
            let (w, r) = plainly_defined(w, o, key, d);
            match r {
                Ok(true) => if idx >= len {
                    (length_stored(w, o, bounded(idx + 1), len_writable), Ok(true))
                } else {
                    (w, Ok(true))
                },
                _ => (w, r),
            }
        },
    }
}

fn define_index(i: &mut Interp, o: Value, key: Value, idx: u64, d: PartialDesc) -> (r: Result<
    bool,
    Value,
>)
    requires
        idx < u64::MAX,
    ensures
        (final(i)@, r) == index_defined(old(i)@, o, key, idx, d),
{
    let (len, len_writable) = read_stored_length(i, o)?;
    // Adding an index at or past a non-writable `length` is rejected.
    if idx >= len && !len_writable {
        return Ok(false);
    }
    let ok = define_plainly(i, o, key, d)?;
    if ok && idx >= len {
        store_length(i, o, bound(idx + 1), len_writable);
    }
    Ok(ok)
}

/// A module export accepts only a descriptor that matches its fixed shape.
pub open spec fn export_matches(d: PartialDesc, cur: Property) -> bool {
    &&& d.configurable != Some(true)
    &&& d.enumerable != Some(false)
    &&& !d.accessor()
    &&& d.writable != Some(false)
    &&& d.value is Some ==> same(d.value->0, cur.value)
}

/// An element accepts only a configurable, enumerable and writable data descriptor.
pub open spec fn element_accepts(d: PartialDesc) -> bool {
    !d.accessor() && d.configurable != Some(false) && d.enumerable != Some(false) && d.writable
        != Some(false)
}

/// `[[DefineOwnProperty]]` of an object that is no proxy, by what the key means to it.
pub open spec fn class_defined(
    w: World,
    o: Value,
    key: Value,
    d: PartialDesc,
    class: KeyClass,
) -> Outcome<bool> {
    match class {
        KeyClass::Ordinary => plainly_defined(w, o, key, d),
        KeyClass::NamespaceExport => {
            let (w, cur) = w.property(Op::OwnProperty(o, Key::Of(key)));
            match cur {
                Err(e) => (w, Err(e)),
                Ok(None) => (w, Ok(false)),
                Ok(Some(cur)) => (w, Ok(export_matches(d, cur))),
            }
        },
        KeyClass::Element(idx) => if !element_accepts(d) {
            (w, Ok(false))
        } else {
            match d.value {
                None => (w, Ok(true)),
                Some(v) => {
                    let (w, r) = w.value(Op::StoreElement(o, idx, v), Seq::empty());
                    match r {
                        Err(e) => (w, Err(e)),
                        Ok(_) => (w, Ok(true)),
                    }
                },
            }
        },
        KeyClass::NoElement => (w, Ok(false)),
        KeyClass::HostIndex => (w, Ok(false)),
        KeyClass::ArrayLength => array_length_set(w, o, d),
        KeyClass::ArrayIndex(idx) => if idx < u64::MAX {
            index_defined(w, o, key, idx, d)
        } else {
            plainly_defined(w, o, key, d)
        },
        KeyClass::MappedArgument => {
            let (w, _) = w.plain(Op::SyncArgument(o, Key::Of(key)), Seq::empty());
            let (w, r) = plainly_defined(w, o, key, d);
            match r {
                Ok(true) => if d.accessor() {
                    let (w, _) = w.plain(Op::UnmapArgument(o, Key::Of(key)), Seq::empty());
                    (w, Ok(true))
                } else {
                    let w = match d.value {
                        Some(v) => w.plain(Op::WriteArgument(o, Key::Of(key), v), Seq::empty()).0,
                        None => w,
                    };
                    let w = if d.writable == Some(false) {
                        w.plain(Op::UnmapArgument(o, Key::Of(key)), Seq::empty()).0
                    } else {
                        w
                    };
                    (w, Ok(true))
                },
                _ => (w, r),
            }
        },
    }
}

/// `[[DefineOwnProperty]]` of an object that is no proxy.
pub open spec fn ordinarily_defined(w: World, o: Value, key: Value, d: PartialDesc) -> Outcome<bool> {
    let (w, class) = w.class(o, Key::Of(key));
    class_defined(w, o, key, d, class)
}

/// OrdinaryDefineOwnProperty with the non-configurable / non-extensible invariant checks, and the
/// rules of the exotic objects: module namespaces, typed arrays, platform objects, arrays and
/// mapped arguments.
pub fn define_own_property_ordinary(i: &mut Interp, o: Value, key: Value, d: PartialDesc) -> (r:
    Result<bool, Value>)
    ensures
        (final(i)@, r) == ordinarily_defined(old(i)@, o, key, d),
{
    match i.classify(o, Key::Of(key)) {
        KeyClass::Ordinary => define_plainly(i, o, key, d),
        KeyClass::NamespaceExport => {
            match i.ask_property(Op::OwnProperty(o, Key::Of(key)))? {
                None => Ok(false),
                Some(cur) => {
                    let same_shape = !is_flag(d.configurable, true) && !is_flag(d.enumerable, false)
                        && !d.is_accessor() && !is_flag(d.writable, false);
                    let same_content = match d.value {
                        Some(v) => same_value(v, cur.value),
                        None => true,
                    };
                    Ok(same_shape && same_content)
                },
            }
        },
        KeyClass::Element(idx) => {
            if d.is_accessor() || is_flag(d.configurable, false) || is_flag(d.enumerable, false)
                || is_flag(d.writable, false) {
                return Ok(false);
            }
            if let Some(v) = d.value {
                i.value_of(Op::StoreElement(o, idx, v))?;
            }
            Ok(true)
        },
        KeyClass::NoElement => Ok(false),
        KeyClass::HostIndex => Ok(false),
        KeyClass::ArrayLength => array_set_length(i, o, d),
        KeyClass::ArrayIndex(idx) => if idx < u64::MAX {
            define_index(i, o, key, idx, d)
        } else {
            define_plainly(i, o, key, d)
        },
        KeyClass::MappedArgument => {
            let _ = i.perform(Op::SyncArgument(o, Key::Of(key)));
            let allowed = define_plainly(i, o, key, d)?;
            if !allowed {
                return Ok(false);
            }
            if d.is_accessor() {
                let _ = i.perform(Op::UnmapArgument(o, Key::Of(key)));
            } else {
                if let Some(v) = d.value {
                    let _ = i.perform(Op::WriteArgument(o, Key::Of(key), v));
                }
                if is_flag(d.writable, false) {
                    let _ = i.perform(Op::UnmapArgument(o, Key::Of(key)));
                }
            }
            Ok(true)
        },
    }
}

/// What is wrong with a proxy's report that a definition succeeded.
pub open spec fn definition_complaint(
    actual: Option<Property>,
    extensible: bool,
    pd: PartialDesc,
) -> Complaint {
    match actual {
        None => if !extensible {
            Some(("proxy 'defineProperty' added a property to a non-extensible target", false))
        } else if pd.configurable == Some(false) {
            Some(
                (
                    "proxy 'defineProperty' defined a non-configurable property the target lacks",
                    false,
                ),
            )
        } else {
            None
        },
        Some(p) => if pd.configurable == Some(false) && p.configurable {
            Some(
                (
                    "proxy 'defineProperty' made a configurable target property non-configurable",
                    false,
                ),
            )
        } else if p.configurable {
            None
        } else if pd.configurable == Some(true) {
            Some(
                (
                    "proxy 'defineProperty' made a non-configurable target property configurable",
                    false,
                ),
            )
        } else if pd.enumerable is Some && pd.enumerable->0 != p.enumerable {
            Some(
                (
                    "proxy can't report a different 'enumerable' for '{}' when the target property is not configurable",
                    true,
                ),
            )
        } else if (pd.accessor() && !p.accessor) || (pd.data() && p.accessor) {
            Some(
                (
                    "proxy can't change the descriptor shape of the non-configurable property '{}'",
                    true,
                ),
            )
        } else if p.accessor && pd.get is Some && !same(pd.get->0, p.get) {
            Some(
                (
                    "proxy must define the same getter for the non-configurable property '{}'",
                    true,
                ),
            )
        } else if p.accessor && pd.set is Some && !same(pd.set->0, p.set) {
            Some(
                (
                    "proxy must define the same setter for the non-configurable property '{}'",
                    true,
                ),
            )
        } else if !p.accessor && !p.writable && pd.writable == Some(true) {
            Some(("proxy 'defineProperty' made a non-writable property writable", false))
        } else if !p.accessor && !p.writable && pd.value is Some && !same(pd.value->0, p.value) {
            Some(
                ("proxy 'defineProperty' changed a non-configurable non-writable value", false),
            )
        } else if !p.accessor && p.writable && pd.writable == Some(false) {
            Some(
                (
                    "proxy 'defineProperty' reported a non-configurable writable property as non-writable",
                    false,
                ),
            )
        } else {
            None
        },
    }
}

fn find_definition_complaint(actual: Option<Property>, extensible: bool, pd: PartialDesc) -> (r:
    Complaint)
    ensures
        r == definition_complaint(actual, extensible, pd),
{
    let setting_config_false = is_flag(pd.configurable, false);
    let p: Property = match actual {
        None => {
            if !extensible {
                return Some(
                    ("proxy 'defineProperty' added a property to a non-extensible target", false),
                );
            }
            if setting_config_false {
                return Some(
                    (
                        "proxy 'defineProperty' defined a non-configurable property the target lacks",
                        false,
                    ),
                );
            }
            return None;
        },
        Some(p) => p,
    };
    if setting_config_false && p.configurable {
        return Some(
            (
                "proxy 'defineProperty' made a configurable target property non-configurable",
                false,
            ),
        );
    }
    if p.configurable {
        return None;
    }
    // A non-configurable target property can't be redefined as configurable, change
    // enumerability, or switch shape.
    if is_flag(pd.configurable, true) {
        return Some(
            (
                "proxy 'defineProperty' made a non-configurable target property configurable",
                false,
            ),
        );
    }
    if let Some(e) = pd.enumerable {
        if e != p.enumerable {
            return Some(
                (
                    "proxy can't report a different 'enumerable' for '{}' when the target property is not configurable",
                    true,
                ),
            );
        }
    }
    if (pd.is_accessor() && !p.accessor) || (pd.is_data() && p.accessor) {
        return Some(
            (
                "proxy can't change the descriptor shape of the non-configurable property '{}'",
                true,
            ),
        );
    }
    if p.accessor {
        if let Some(g) = pd.get {
            if !same_value(g, p.get) {
                return Some(
                    (
                        "proxy must define the same getter for the non-configurable property '{}'",
                        true,
                    ),
                );
            }
        }
        if let Some(s) = pd.set {
            if !same_value(s, p.set) {
                return Some(
                    (
                        "proxy must define the same setter for the non-configurable property '{}'",
                        true,
                    ),
                );
            }
        }
        return None;
    }
    if !p.writable {
        if is_flag(pd.writable, true) {
            return Some(("proxy 'defineProperty' made a non-writable property writable", false));
        }
        // A non-configurable, non-writable data property's value can't be changed.
        if let Some(v) = pd.value {
            if !same_value(v, p.value) {
                return Some(
                    ("proxy 'defineProperty' changed a non-configurable non-writable value", false),
                );
            }
        }
    } else if is_flag(pd.writable, false) {
        // A non-configurable *writable* data target can't be reported non-writable.
        return Some(
            (
                "proxy 'defineProperty' reported a non-configurable writable property as non-writable",
                false,
            ),
        );
    }
    None
}

/// A proxy's report that a definition succeeded, checked against the target.
pub open spec fn definition_report(w: World, target: Value, key: Value, pd: PartialDesc) -> Outcome<
    bool,
> {
    if !target.object() {
        (w, Ok(true))
    } else {
        let (w, supplied) = w.property(Op::SuppliedProperty(target, Key::Of(key)));
        match supplied {
            Err(e) => (w, Err(e)),
            Ok(supplied) => {
                let (w, s) = target_state(w, target, key, supplied);
                match s {
                    Err(e) => (w, Err(e)),
                    Ok((actual, extensible)) => complained(
                        w,
                        definition_complaint(actual, extensible, pd),
                        key,
                        (w, Ok(true)),
                    ),
                }
            },
        }
    }
}

/// `[[DefineOwnProperty]]`: whether it succeeded.
pub open spec fn property_defined(w: World, obj: Value, key: Value, d: PartialDesc) -> Outcome<bool>
    decreases w.left(),
{
    let (w1, pair) = w.proxy(obj);
    match pair {
        None => if obj.object() {
            let (w2, t) = w1.triggered(obj, key);
            match t {
                Err(e) => (w2, Err(e)),
                Ok(_) => ordinarily_defined(w2, obj, key, d),
            }
        } else {
            (w1, Ok(false))
        },
        Some((target, handler)) => if handler == Value::Null {
            w1.throw(ErrorKind::Type, "proxy is revoked")
        } else {
            let (w2, trap) = w1.get(handler, Key::Name("defineProperty"));
            match trap {
                Err(e) => (w2, Err(e)),
                Ok(trap) => if trap.nullish() {
                    property_defined(w2, target, key, d)
                } else if !trap.callable() {
                    w2.throw(ErrorKind::Type, "proxy 'defineProperty' trap is not callable")
                } else {
                    trap_defined(w2, trap, target, handler, key, d)
                },
            }
        },
    }
}

/// `[[DefineOwnProperty]]`: an ordinary or exotic definition; for a proxy, call the trap
/// (ToBoolean its result), holding its report to the target's invariants, or forward to the target.
pub fn js_define_property(i: &mut Interp, obj: Value, key: Value, d: PartialDesc) -> (r: Result<
    bool,
    Value,
>)
    ensures
        (final(i)@, r) == property_defined(old(i)@, obj, key, d),
    decreases old(i)@.left(),
{
    match i.proxy_pair(obj) {
        None => if obj.is_object() {
            i.trigger(obj, key)?;
            define_own_property_ordinary(i, obj, key, d)
        } else {
            Ok(false)
        },
        Some((target, handler)) => {
            if handler == Value::Null {
                return i.type_error("proxy is revoked");
            }
            let trap = i.get_member(handler, Key::Name("defineProperty"))?;
            if trap.is_nullish() {
                return js_define_property(i, target, key, d);
            }
            if !trap.is_callable() {
                return i.type_error("proxy 'defineProperty' trap is not callable");
            }
            define_by_trap(i, trap, target, handler, key, d)
        },
    }
}

/// The call of a `defineProperty` trap and the check of what it reports.
pub open spec fn trap_defined(
    w: World,
    trap: Value,
    target: Value,
    handler: Value,
    key: Value,
    d: PartialDesc,
) -> Outcome<bool> {
    let (w, norm) = partial_object(w, d);
    let (w, res) = w.call(trap, handler, seq![target, key, norm]);
    match res {
        Err(e) => (w, Err(e)),
        Ok(res) => if !w.truthy(res) {
            (w, Ok(false))
        } else {
            definition_report(w, target, key, d)
        },
    }
}

fn define_by_trap(
    i: &mut Interp,
    trap: Value,
    target: Value,
    handler: Value,
    key: Value,
    d: PartialDesc,
) -> (r: Result<bool, Value>)
    ensures
        (final(i)@, r) == trap_defined(old(i)@, trap, target, handler, key, d),
{
    // The trap receives a fresh object holding only the present fields, in the order value,
    // writable, get, set, enumerable, configurable.
    let norm = make_partial_object(i, d);
    let args = vec![target, key, norm];
    assert(args@ =~= seq![target, key, norm]);
    let res = i.call(trap, handler, args)?;
    if !i.to_boolean(res) {
        return Ok(false);
    }
    // Invariants relative to the target's existing property and extensibility.
    if target.is_object() {
        let supplied = i.ask_property(Op::SuppliedProperty(target, Key::Of(key)))?;
        let (actual, extensible) = read_target_state(i, target, key, supplied)?;
        match find_definition_complaint(actual, extensible, d) {
            Some((message, names_key)) => return complain(i, message, names_key, key),
            None => {},
        }
    }
    Ok(true)
}

/// `[[DefineOwnProperty]]` with a descriptor object, which is read once it is known whether a
/// trap takes the definition.
pub open spec fn defined_from(w: World, obj: Value, key: Value, desc: Value) -> Outcome<bool>
    decreases w.left(),
{
    let (w1, pair) = w.proxy(obj);
    match pair {
        None => if !obj.object() {
            (w1, Ok(false))
        } else {
            let (w2, t) = w1.triggered(obj, key);
            match t {
                Err(e) => (w2, Err(e)),
                Ok(_) => {
                    let (w3, d) = descriptor_read(w2, desc);
                    match d {
                        Err(e) => (w3, Err(e)),
                        Ok(d) => ordinarily_defined(w3, obj, key, d),
                    }
                },
            }
        },
        Some((target, handler)) => if handler == Value::Null {
            w1.throw(ErrorKind::Type, "proxy is revoked")
        } else {
            let (w2, trap) = w1.get(handler, Key::Name("defineProperty"));
            match trap {
                Err(e) => (w2, Err(e)),
                Ok(trap) => if trap.nullish() {
                    defined_from(w2, target, key, desc)
                } else if !trap.callable() {
                    w2.throw(ErrorKind::Type, "proxy 'defineProperty' trap is not callable")
                } else {
                    let (w3, d) = descriptor_read(w2, desc);
                    match d {
                        Err(e) => (w3, Err(e)),
                        Ok(d) => trap_defined(w3, trap, target, handler, key, d),
                    }
                },
            }
        },
    }
}

/// Defines a property from a descriptor object.
pub fn define_own_property(i: &mut Interp, obj: Value, key: Value, desc: Value) -> (r: Result<
    bool,
    Value,
>)
    ensures
        (final(i)@, r) == defined_from(old(i)@, obj, key, desc),
    decreases old(i)@.left(),
{
    match i.proxy_pair(obj) {
        None => {
            if !obj.is_object() {
                return Ok(false);
            }
            i.trigger(obj, key)?;
            let d = build_partial(i, desc)?;
            define_own_property_ordinary(i, obj, key, d)
        },
        Some((target, handler)) => {
            if handler == Value::Null {
                return i.type_error("proxy is revoked");
            }
            let trap = i.get_member(handler, Key::Name("defineProperty"))?;
            if trap.is_nullish() {
                return define_own_property(i, target, key, desc);
            }
            if !trap.is_callable() {
                return i.type_error("proxy 'defineProperty' trap is not callable");
            }
            let d = build_partial(i, desc)?;
            define_by_trap(i, trap, target, handler, key, d)
        },
    }
}

// What the invariants guarantee.

/// A proxy cannot hide a property that its target pins, nor any property of a target that is not
/// extensible.
pub proof fn law_pinned_properties_stay_visible(actual: Property, extensible: bool)
    ensures
        absence_complaint(Some(actual), extensible) is None ==> actual.configurable && extensible,
{
}

/// A descriptor that passes for a pinned property agrees with it in everything the property
/// fixes.
pub proof fn law_reports_agree_with_pinned(actual: Property, extensible: bool, pd: PartialDesc)
    requires
        pd.wf(),
        actual.wf(),
        !actual.configurable,
        report_complaint(Some(actual), extensible, pd) is None,
    ensures
        !pd.completed().configurable,
        pd.enumerable is Some ==> pd.enumerable->0 == actual.enumerable,
        pd.accessor() ==> actual.accessor,
        pd.data() ==> !actual.accessor,
        pd.compatible(actual),
{
}

/// A proxy reports a property as non-configurable only where its target has it so.
pub proof fn law_non_configurable_reports_are_backed(
    actual: Option<Property>,
    extensible: bool,
    pd: PartialDesc,
)
    requires
        report_complaint(actual, extensible, pd) is None,
        pd.configurable == Some(false),
    ensures
        actual is Some && !actual->0.configurable,
{
}

/// A proxy over a target that is not extensible reports exactly the target's own keys.
pub proof fn law_keys_of_sealed_targets_are_exact(
    reported: Seq<Value>,
    actual: Seq<Value>,
    fixed: Seq<bool>,
    key: Value,
)
    requires
        reported.no_duplicates(),
        actual.no_duplicates(),
        fixed.len() == actual.len(),
        key_complaint(reported, actual, fixed, false) is None,
    ensures
        actual.contains(key) == reported.contains(key),
{
    if actual.contains(key) {
        let j = choose|j: int| 0 <= j < actual.len() && actual[j] == key;
        assert(reported.contains(actual[j]));
    }
    assert forall|k: Value| actual.to_set().contains(k) implies reported.to_set().contains(k) by {
        let j = choose|j: int| 0 <= j < actual.len() && actual[j] == k;
        assert(reported.contains(actual[j]));
    }
    reported.unique_seq_to_set();
    actual.unique_seq_to_set();
    vstd::set_lib::lemma_len_subset(actual.to_set(), reported.to_set());
    vstd::set_lib::lemma_subset_equality(actual.to_set(), reported.to_set());
    assert(actual.to_set().contains(key) == reported.to_set().contains(key));
}

/// A definition that a proxy may report as done on a pinned property is one that the property
/// would have let through.
pub proof fn law_definitions_agree_with_pinned(actual: Property, extensible: bool, pd: PartialDesc)
    requires
        pd.wf(),
        actual.wf(),
        !actual.configurable,
        definition_complaint(Some(actual), extensible, pd) is None,
    ensures
        pd.configurable != Some(true),
        pd.enumerable is Some ==> pd.enumerable->0 == actual.enumerable,
        pd.accessor() ==> actual.accessor,
        pd.data() ==> !actual.accessor,
        !actual.accessor && !actual.writable && pd.value is Some ==> same(
            pd.value->0,
            actual.value,
        ),
        pd.compatible(actual),
{
}

} // verus!
