//! What a proxy answers for its traps, and what it leaves to its target.
use vstd::prelude::*;
use crate::descriptor::{descriptor_read, value_field};
use crate::equality::strictly_same;
use crate::interp::{Answer, Key, Op, PartialDesc, Property, Value, World};
use crate::num;
use crate::num_format::number_units;
use crate::own_keys::{ordinary_keys, supplied_count, supplied_keys};
use crate::proxy::{
    checked_keys, extensible_of, extensions_prevented, fixed_keys, key_complaint,
    lemma_fixed_keys_len, length_of, list_from, list_of, on_chain, own_keys_of, own_property_of,
    property_defined, prototype_of, prototype_set,
};
use crate::realm::{field_stored, flag, partial_object};
use crate::trace::{
    exchanged, extends, learned, lemma_learned, lemma_stays_learned, lemma_stays_told, question,
    told,
};

verus! {

/// The next answers say that an object is a proxy whose handler has this under the trap's name.
pub open spec fn proxied(w: World, obj: Value, target: Value, handler: Value, trap: Value) -> bool {
    let n = w.asked.len() as int;
    &&& obj.object()
    &&& handler != Value::Null
    &&& n + 1 < w.answers.len()
    &&& w.answers[n] == Answer::List(seq![target, handler])
    &&& w.answers[n + 1] == Answer::Value(trap)
}

/// The first two questions about a proxy, and where they lead.
pub open spec fn unwrapped(w: World, obj: Value, handler: Value, name: &'static str) -> World {
    World {
        asked: w.asked.push(question(Op::ProxyParts(obj), Seq::empty())).push(
            question(Op::Get(handler, Key::Name(name)), Seq::empty()),
        ),
        ..w
    }
}

/// Behind that, the trap is called.
pub open spec fn trapped(
    w: World,
    obj: Value,
    handler: Value,
    name: &'static str,
    trap: Value,
    args: Seq<Value>,
) -> World {
    World {
        asked: unwrapped(w, obj, handler, name).asked.push(question(Op::Call(trap, handler), args)),
        ..w
    }
}

/// The next answers say that an object is none.
pub open spec fn plain_object(w: World, obj: Value) -> bool {
    &&& obj.object()
    &&& w.asked.len() < w.answers.len()
    &&& w.answers[w.asked.len() as int] == Answer::List(Seq::<Value>::empty())
}

proof fn lemma_proxied(
    w: World,
    obj: Value,
    target: Value,
    handler: Value,
    trap: Value,
    name: &'static str,
)
    requires
        proxied(w, obj, target, handler, trap),
    ensures
        w.proxy(obj).1 == Some((target, handler)),
        w.proxy(obj).0.get(handler, Key::Name(name)) == (
            unwrapped(w, obj, handler, name),
            Ok::<Value, Value>(trap),
        ),
{
}

// [[OwnPropertyKeys]]

/// The elements of an array-like object are what its indices are answered with, in order.
#[verifier::spinoff_prover]
#[verifier::rlimit(60)]
pub proof fn lemma_list_from(w: World, o: Value, len: int, k: int, out: Seq<Value>, l: Seq<Value>)
    requires
        0 <= k <= len == l.len(),
        len <= num::MAX_SAFE,
        out == l.take(k),
        w.asked.len() + (len - k) <= w.answers.len(),
        forall|j: int|
            k <= j < len ==> w.answers[w.asked.len() + (j - k)] == Answer::Value(#[trigger] l[j]),
    ensures
        extends(w, list_from(w, o, len, k, out).0),
        list_from(w, o, len, k, out).1 == Ok::<Seq<Value>, Value>(l),
        list_from(w, o, len, k, out).0.asked.len() == w.asked.len() + (len - k),
        forall|j: int|
            k <= j < len ==> #[trigger] list_from(w, o, len, k, out).0.asked[w.asked.len() + (j
                - k)] == question(Op::Get(o, Key::Index(j as u64)), Seq::empty()),
    decreases len - k,
{
    if k < len {
        assert(w.answers[w.asked.len() + (k - k)] == Answer::Value(l[k]));
        let (w1, v) = w.get(o, Key::Index(k as u64));
        assert(out.push(l[k]) =~= l.take(k + 1));
        assert forall|j: int| k + 1 <= j < len implies w1.answers[w1.asked.len() + (j - (k + 1))]
            == Answer::Value(#[trigger] l[j]) by {
            assert(w.answers[w.asked.len() + (j - k)] == Answer::Value(l[j]));
        }
        lemma_list_from(w1, o, len, k + 1, out.push(l[k]), l);
        let w2 = list_from(w, o, len, k, out).0;
        assert forall|j: int| k <= j < len implies #[trigger] w2.asked[w.asked.len() + (j - k)]
            == question(Op::Get(o, Key::Index(j as u64)), Seq::empty()) by {
            if j == k {
                assert(w2.asked[w.asked.len() as int] == w1.asked[w.asked.len() as int]);
            } else {
                assert(w2.asked[w1.asked.len() + (j - (k + 1))] == question(
                    Op::Get(o, Key::Index(j as u64)),
                    Seq::empty(),
                ));
            }
        }
    } else {
        assert(l.take(k) =~= l);
    }
}

/// The own keys of a proxy with an `ownKeys` trap are the elements of the list that the trap gave:
/// its length and its indices are read, and their values, in that order, are the keys. They are
/// strings and symbols, each there once; a list of anything else is refused.
#[verifier::spinoff_prover]
#[verifier::rlimit(60)]
pub proof fn law_own_keys_are_those_the_trap_listed(
    w: World,
    obj: Value,
    target: Value,
    handler: Value,
    trap: Value,
    list: Value,
    l: Seq<Value>,
)
    requires
        proxied(w, obj, target, handler, trap),
        trap.callable(),
        list.object(),
        l.len() <= num::MAX_SAFE,
        w.asked.len() + 4 + l.len() <= w.answers.len(),
        w.answers[w.asked.len() + 2int] == Answer::Value(list),
        w.answers[w.asked.len() + 3int] == Answer::Value(Value::Num(num::number(l.len() as int))),
        forall|j: int|
            0 <= j < l.len() ==> w.answers[w.asked.len() + 4 + j] == Answer::Value(#[trigger] l[j]),
    ensures
        own_keys_of(w, obj).1 matches Ok(keys) ==> {
            &&& keys == l
            &&& forall|j: int| 0 <= j < l.len() ==> (#[trigger] l[j]) is Str || l[j] is Sym
            &&& forall|i: int, j: int| 0 <= i < j < l.len() ==> l[i] != l[j]
        },
        // What is asked on the way.
        ({
            let (w1, n) = (own_keys_of(w, obj).0, w.asked.len() as int);
            &&& extends(trapped(w, obj, handler, "ownKeys", trap, seq![target]), w1)
            &&& w1.asked.len() >= n + 4 + l.len()
            &&& w1.asked[n + 3] == question(Op::Get(list, Key::Name("length")), Seq::empty())
            &&& forall|j: int|
                0 <= j < l.len() ==> #[trigger] w1.asked[n + 4 + j] == question(
                    Op::Get(list, Key::Index(j as u64)),
                    Seq::empty(),
                )
        }),
{
    lemma_proxied(w, obj, target, handler, trap, "ownKeys");
    let w2 = unwrapped(w, obj, handler, "ownKeys");
    let (w3, res) = w2.call(trap, handler, seq![target]);
    assert(w3 == trapped(w, obj, handler, "ownKeys", trap, seq![target]));
    num::law_numbers_hold_their_integer(l.len() as int);
    let (w4, len) = length_of(w3, list);
    assert(len->Ok_0 == l.len());
    assert forall|j: int| 0 <= j < l.len() implies w4.answers[w4.asked.len() + (j - 0)]
        == Answer::Value(#[trigger] l[j]) by {
        assert(w.answers[w.asked.len() + 4 + j] == Answer::Value(l[j]));
    }
    assert(l.take(0) =~= Seq::<Value>::empty());
    lemma_list_from(w4, list, l.len() as int, 0, Seq::empty(), l);
    let w5 = list_from(w4, list, l.len() as int, 0, Seq::empty()).0;
    lemma_checked_keys_extends(w3, target, list);
    let w1 = own_keys_of(w, obj).0;
    assert(w1 == checked_keys(w3, target, list).0);
    let n = w.asked.len() as int;
    assert(w1.asked[n + 3] == w5.asked[n + 3]);
    assert forall|j: int| 0 <= j < l.len() implies #[trigger] w1.asked[n + 4 + j] == question(
        Op::Get(list, Key::Index(j as u64)),
        Seq::empty(),
    ) by {
        assert(w5.asked[w4.asked.len() + (j - 0)] == question(
            Op::Get(list, Key::Index(j as u64)),
            Seq::empty(),
        ));
        assert(w1.asked[n + 4 + j] == w5.asked[n + 4 + j]);
    }
}

/// What is asked while a reported list is checked comes behind the reading of the list.
proof fn lemma_checked_keys_extends(w: World, target: Value, res: Value)
    requires
        res.object(),
    ensures
        extends(list_of(w, res).0, checked_keys(w, target, res).0),
{
    let (w1, keys) = list_of(w, res);
    if keys is Ok {
        let (w2, extensible) = w1.yes(Op::Extensible(target));
        lemma_ordinary_keys_extends(w2, target);
        let (w3, actual) = ordinary_keys(w2, target);
        if actual is Ok {
            lemma_fixed_keys_extends(w3, target, actual->Ok_0, Seq::empty());
        }
    }
}

proof fn lemma_fixed_keys_extends(w: World, target: Value, keys: Seq<Value>, out: Seq<bool>)
    ensures
        extends(w, fixed_keys(w, target, keys, out).0),
    decreases keys.len() - out.len(),
{
    if out.len() < keys.len() {
        let (w1, p) = w.property(Op::StoredProperty(target, Key::Of(keys[out.len() as int])));
        let fixed = match p {
            Ok(Some(p)) => !p.configurable,
            _ => false,
        };
        lemma_fixed_keys_extends(w1, target, keys, out.push(fixed));
    }
}

proof fn lemma_ordinary_keys_extends(w: World, o: Value)
    ensures
        extends(w, ordinary_keys(w, o).0),
{
    let (w1, n) = w.plain(Op::SuppliedLength(o), Seq::empty());
    let (w2, keys) = w1.list(Op::OwnKeys(o));
    lemma_supplied_keys_extends(w2, 0, supplied_count(n), Seq::empty());
}

proof fn lemma_supplied_keys_extends(w: World, k: int, n: int, out: Seq<Value>)
    ensures
        extends(w, supplied_keys(w, k, n, out).0),
    decreases n - k,
{
    if k < n {
        let (w1, s) = w.intern(number_units(k));
        lemma_supplied_keys_extends(w1, k + 1, n, out.push(Value::Str(s)));
    }
}

#[verifier::spinoff_prover]
#[verifier::rlimit(60)]
proof fn lemma_nothing_fixed(w: World, target: Value, keys: Seq<Value>, out: Seq<bool>)
    requires
        forall|j: int| 0 <= j < out.len() ==> !#[trigger] out[j],
        forall|j: int|
            w.asked.len() <= j < w.answers.len() ==> ((#[trigger] w.answers[j]) matches Answer::Property(
                p,
            ) ==> p is None || p->0.configurable),
    ensures
        forall|j: int|
            0 <= j < fixed_keys(w, target, keys, out).1.len() ==> !#[trigger] fixed_keys(
                w,
                target,
                keys,
                out,
            ).1[j],
    decreases keys.len() - out.len(),
{
    if out.len() < keys.len() {
        let (w1, p) = w.property(Op::StoredProperty(target, Key::Of(keys[out.len() as int])));
        let fixed = match p {
            Ok(Some(p)) => !p.configurable,
            _ => false,
        };
        assert(!fixed);
        lemma_nothing_fixed(w1, target, keys, out.push(fixed));
        assert(fixed_keys(w, target, keys, out) == fixed_keys(
            w1,
            target,
            keys,
            out.push(fixed),
        ));
    }
}

/// A trap's list of distinct strings and symbols is accepted where the target is extensible and
/// every property of it is configurable.
#[verifier::spinoff_prover]
#[verifier::rlimit(60)]
pub proof fn law_lists_are_accepted_where_nothing_is_pinned(
    w: World,
    obj: Value,
    target: Value,
    handler: Value,
    trap: Value,
    list: Value,
    l: Seq<Value>,
    stored: Seq<Value>,
)
    requires
        proxied(w, obj, target, handler, trap),
        trap.callable(),
        list.object(),
        target.object(),
        l.len() <= num::MAX_SAFE,
        w.asked.len() + 7 + l.len() <= w.answers.len(),
        w.answers[w.asked.len() + 2int] == Answer::Value(list),
        w.answers[w.asked.len() + 3int] == Answer::Value(Value::Num(num::number(l.len() as int))),
        forall|j: int|
            0 <= j < l.len() ==> w.answers[w.asked.len() + 4 + j] == Answer::Value(#[trigger] l[j]),
        forall|j: int| 0 <= j < l.len() ==> (#[trigger] l[j]) is Str || l[j] is Sym,
        l.no_duplicates(),
        w.answers[w.asked.len() + 4 + l.len() as int] == Answer::Value(Value::Bool(true)),
        w.answers[w.asked.len() + 5 + l.len() as int] is Value,
        w.answers[w.asked.len() + 6 + l.len() as int] == Answer::List(stored),
        forall|j: int|
            w.asked.len() + 7 + l.len() <= j < w.answers.len() ==> ((
            #[trigger] w.answers[j]) matches Answer::Property(p) ==> p is None
                || p->0.configurable),
    ensures
        own_keys_of(w, obj).1 == Ok::<Seq<Value>, Value>(l),
{
    law_own_keys_are_those_the_trap_listed(w, obj, target, handler, trap, list, l);
    lemma_proxied(w, obj, target, handler, trap, "ownKeys");
    let w3 = trapped(w, obj, handler, "ownKeys", trap, seq![target]);
    num::law_numbers_hold_their_integer(l.len() as int);
    let (w4, len) = length_of(w3, list);
    assert forall|j: int| 0 <= j < l.len() implies w4.answers[w4.asked.len() + (j - 0)]
        == Answer::Value(#[trigger] l[j]) by {
        assert(w.answers[w.asked.len() + 4 + j] == Answer::Value(l[j]));
    }
    assert(l.take(0) =~= Seq::<Value>::empty());
    lemma_list_from(w4, list, l.len() as int, 0, Seq::empty(), l);
    let w5 = list_from(w4, list, l.len() as int, 0, Seq::empty()).0;
    let (w6, extensible) = w5.yes(Op::Extensible(target));
    assert(extensible);
    let (w7, n) = w6.plain(Op::SuppliedLength(target), Seq::empty());
    let (w8, keys) = w7.list(Op::OwnKeys(target));
    assert(keys == Ok::<Seq<Value>, Value>(stored));
    lemma_supplied_keys_extends(w8, 0, supplied_count(n), Seq::empty());
    let (w9, actual) = ordinary_keys(w6, target);
    let a = actual->Ok_0;
    lemma_supplied_keys_asked(w8, 0, supplied_count(n), Seq::empty());
    lemma_nothing_fixed(w9, target, a, Seq::empty());
    lemma_fixed_keys_len(w9, target, a, Seq::empty());
    let fixed = fixed_keys(w9, target, a, Seq::empty()).1;
    assert forall|j: int| 0 <= j < a.len() && fixed[j] implies l.contains(#[trigger] a[j]) by {
        assert(!fixed[j]);
    }
    assert(key_complaint(l, a, fixed, true) is None);
}

proof fn lemma_supplied_keys_asked(w: World, k: int, n: int, out: Seq<Value>)
    ensures
        supplied_keys(w, k, n, out).0.asked == w.asked,
        supplied_keys(w, k, n, out).0.answers == w.answers,
    decreases n - k,
{
    if k < n {
        let (w1, s) = w.intern(number_units(k));
        lemma_supplied_keys_asked(w1, k + 1, n, out.push(Value::Str(s)));
    }
}

// What is left to the target

/// A proxy without the trap in question behaves as its target does, in each internal method.
pub proof fn law_missing_traps_leave_it_to_the_target(
    w: World,
    obj: Value,
    target: Value,
    handler: Value,
    trap: Value,
    key: Value,
    d: PartialDesc,
    proto: Value,
)
    requires
        proxied(w, obj, target, handler, trap),
        trap.nullish(),
    ensures
        own_keys_of(w, obj) == own_keys_of(unwrapped(w, obj, handler, "ownKeys"), target),
        extensible_of(w, obj) == extensible_of(
            unwrapped(w, obj, handler, "isExtensible"),
            target,
        ),
        extensions_prevented(w, obj) == extensions_prevented(
            unwrapped(w, obj, handler, "preventExtensions"),
            target,
        ),
        prototype_of(w, obj) == prototype_of(unwrapped(w, obj, handler, "getPrototypeOf"), target),
        prototype_set(w, obj, proto) == prototype_set(
            unwrapped(w, obj, handler, "setPrototypeOf"),
            target,
            proto,
        ),
        own_property_of(w, obj, key) == own_property_of(
            unwrapped(w, obj, handler, "getOwnPropertyDescriptor"),
            target,
            key,
        ),
        property_defined(w, obj, key, d) == property_defined(
            unwrapped(w, obj, handler, "defineProperty"),
            target,
            key,
            d,
        ),
{
    lemma_proxied(w, obj, target, handler, trap, "ownKeys");
    lemma_proxied(w, obj, target, handler, trap, "isExtensible");
    lemma_proxied(w, obj, target, handler, trap, "preventExtensions");
    lemma_proxied(w, obj, target, handler, trap, "getPrototypeOf");
    lemma_proxied(w, obj, target, handler, trap, "setPrototypeOf");
    lemma_proxied(w, obj, target, handler, trap, "getOwnPropertyDescriptor");
    lemma_proxied(w, obj, target, handler, trap, "defineProperty");
}

/// A trap that is there and cannot be called makes each internal method throw; so does a proxy that
/// has been revoked.
#[verifier::spinoff_prover]
#[verifier::rlimit(60)]
pub proof fn law_broken_proxies_throw(
    w: World,
    obj: Value,
    target: Value,
    handler: Value,
    trap: Value,
    key: Value,
    d: PartialDesc,
    proto: Value,
)
    requires
        ({
            ||| proxied(w, obj, target, handler, trap) && !trap.nullish() && !trap.callable()
            ||| obj.object() && w.asked.len() < w.answers.len()
                && w.answers[w.asked.len() as int] == Answer::List(seq![target, Value::Null])
        }),
    ensures
        own_keys_of(w, obj).1 is Err,
        extensible_of(w, obj).1 is Err,
        extensions_prevented(w, obj).1 is Err,
        prototype_of(w, obj).1 is Err,
        prototype_set(w, obj, proto).1 is Err,
        own_property_of(w, obj, key).1 is Err,
        property_defined(w, obj, key, d).1 is Err,
{
    if proxied(w, obj, target, handler, trap) {
        lemma_proxied(w, obj, target, handler, trap, "ownKeys");
        lemma_proxied(w, obj, target, handler, trap, "isExtensible");
        lemma_proxied(w, obj, target, handler, trap, "preventExtensions");
        lemma_proxied(w, obj, target, handler, trap, "getPrototypeOf");
        lemma_proxied(w, obj, target, handler, trap, "setPrototypeOf");
        lemma_proxied(w, obj, target, handler, trap, "getOwnPropertyDescriptor");
        lemma_proxied(w, obj, target, handler, trap, "defineProperty");
    }
}

// Extensibility and prototypes

/// What a trap answered, behind the call of it.
pub open spec fn trap_answers(
    w: World,
    obj: Value,
    target: Value,
    handler: Value,
    trap: Value,
    res: Value,
) -> bool {
    &&& proxied(w, obj, target, handler, trap)
    &&& trap.callable()
    &&& w.asked.len() + 2 < w.answers.len()
    &&& w.answers[w.asked.len() + 2int] == Answer::Value(res)
}

/// The `isExtensible` trap is called with the target; its answer, as a boolean, is the result, and
/// it is that of the target itself.
pub proof fn law_extensibility_is_the_traps_and_the_targets(
    w: World,
    obj: Value,
    target: Value,
    handler: Value,
    trap: Value,
    res: Value,
)
    requires
        trap_answers(w, obj, target, handler, trap, res),
    ensures
        ({
            let w3 = trapped(w, obj, handler, "isExtensible", trap, seq![target]);
            let of_target = extensible_of(w3, target).1;
            match extensible_of(w, obj).1 {
                Ok(b) => b == w.truthy(res) && of_target == Ok::<bool, Value>(b),
                Err(_) => of_target is Err || of_target->Ok_0 != w.truthy(res),
            }
        }),
{
    lemma_proxied(w, obj, target, handler, trap, "isExtensible");
    let w2 = unwrapped(w, obj, handler, "isExtensible");
    let (w3, r) = w2.call(trap, handler, seq![target]);
    assert(w3 == trapped(w, obj, handler, "isExtensible", trap, seq![target]));
}

/// The `preventExtensions` trap is called with the target; the result is its answer, as a boolean,
/// and success stands only where the target is not extensible.
pub proof fn law_prevention_is_the_traps(
    w: World,
    obj: Value,
    target: Value,
    handler: Value,
    trap: Value,
    res: Value,
)
    requires
        trap_answers(w, obj, target, handler, trap, res),
    ensures
        ({
            let w3 = trapped(w, obj, handler, "preventExtensions", trap, seq![target]);
            let of_target = extensible_of(w3, target).1;
            match extensions_prevented(w, obj).1 {
                Ok(b) => b == w.truthy(res) && (b ==> of_target == Ok::<bool, Value>(false)),
                Err(_) => w.truthy(res) && of_target != Ok::<bool, Value>(false),
            }
        }),
{
    lemma_proxied(w, obj, target, handler, trap, "preventExtensions");
    let w2 = unwrapped(w, obj, handler, "preventExtensions");
    let (w3, r) = w2.call(trap, handler, seq![target]);
    assert(w3 == trapped(w, obj, handler, "preventExtensions", trap, seq![target]));
}

/// The prototype of a proxy is the object, or null, that its trap gave; over a target that is not
/// extensible it is the target's own.
pub proof fn law_prototypes_are_the_traps(
    w: World,
    obj: Value,
    target: Value,
    handler: Value,
    trap: Value,
    res: Value,
)
    requires
        trap_answers(w, obj, target, handler, trap, res),
    ensures
        ({
            let w3 = trapped(w, obj, handler, "getPrototypeOf", trap, seq![target]);
            let (w4, ext) = extensible_of(w3, target);
            match prototype_of(w, obj).1 {
                Ok(p) => {
                    &&& p == res
                    &&& p.object() || p == Value::Null
                    &&& ext is Ok
                    &&& ext == Ok::<bool, Value>(false) ==> prototype_of(w4, target).1 is Ok
                        && strictly_same(p, prototype_of(w4, target).1->Ok_0)
                },
                Err(_) => {
                    ||| !res.object() && res != Value::Null
                    ||| ext is Err
                    ||| ext == Ok::<bool, Value>(false) && (prototype_of(w4, target).1 is Err
                        || !strictly_same(res, prototype_of(w4, target).1->Ok_0))
                },
            }
        }),
{
    lemma_proxied(w, obj, target, handler, trap, "getPrototypeOf");
    let w2 = unwrapped(w, obj, handler, "getPrototypeOf");
    let (w3, r) = w2.call(trap, handler, seq![target]);
    assert(w3 == trapped(w, obj, handler, "getPrototypeOf", trap, seq![target]));
}

/// The `setPrototypeOf` trap is called with the target and the prototype; the result is its answer,
/// as a boolean. Success on a target that is not extensible stands only where the prototype is
/// already that one.
pub proof fn law_setting_prototypes_is_the_traps(
    w: World,
    obj: Value,
    target: Value,
    handler: Value,
    trap: Value,
    res: Value,
    proto: Value,
)
    requires
        trap_answers(w, obj, target, handler, trap, res),
    ensures
        ({
            let w3 = trapped(w, obj, handler, "setPrototypeOf", trap, seq![target, proto]);
            let (w4, ext) = extensible_of(w3, target);
            match prototype_set(w, obj, proto).1 {
                Ok(b) => b == w.truthy(res) && (b ==> ext is Ok && (ext->Ok_0 || strictly_same(
                    proto,
                    prototype_of(w4, target).1->Ok_0,
                ))),
                Err(_) => w.truthy(res) && ext != Ok::<bool, Value>(true),
            }
        }),
{
    lemma_proxied(w, obj, target, handler, trap, "setPrototypeOf");
    let w2 = unwrapped(w, obj, handler, "setPrototypeOf");
    let (w3, r) = w2.call(trap, handler, seq![target, proto]);
    assert(w3 == trapped(w, obj, handler, "setPrototypeOf", trap, seq![target, proto]));
}

/// An object that is no proxy is as extensible as the engine says, has the prototype that it stores,
/// and stops being extensible unless it refuses.
#[verifier::spinoff_prover]
#[verifier::rlimit(60)]
pub proof fn law_plain_objects_answer_for_themselves(w: World, obj: Value)
    requires
        plain_object(w, obj),
        w.asked.len() + 2 < w.answers.len(),
    ensures
        ({
            let n = w.asked.len() as int;
            let a = w.answers[n + 1];
            &&& extensible_of(w, obj).1 == Ok::<bool, Value>(
                a == Answer::Value(Value::Bool(true)),
            )
            &&& extensible_of(w, obj).0.asked == w.asked.push(
                question(Op::ProxyParts(obj), Seq::empty()),
            ).push(question(Op::Extensible(obj), Seq::empty()))
            &&& a matches Answer::Value(p) ==> prototype_of(w, obj).1 == Ok::<Value, Value>(
                if p.object() {
                    p
                } else {
                    Value::Null
                },
            )
            &&& prototype_of(w, obj).0.asked == w.asked.push(
                question(Op::ProxyParts(obj), Seq::empty()),
            ).push(question(Op::Prototype(obj), Seq::empty()))
            &&& extensions_prevented(w, obj).1 == Ok::<bool, Value>(
                a != Answer::Value(Value::Bool(true)),
            )
            &&& told(w, extensions_prevented(w, obj).0, Op::StopExtensions(obj), Seq::empty()) == (a
                != Answer::Value(Value::Bool(true)))
        }),
{
    let (w1, pair) = w.proxy(obj);
    assert(pair is None);
    let (w2, stays) = w1.yes(Op::StaysExtensible(obj));
    let w3 = extensions_prevented(w, obj).0;
    if stays {
        assert forall|j: int| w.asked.len() <= j < w3.asked.len() implies #[trigger] w3.asked[j]
            != question(Op::StopExtensions(obj), Seq::empty()) by {}
    } else {
        lemma_learned(w2, Op::StopExtensions(obj), Seq::empty());
        assert(w3.asked[w2.asked.len() as int] == question(Op::StopExtensions(obj), Seq::empty()));
    }
}

/// Where a prototype is set on an object that is no proxy, either it was the prototype already, or
/// it is stored, or it is refused and nothing is stored: refused on `Object.prototype`, on an object
/// that is not extensible, and on one that is the prototype itself.
#[verifier::spinoff_prover]
#[verifier::rlimit(60)]
pub proof fn law_setting_a_plain_prototype(w: World, obj: Value, proto: Value, cur: Value)
    requires
        plain_object(w, obj),
        w.asked.len() + 3 < w.answers.len(),
        w.answers[w.asked.len() + 1int] == Answer::Value(cur),
        cur.object() || cur == Value::Null,
        proto.object() || proto == Value::Null,
        proto != cur,
    ensures
        ({
            let (w1, r) = prototype_set(w, obj, proto);
            let fixed = w.answers[w.asked.len() + 2int] == Answer::Value(Value::Bool(true));
            let open = w.answers[w.asked.len() + 3int] == Answer::Value(Value::Bool(true));
            &&& r is Ok
            &&& fixed || !open || proto == obj ==> r->Ok_0 == false
            &&& proto == Value::Null && !fixed && open ==> r->Ok_0 == true
            &&& r->Ok_0 == told(w, w1, Op::StorePrototype(obj, proto), Seq::empty()) || w1.halted()
        }),
{
    let (w1, pair) = w.proxy(obj);
    let (w2, c) = w1.plain(Op::Prototype(obj), Seq::empty());
    assert(c == cur);
    let (w3, fixed) = w2.yes(Op::IsObjectPrototype(obj));
    let (w4, open) = w3.yes(Op::Extensible(obj));
    let (w5, cycle) = on_chain(w4, proto, obj);
    lemma_on_chain_stores_nothing(w4, proto, obj);
    let (w6, r) = prototype_set(w, obj, proto);
    let q = question(Op::StorePrototype(obj, proto), Seq::empty());
    if r->Ok_0 == true {
        if !w5.halted() {
            assert(w6.asked == w5.asked.push(q));
            assert(w6.asked[w5.asked.len() as int] == q);
        }
    } else {
        assert forall|j: int| w.asked.len() <= j < w6.asked.len() implies #[trigger] w6.asked[j]
            != q by {
            if fixed {
            } else if !open {
            } else {
                assert(w6 == w5);
                if j >= w4.asked.len() {
                    assert(!(w5.asked[j].op is StorePrototype));
                } else {
                    assert(w5.asked[j] == w4.asked[j]);
                }
            }
        }
    }
}

proof fn lemma_on_chain_stores_nothing(w: World, p: Value, o: Value)
    ensures
        extends(w, on_chain(w, p, o).0),
        forall|j: int|
            w.asked.len() <= j < on_chain(w, p, o).0.asked.len() ==> !((#[trigger] on_chain(
                w,
                p,
                o,
            ).0.asked[j]).op is StorePrototype),
    decreases w.left(),
{
    if p.object() && p != o && !w.halted() {
        let (w1, pair) = w.proxy(p);
        if pair is None {
            let (w2, next) = w1.plain(Op::Prototype(p), Seq::empty());
            lemma_on_chain_stores_nothing(w2, next, o);
        }
    }
}

// Descriptors

/// Between two places a field of an object was asked for: it is there with the value, or it is not
/// there.
pub open spec fn field_read(
    a: World,
    b: World,
    o: Value,
    name: &'static str,
    v: Option<Value>,
) -> bool {
    match v {
        Some(v) => {
            &&& learned(
                a,
                b,
                Op::Has(o, Key::Name(name)),
                Seq::empty(),
                Answer::Value(Value::Bool(true)),
            )
            &&& learned(a, b, Op::Get(o, Key::Name(name)), Seq::empty(), Answer::Value(v))
        },
        None => exists|x: Value|
            x != Value::Bool(true) && #[trigger] learned(
                a,
                b,
                Op::Has(o, Key::Name(name)),
                Seq::empty(),
                Answer::Value(x),
            ),
    }
}

/// The same of a field that is taken as a boolean.
pub open spec fn flag_read(
    a: World,
    b: World,
    o: Value,
    name: &'static str,
    f: Option<bool>,
) -> bool {
    match f {
        Some(f) => exists|v: Value| a.truthy(v) == f && #[trigger] field_read(a, b, o, name, Some(v)),
        None => field_read(a, b, o, name, None),
    }
}

#[verifier::spinoff_prover]
#[verifier::rlimit(60)]
proof fn lemma_field(w: World, o: Value, name: &'static str)
    requires
        value_field(w, o, name).1 is Ok,
    ensures
        extends(w, value_field(w, o, name).0),
        value_field(w, o, name).0.strings == w.strings,
        field_read(w, value_field(w, o, name).0, o, name, value_field(w, o, name).1->Ok_0),
{
    let has = Op::Has(o, Key::Name(name));
    let get = Op::Get(o, Key::Name(name));
    let (w1, h) = w.value(has, Seq::empty());
    lemma_learned(w, has, Seq::empty());
    if h->Ok_0 == Value::Bool(true) {
        let (w2, v) = w1.get(o, Key::Name(name));
        lemma_learned(w1, get, Seq::empty());
        lemma_stays_learned(w, w, w1, w2, has, Seq::empty(), Answer::Value(Value::Bool(true)));
        lemma_stays_learned(w, w1, w2, w2, get, Seq::empty(), Answer::Value(v->Ok_0));
    } else {
        assert(learned(w, w1, has, Seq::empty(), Answer::Value(h->Ok_0)));
    }
}

#[verifier::spinoff_prover]
#[verifier::rlimit(60)]
proof fn lemma_field_kept(
    a: World,
    b: World,
    c: World,
    d: World,
    o: Value,
    name: &'static str,
    v: Option<Value>,
)
    requires
        extends(a, b),
        field_read(b, c, o, name, v),
        extends(c, d),
    ensures
        field_read(a, d, o, name, v),
{
    let has = Op::Has(o, Key::Name(name));
    match v {
        Some(v) => {
            lemma_stays_learned(a, b, c, d, has, Seq::empty(), Answer::Value(Value::Bool(true)));
            lemma_stays_learned(
                a,
                b,
                c,
                d,
                Op::Get(o, Key::Name(name)),
                Seq::empty(),
                Answer::Value(v),
            );
        },
        None => {
            let x = choose|x: Value|
                x != Value::Bool(true) && #[trigger] learned(
                    b,
                    c,
                    has,
                    Seq::empty(),
                    Answer::Value(x),
                );
            lemma_stays_learned(a, b, c, d, has, Seq::empty(), Answer::Value(x));
        },
    }
}

/// A descriptor object is read field by field: a field is taken where the object has it, with the
/// value it has there, and left out where it has not. Accessors and data do not mix, and an accessor
/// is a function or undefined.
#[verifier::spinoff_prover]
#[verifier::rlimit(60)]
pub proof fn law_descriptors_are_read_field_by_field(w: World, desc: Value)
    requires
        descriptor_read(w, desc).1 is Ok,
    ensures
        ({
            let (w1, r) = descriptor_read(w, desc);
            let d = r->Ok_0;
            &&& desc.object()
            &&& field_read(w, w1, desc, "value", d.value)
            &&& field_read(w, w1, desc, "get", d.get)
            &&& field_read(w, w1, desc, "set", d.set)
            &&& flag_read(w, w1, desc, "writable", d.writable)
            &&& flag_read(w, w1, desc, "enumerable", d.enumerable)
            &&& flag_read(w, w1, desc, "configurable", d.configurable)
            &&& d.get is Some || d.set is Some ==> d.value is None && d.writable is None
            &&& d.get is Some ==> d.get->0 == Value::Undefined || d.get->0.callable()
            &&& d.set is Some ==> d.set->0 == Value::Undefined || d.set->0.callable()
        }),
{
    let (w7, r) = descriptor_read(w, desc);
    let (w1, enumerable) = value_field(w, desc, "enumerable");
    let (w2, configurable) = value_field(w1, desc, "configurable");
    let (w3, value) = value_field(w2, desc, "value");
    let (w4, writable) = value_field(w3, desc, "writable");
    let (w5, get) = value_field(w4, desc, "get");
    let (w6, set) = value_field(w5, desc, "set");
    assert(w6 == w7);
    lemma_field(w, desc, "enumerable");
    lemma_field(w1, desc, "configurable");
    lemma_field(w2, desc, "value");
    lemma_field(w3, desc, "writable");
    lemma_field(w4, desc, "get");
    lemma_field(w5, desc, "set");
    lemma_field_kept(w, w, w1, w6, desc, "enumerable", enumerable->Ok_0);
    lemma_field_kept(w, w1, w2, w6, desc, "configurable", configurable->Ok_0);
    lemma_field_kept(w, w2, w3, w6, desc, "value", value->Ok_0);
    lemma_field_kept(w, w3, w4, w6, desc, "writable", writable->Ok_0);
    lemma_field_kept(w, w4, w5, w6, desc, "get", get->Ok_0);
    lemma_field_kept(w, w5, w6, w6, desc, "set", set->Ok_0);
    if let Some(v) = enumerable->Ok_0 {
        assert(field_read(w, w6, desc, "enumerable", Some(v)));
    }
    if let Some(v) = configurable->Ok_0 {
        assert(field_read(w, w6, desc, "configurable", Some(v)));
    }
    if let Some(v) = writable->Ok_0 {
        assert(field_read(w, w6, desc, "writable", Some(v)));
    }
}

/// A property as a descriptor describes it, with what it leaves out at its default.
pub open spec fn described(d: PartialDesc, p: Property) -> bool {
    &&& p.accessor == (d.get is Some || d.set is Some)
    &&& p.enumerable == (d.enumerable == Some(true))
    &&& p.configurable == (d.configurable == Some(true))
    &&& !p.accessor ==> p.writable == (d.writable == Some(true))
    &&& !p.accessor ==> p.value == match d.value {
        Some(v) => v,
        None => Value::Undefined,
    }
    &&& p.accessor ==> p.get == match d.get {
        Some(v) => v,
        None => Value::Undefined,
    }
    &&& p.accessor ==> p.set == match d.set {
        Some(v) => v,
        None => Value::Undefined,
    }
}

/// A `getOwnPropertyDescriptor` trap is called with the target and the key. A proxy reports no
/// property where it gave undefined, and otherwise the property that its answer describes, whatever
/// the target stores.
#[verifier::spinoff_prover]
#[verifier::rlimit(60)]
pub proof fn law_properties_are_those_the_trap_described(
    w: World,
    obj: Value,
    target: Value,
    handler: Value,
    trap: Value,
    res: Value,
    key: Value,
    supplied: Option<Property>,
)
    requires
        trap_answers(w, obj, target, handler, trap, res),
        target.object(),
        w.asked.len() + 3 < w.answers.len(),
        w.answers[w.asked.len() + 3int] == Answer::Property(supplied),
    ensures
        ({
            let w3 = trapped(
                w,
                obj,
                handler,
                "getOwnPropertyDescriptor",
                trap,
                seq![target, key],
            );
            let w4 = w3.ask(Op::SuppliedProperty(target, Key::Of(key)), Seq::empty()).0;
            match own_property_of(w, obj, key).1 {
                Ok(None) => res == Value::Undefined,
                Ok(Some(p)) => res.object() && descriptor_read(w4, res).1 is Ok && described(
                    descriptor_read(w4, res).1->Ok_0,
                    p,
                ),
                Err(_) => true,
            }
        }),
{
    lemma_proxied(w, obj, target, handler, trap, "getOwnPropertyDescriptor");
    let w2 = unwrapped(w, obj, handler, "getOwnPropertyDescriptor");
    let (w3, r) = w2.call(trap, handler, seq![target, key]);
    assert(w3 == trapped(w, obj, handler, "getOwnPropertyDescriptor", trap, seq![target, key]));
    let (w4, s) = w3.property(Op::SuppliedProperty(target, Key::Of(key)));
    if res.object() && descriptor_read(w4, res).1 is Ok {
        law_descriptors_are_read_field_by_field(w4, res);
    }
}

/// What an object that is no proxy has is its own property.
pub proof fn law_plain_properties_are_their_own(w: World, obj: Value, key: Value, p: Option<Property>)
    requires
        plain_object(w, obj),
        w.asked.len() + 1 < w.answers.len(),
        w.answers[w.asked.len() + 1int] == Answer::Property(p),
    ensures
        own_property_of(w, obj, key).1 == Ok::<Option<Property>, Value>(p),
        own_property_of(w, obj, key).0.asked == w.asked.push(
            question(Op::ProxyParts(obj), Seq::empty()),
        ).push(question(Op::OwnProperty(obj, Key::Of(key)), Seq::empty())),
{
}

// [[DefineOwnProperty]]

/// A field of a fresh object is an ordinary one: writable, enumerable and configurable.
pub open spec fn open_data(v: Value) -> Property {
    Property {
        value: v,
        get: Value::Undefined,
        set: Value::Undefined,
        accessor: false,
        writable: true,
        enumerable: true,
        configurable: true,
    }
}

/// Between two places a field of a fresh object was stored, where there is a value for it.
pub open spec fn field_told(
    a: World,
    b: World,
    o: Value,
    name: &'static str,
    v: Option<Value>,
) -> bool {
    v matches Some(v) ==> told(
        a,
        b,
        Op::StoreProperty(o, Key::Name(name), open_data(v)),
        Seq::empty(),
    )
}

proof fn lemma_field_stored(
    a: World,
    w: World,
    d: World,
    o: Value,
    name: &'static str,
    v: Option<Value>,
)
    requires
        extends(a, w),
        extends(field_stored(w, o, name, v), d),
        !field_stored(w, o, name, v).halted(),
    ensures
        extends(w, field_stored(w, o, name, v)),
        field_told(a, d, o, name, v),
{
    if let Some(v) = v {
        let op = Op::StoreProperty(o, Key::Name(name), open_data(v));
        let w1 = field_stored(w, o, name, Some(v));
        assert(w1 == w.ask(op, Seq::empty()).0);
        lemma_learned(w, op, Seq::empty());
        lemma_stays_told(a, w, w1, d, op, Seq::empty());
    }
}

proof fn lemma_field_extends(w: World, o: Value, name: &'static str, v: Option<Value>)
    ensures
        extends(w, field_stored(w, o, name, v)),
        !field_stored(w, o, name, v).halted() ==> field_stored(w, o, name, v).asked.len()
            == w.asked.len() + count(v is Some),
{
}

/// A trap that is handed a descriptor gets a fresh object with the fields that the descriptor has,
/// each under its name and with its value.
#[verifier::spinoff_prover]
#[verifier::rlimit(50)]
pub proof fn law_descriptor_objects_hold_the_fields(w: World, d: PartialDesc)
    requires
        !partial_object(w, d).0.halted(),
    ensures
        ({
            let (w1, o) = partial_object(w, d);
            &&& field_told(w, w1, o, "value", d.value)
            &&& field_told(w, w1, o, "get", d.get)
            &&& field_told(w, w1, o, "set", d.set)
            &&& d.writable is Some ==> field_told(
                w,
                w1,
                o,
                "writable",
                Some(Value::Bool(d.writable->0)),
            )
            &&& d.enumerable is Some ==> field_told(
                w,
                w1,
                o,
                "enumerable",
                Some(Value::Bool(d.enumerable->0)),
            )
            &&& d.configurable is Some ==> field_told(
                w,
                w1,
                o,
                "configurable",
                Some(Value::Bool(d.configurable->0)),
            )
            &&& learned(w, w1, Op::NewObject, Seq::empty(), w.answers[w.asked.len() as int])
            &&& w1.asked.len() == w.asked.len() + 1 + count(d.value is Some) + count(
                d.writable is Some,
            ) + count(d.get is Some) + count(d.set is Some) + count(d.enumerable is Some) + count(
                d.configurable is Some,
            )
        }),
{
    let (w1, o) = w.plain(Op::NewObject, Seq::empty());
    let w2 = field_stored(w1, o, "value", d.value);
    let w3 = field_stored(w2, o, "writable", flag(d.writable));
    let w4 = field_stored(w3, o, "get", d.get);
    let w5 = field_stored(w4, o, "set", d.set);
    let w6 = field_stored(w5, o, "enumerable", flag(d.enumerable));
    let w7 = field_stored(w6, o, "configurable", flag(d.configurable));
    lemma_field_extends(w1, o, "value", d.value);
    lemma_field_extends(w2, o, "writable", flag(d.writable));
    lemma_field_extends(w3, o, "get", d.get);
    lemma_field_extends(w4, o, "set", d.set);
    lemma_field_extends(w5, o, "enumerable", flag(d.enumerable));
    lemma_field_extends(w6, o, "configurable", flag(d.configurable));
    assert(!w.halted() && w.asked.len() < w.answers.len());
    lemma_learned(w, Op::NewObject, Seq::empty());
    lemma_field_stored(w, w6, w7, o, "configurable", flag(d.configurable));
    lemma_field_stored(w, w5, w7, o, "enumerable", flag(d.enumerable));
    lemma_field_stored(w, w4, w7, o, "set", d.set);
    lemma_field_stored(w, w3, w7, o, "get", d.get);
    lemma_field_stored(w, w2, w7, o, "writable", flag(d.writable));
    lemma_field_stored(w, w1, w7, o, "value", d.value);
    lemma_stays_learned(
        w,
        w,
        w1,
        w7,
        Op::NewObject,
        Seq::empty(),
        w.answers[w.asked.len() as int],
    );
}

/// One where something holds, else nothing.
pub open spec fn count(b: bool) -> nat {
    if b {
        1
    } else {
        0
    }
}

/// A `defineProperty` trap is called with the target, the key and the descriptor object, and the
/// result is its answer, as a boolean, or a throw.
#[verifier::spinoff_prover]
#[verifier::rlimit(60)]
pub proof fn law_definitions_are_the_traps(
    w: World,
    obj: Value,
    target: Value,
    handler: Value,
    trap: Value,
    key: Value,
    d: PartialDesc,
    res: Value,
)
    requires
        proxied(w, obj, target, handler, trap),
        trap.callable(),
        ({
            let (w3, norm) = partial_object(unwrapped(w, obj, handler, "defineProperty"), d);
            w3.asked.len() < w3.answers.len() && w3.answers[w3.asked.len() as int]
                == Answer::Value(res)
        }),
    ensures
        ({
            let (w3, norm) = partial_object(unwrapped(w, obj, handler, "defineProperty"), d);
            let (w1, r) = property_defined(w, obj, key, d);
            &&& exchanged(
                w1,
                w3.asked.len() as int,
                Op::Call(trap, handler),
                seq![target, key, norm],
                Answer::Value(res),
            )
            &&& r matches Ok(b) ==> b == w3.truthy(res)
            &&& !w3.truthy(res) ==> r is Ok
        }),
{
    lemma_proxied(w, obj, target, handler, trap, "defineProperty");
    let w2 = unwrapped(w, obj, handler, "defineProperty");
    let (w3, norm) = partial_object(w2, d);
    let (w4, r) = w3.call(trap, handler, seq![target, key, norm]);
    lemma_learned(w3, Op::Call(trap, handler), seq![target, key, norm]);
    let w1 = property_defined(w, obj, key, d).0;
    assert(extends(w4, w1));
    assert(w1.asked[w3.asked.len() as int] == w4.asked[w3.asked.len() as int]);
}

} // verus!
