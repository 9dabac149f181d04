//! What the `Object` functions read from objects and write to them.
use vstd::prelude::*;
use crate::interp::{Answer, Key, KeyClass, Op, Property, Question, Value, World};
use crate::iterator::stepped;
use crate::object::{
    applied, copied_from, deleted, entries_from, entry_stored, got_for, integrity_from, listed,
    listed_from, receiver_written, set_along, shown, Listing,
};
use crate::proxy_laws::{open_data, plain_object};
use crate::realm::{descriptor_object, stored};
use crate::regexp_laws::{has_stored, lemma_stored};
use crate::trace::{
    extends, learned, lemma_learned, lemma_stays_learned, lemma_stays_told, question, told,
};

verus! {

/// An ordinary object: what it has under a key, and whether that is enumerable.
pub struct Plain {
    pub object: Value,
    pub value: spec_fn(Value) -> Value,
    pub shows: spec_fn(Value) -> bool,
}

impl Plain {
    /// The answers that the object gives.
    pub open spec fn fits(self, q: Question, a: Answer) -> bool {
        match q.op {
            Op::OwnProperty(o, Key::Of(k)) => o == self.object ==> a is Property && (
            a->Property_0 is Some && a->Property_0->0.enumerable) == (self.shows)(k),
            Op::Get(o, Key::Of(k)) => o == self.object ==> a == Answer::Value((self.value)(k)),
            _ => true,
        }
    }

    /// Every question about the object was answered so.
    pub open spec fn faithful(self, w: World) -> bool {
        forall|j: int|
            0 <= j < w.asked.len() && j < w.answers.len() ==> self.fits(
                #[trigger] w.asked[j],
                w.answers[j],
            )
    }

    proof fn lemma_earlier(self, a: World, b: World)
        requires
            extends(a, b),
            self.faithful(b),
        ensures
            self.faithful(a),
    {
        assert forall|j: int| 0 <= j < a.asked.len() && j < a.answers.len() implies self.fits(
            #[trigger] a.asked[j],
            a.answers[j],
        ) by {
            assert(b.asked[j] == a.asked[j]);
        }
    }

    proof fn lemma_ask(self, w: World, op: Op)
        requires
            w.asked.len() < w.answers.len(),
            self.faithful(w.ask(op, Seq::empty()).0),
        ensures
            extends(w, w.ask(op, Seq::empty()).0),
            self.faithful(w),
            self.fits(question(op, Seq::empty()), w.answers[w.asked.len() as int]),
    {
        let b = w.ask(op, Seq::empty()).0;
        assert(b.asked[w.asked.len() as int] == question(op, Seq::empty()));
        self.lemma_earlier(w, b);
    }
}

// keys, values and entries

/// The keys from `j` on that are strings and enumerable.
pub open spec fn visible(p: Plain, keys: Seq<Value>, j: int) -> Seq<Value>
    decreases keys.len() - j,
{
    if j < 0 || j >= keys.len() {
        Seq::empty()
    } else if keys[j] is Str && (p.shows)(keys[j]) {
        seq![keys[j]] + visible(p, keys, j + 1)
    } else {
        visible(p, keys, j + 1)
    }
}

/// What is listed for a key: the key, its value, or an array of both.
pub open spec fn lists(a: World, b: World, p: Plain, what: Listing, key: Value, x: Value) -> bool {
    match what {
        Listing::Keys => x == key,
        Listing::Values => x == (p.value)(key),
        Listing::Entries => x.object() ==> learned(
            a,
            b,
            Op::NewArray,
            seq![key, (p.value)(key)],
            Answer::Value(x),
        ),
    }
}

#[verifier::spinoff_prover]
#[verifier::rlimit(60)]
proof fn lemma_listed_extends(w: World, o: Value, keys: Seq<Value>, j: int, what: Listing, out: Seq<Value>)
    ensures
        extends(w, listed_from(w, o, None, keys, j, what, out).0),
    decreases keys.len() - j,
{
    if 0 <= j < keys.len() {
        if !(keys[j] is Str) {
            lemma_listed_extends(w, o, keys, j + 1, what, out);
        } else {
            let (w1, e) = shown(w, o, None, keys[j]);
            if e is Ok {
                if !e->Ok_0 {
                    lemma_listed_extends(w1, o, keys, j + 1, what, out);
                } else if what == Listing::Keys {
                    lemma_listed_extends(w1, o, keys, j + 1, what, out.push(keys[j]));
                } else {
                    let (w2, v) = w1.get(o, Key::Of(keys[j]));
                    if v is Ok {
                        if what == Listing::Values {
                            lemma_listed_extends(w2, o, keys, j + 1, what, out.push(v->Ok_0));
                        } else {
                            let (w3, entry) = w2.plain(Op::NewArray, seq![keys[j], v->Ok_0]);
                            lemma_listed_extends(w3, o, keys, j + 1, what, out.push(entry));
                        }
                    }
                }
            }
        }
    }
}

/// The listed values are those of the visible keys, behind what there was.
pub open spec fn lists_all(
    a: World,
    b: World,
    p: Plain,
    what: Listing,
    keys: Seq<Value>,
    out: Seq<Value>,
    from: int,
) -> bool {
    &&& out.len() == from + keys.len()
    &&& forall|k: int|
        from <= k < out.len() ==> lists(a, b, p, what, keys[k - from], #[trigger] out[k])
}

#[verifier::spinoff_prover]
#[verifier::rlimit(60)]
proof fn lemma_listed(
    a: World,
    w: World,
    p: Plain,
    keys: Seq<Value>,
    j: int,
    what: Listing,
    out: Seq<Value>,
)
    requires
        extends(a, w),
        p.object.object(),
        0 <= j <= keys.len(),
        listed_from(w, p.object, None, keys, j, what, out).1 is Ok,
        !listed_from(w, p.object, None, keys, j, what, out).0.halted(),
        p.faithful(listed_from(w, p.object, None, keys, j, what, out).0),
    ensures
        ({
            let (w1, r) = listed_from(w, p.object, None, keys, j, what, out);
            &&& lists_all(a, w1, p, what, visible(p, keys, j), r->Ok_0, out.len() as int)
            &&& forall|k: int| 0 <= k < out.len() ==> r->Ok_0[k] == out[k]
        }),
    decreases keys.len() - j,
{
    if j < keys.len() {
        let (wf, r) = listed_from(w, p.object, None, keys, j, what, out);
        let k = keys[j];
        let n = out.len() as int;
        if !(k is Str) {
            lemma_listed(a, w, p, keys, j + 1, what, out);
        } else {
            let op = Op::OwnProperty(p.object, Key::Of(k));
            let (w1, e) = shown(w, p.object, None, k);
            if !e->Ok_0 {
                lemma_listed_extends(w1, p.object, keys, j + 1, what, out);
                p.lemma_earlier(w1, wf);
                p.lemma_ask(w, op);
                lemma_listed(a, w1, p, keys, j + 1, what, out);
            } else {
                let get = Op::Get(p.object, Key::Of(k));
                let (w2, v) = w1.get(p.object, Key::Of(k));
                let make = seq![k, v->Ok_0];
                let (w3, entry) = w2.plain(Op::NewArray, make);
                let x = match what {
                    Listing::Keys => k,
                    Listing::Values => v->Ok_0,
                    Listing::Entries => entry,
                };
                let w4 = match what {
                    Listing::Keys => w1,
                    Listing::Values => w2,
                    Listing::Entries => w3,
                };
                lemma_listed_extends(w4, p.object, keys, j + 1, what, out.push(x));
                p.lemma_earlier(w1, wf);
                p.lemma_ask(w, op);
                if what != Listing::Keys {
                    p.lemma_earlier(w2, wf);
                    p.lemma_ask(w1, get);
                }
                lemma_listed(a, w4, p, keys, j + 1, what, out.push(x));
                if what == Listing::Entries && x.object() {
                    lemma_learned(w2, Op::NewArray, make);
                    lemma_stays_learned(a, w2, w3, wf, Op::NewArray, make, Answer::Value(entry));
                }
                assert(lists(a, wf, p, what, k, x));
                assert(r->Ok_0[n] == out.push(x)[n]);
                let rest = visible(p, keys, j + 1);
                let all = visible(p, keys, j);
                assert(all == seq![k] + rest);
                assert forall|i: int| n <= i < r->Ok_0.len() implies lists(
                    a,
                    wf,
                    p,
                    what,
                    all[i - n],
                    #[trigger] r->Ok_0[i],
                ) by {
                    if i > n {
                        assert(lists(a, wf, p, what, rest[i - (n + 1)], r->Ok_0[i]));
                    }
                }
                assert forall|i: int| 0 <= i < n implies r->Ok_0[i] == out[i] by {
                    assert(r->Ok_0[i] == out.push(x)[i]);
                }
            }
        }
    }
}

/// `Object.keys`, `values` and `entries` of an ordinary object list, in the order of its keys, each
/// string key that is enumerable, or its value, or both; nothing else is listed.
pub proof fn law_listings_show_enumerable_strings(
    w: World,
    p: Plain,
    keys: Seq<Value>,
    what: Listing,
)
    requires
        p.object.object(),
        listed_from(w, p.object, None, keys, 0, what, Seq::empty()).1 is Ok,
        !listed_from(w, p.object, None, keys, 0, what, Seq::empty()).0.halted(),
        p.faithful(listed_from(w, p.object, None, keys, 0, what, Seq::empty()).0),
    ensures
        ({
            let (w1, r) = listed_from(w, p.object, None, keys, 0, what, Seq::empty());
            lists_all(w, w1, p, what, visible(p, keys, 0), r->Ok_0, 0)
        }),
{
    lemma_listed(w, w, p, keys, 0, what, Seq::empty());
}

// assign

#[verifier::spinoff_prover]
#[verifier::rlimit(60)]
proof fn lemma_copied_extends(w: World, to: Value, o: Value, keys: Seq<Value>, j: int)
    ensures
        extends(w, copied_from(w, to, o, None, keys, j).0),
    decreases keys.len() - j,
{
    if 0 <= j < keys.len() {
        let (w1, e) = shown(w, o, None, keys[j]);
        if e is Ok {
            if !e->Ok_0 {
                lemma_copied_extends(w1, to, o, keys, j + 1);
            } else {
                let (w2, v) = w1.get(o, Key::Of(keys[j]));
                if v is Ok {
                    let (w3, r) = w2.value(Op::Put(to, Key::Of(keys[j]), v->Ok_0), Seq::empty());
                    if r is Ok {
                        lemma_copied_extends(w3, to, o, keys, j + 1);
                    }
                }
            }
        }
    }
}

/// `Object.assign` from an ordinary object puts each enumerable property, strings and symbols alike,
/// under its key into the target, with the value that the source has, and puts nothing else.
#[verifier::spinoff_prover]
#[verifier::rlimit(60)]
pub proof fn law_assign_puts_the_enumerable_properties(
    a: World,
    w: World,
    to: Value,
    p: Plain,
    keys: Seq<Value>,
    j: int,
)
    requires
        extends(a, w),
        p.object.object(),
        0 <= j <= keys.len(),
        copied_from(w, to, p.object, None, keys, j).1 is Ok,
        p.faithful(copied_from(w, to, p.object, None, keys, j).0),
    ensures
        ({
            let w1 = copied_from(w, to, p.object, None, keys, j).0;
            &&& forall|k: int|
                j <= k < keys.len() && (p.shows)(#[trigger] keys[k]) ==> told(
                    a,
                    w1,
                    Op::Put(to, Key::Of(keys[k]), (p.value)(keys[k])),
                    Seq::empty(),
                )
            &&& forall|i: int|
                w.asked.len() <= i < w1.asked.len() ==> ((#[trigger] w1.asked[i]).op is Put ==> exists|
                    k: int,
                |
                    j <= k < keys.len() && (p.shows)(#[trigger] keys[k]) && w1.asked[i] == question(
                        Op::Put(to, Key::Of(keys[k]), (p.value)(keys[k])),
                        Seq::empty(),
                    ))
        }),
    decreases keys.len() - j,
{
    if j < keys.len() {
        let wf = copied_from(w, to, p.object, None, keys, j).0;
        let k = keys[j];
        let (w1, e) = shown(w, p.object, None, k);
        if !e->Ok_0 {
            lemma_copied_extends(w1, to, p.object, keys, j + 1);
            p.lemma_earlier(w1, wf);
            p.lemma_ask(w, Op::OwnProperty(p.object, Key::Of(k)));
            law_assign_puts_the_enumerable_properties(a, w1, to, p, keys, j + 1);
            assert forall|i: int|
                w.asked.len() <= i < wf.asked.len() && (#[trigger] wf.asked[i]).op is Put implies
                exists|k: int|
                j <= k < keys.len() && (p.shows)(#[trigger] keys[k]) && wf.asked[i] == question(
                    Op::Put(to, Key::Of(keys[k]), (p.value)(keys[k])),
                    Seq::empty(),
                ) by {
                if i < w1.asked.len() {
                    assert(wf.asked[i] == w1.asked[i]);
                }
            }
        } else {
            let (w2, v) = w1.get(p.object, Key::Of(k));
            let put = Op::Put(to, Key::Of(k), v->Ok_0);
            let (w3, r) = w2.value(put, Seq::empty());
            lemma_copied_extends(w3, to, p.object, keys, j + 1);
            p.lemma_earlier(w2, wf);
            p.lemma_earlier(w1, wf);
            p.lemma_ask(w1, Op::Get(p.object, Key::Of(k)));
            p.lemma_ask(w, Op::OwnProperty(p.object, Key::Of(k)));
            lemma_learned(w2, put, Seq::empty());
            lemma_stays_told(a, w2, w3, wf, put, Seq::empty());
            law_assign_puts_the_enumerable_properties(a, w3, to, p, keys, j + 1);
            assert forall|i: int|
                w.asked.len() <= i < wf.asked.len() && (#[trigger] wf.asked[i]).op is Put implies
                exists|k: int|
                j <= k < keys.len() && (p.shows)(#[trigger] keys[k]) && wf.asked[i] == question(
                    Op::Put(to, Key::Of(keys[k]), (p.value)(keys[k])),
                    Seq::empty(),
                ) by {
                if i < w3.asked.len() {
                    assert(wf.asked[i] == w3.asked[i]);
                    assert(i == w2.asked.len());
                    assert((p.shows)(keys[j]));
                }
            }
        }
    }
}

// Reading and writing along the prototypes

/// What an object answers when it is asked for a key: it is no proxy, the key is an ordinary one,
/// and it has this own property under it.
pub open spec fn own_answer(w: World, o: Value, p: Option<Property>) -> bool {
    let n = w.asked.len() as int;
    &&& plain_object(w, o)
    &&& n + 4 < w.answers.len()
    &&& w.answers[n + 1] is Value
    &&& w.answers[n + 2] == Answer::Class(KeyClass::Ordinary)
    &&& w.answers[n + 3] == Answer::Property(p)
}

/// `[[Get]]` gives the value of an own data property, what the getter of an own accessor gives for
/// the receiver, or undefined without one, and otherwise what the prototype gives for the same
/// receiver; undefined at the end of the chain.
pub proof fn law_get_reads_the_nearest_property(
    w: World,
    o: Value,
    key: Value,
    receiver: Value,
    p: Option<Property>,
)
    requires
        own_answer(w, o, p),
    ensures
        ({
            let n = w.asked.len() as int;
            let (w1, r) = got_for(w, o, key, receiver);
            let w4 = World {
                asked: w.asked.push(question(Op::ProxyParts(o), Seq::empty())).push(
                    question(Op::TriggerDeferred(o, key), Seq::empty()),
                ).push(question(Op::Classify(o, Key::Of(key)), Seq::empty())).push(
                    question(Op::OwnProperty(o, Key::Of(key)), Seq::empty()),
                ),
                ..w
            };
            match p {
                Some(p) => if !p.accessor {
                    r == Ok::<Value, Value>(p.value) && w1 == w4
                } else if !p.get.callable() {
                    r == Ok::<Value, Value>(Value::Undefined)
                } else {
                    (w1, r) == w4.value(Op::Call(p.get, receiver), Seq::empty())
                },
                None => {
                    let w5 = w4.ask(Op::Prototype(o), Seq::empty()).0;
                    match w.answers[n + 4] {
                        Answer::Value(proto) => if proto.object() {
                            (w1, r) == got_for(w5, proto, key, receiver)
                        } else {
                            r == Ok::<Value, Value>(Value::Undefined)
                        },
                        _ => true,
                    }
                },
            }
        }),
{
}

/// `[[Set]]` of a value: an own setter is called on the receiver with it; a property that is not
/// writable, or an accessor without a setter, refuses it; otherwise the receiver gets it. Without an
/// own property the prototype decides, and at the end of the chain the receiver gets it.
pub proof fn law_set_goes_by_the_nearest_property(
    w: World,
    o: Value,
    key: Value,
    v: Value,
    receiver: Value,
    p: Option<Property>,
)
    requires
        plain_object(w, o),
        w.asked.len() + 3 < w.answers.len(),
        w.answers[w.asked.len() + 1int] == Answer::Class(KeyClass::Ordinary),
        w.answers[w.asked.len() + 2int] == Answer::Property(p),
    ensures
        ({
            let n = w.asked.len() as int;
            let (w1, r) = set_along(w, o, key, v, receiver);
            let w3 = World {
                asked: w.asked.push(question(Op::ProxyParts(o), Seq::empty())).push(
                    question(Op::Classify(o, Key::Of(key)), Seq::empty()),
                ).push(question(Op::OwnProperty(o, Key::Of(key)), Seq::empty())),
                ..w
            };
            match p {
                Some(p) => if p.accessor && p.set.callable() {
                    &&& w1.asked == w3.asked.push(question(Op::Call(p.set, receiver), seq![v]))
                    &&& r == match w.answers[n + 3] {
                        Answer::Value(_) => Ok::<bool, Value>(true),
                        Answer::Throw(e) => Err(e),
                        _ => Err(Value::Undefined),
                    }
                } else if p.accessor || !p.writable {
                    r == Ok::<bool, Value>(false) && w1 == w3
                } else {
                    (w1, r) == receiver_written(w3, receiver, key, v)
                },
                None => {
                    let w4 = w3.ask(Op::Prototype(o), Seq::empty()).0;
                    match w.answers[n + 3] {
                        Answer::Value(proto) => if proto.object() {
                            (w1, r) == set_along(w4, proto, key, v, receiver)
                        } else {
                            (w1, r) == receiver_written(w4, receiver, key, v)
                        },
                        _ => true,
                    }
                },
            }
        }),
{
}

/// A receiver that is an ordinary object gets a value: an own data property that is writable keeps
/// its attributes and takes the value; one that is not, or an accessor, refuses it. Without one an
/// extensible receiver gets an open data property, and another refuses.
pub proof fn law_receivers_take_the_value(
    w: World,
    receiver: Value,
    key: Value,
    v: Value,
    p: Option<Property>,
)
    requires
        plain_object(w, receiver),
        w.asked.len() + 5 < w.answers.len(),
        w.answers[w.asked.len() + 1int] == Answer::Class(KeyClass::Ordinary),
        w.answers[w.asked.len() + 2int] == Answer::Value(Value::Bool(false)),
        w.answers[w.asked.len() + 3int] == Answer::Property(p),
    ensures
        ({
            let (w1, r) = receiver_written(w, receiver, key, v);
            let n = w.asked.len() as int;
            let open = w.answers[n + 4] == Answer::Value(Value::Bool(true));
            &&& r == Ok::<bool, Value>(
                match p {
                    Some(p) => !p.accessor && p.writable,
                    None => open,
                },
            )
            &&& r == Ok::<bool, Value>(true) ==> w1.asked.last() == question(
                Op::StoreProperty(
                    receiver,
                    Key::Of(key),
                    match p {
                        Some(p) => Property { value: v, ..p },
                        None => open_data(v),
                    },
                ),
                Seq::empty(),
            )
            &&& r == Ok::<bool, Value>(false) ==> forall|j: int|
                n <= j < w1.asked.len() ==> !((#[trigger] w1.asked[j]).op is StoreProperty)
        }),
{
}

/// Deleting a property of an ordinary object takes it out where it is configurable, throws where it
/// is not, and does nothing where there is none.
#[verifier::spinoff_prover]
#[verifier::rlimit(60)]
pub proof fn law_delete_spares_the_pinned(w: World, o: Value, key: Value, p: Option<Property>)
    requires
        plain_object(w, o),
        w.asked.len() + 3 < w.answers.len(),
        w.answers[w.asked.len() + 1int] == Answer::Class(KeyClass::Ordinary),
        w.answers[w.asked.len() + 2int] == Answer::Property(p),
    ensures
        ({
            let (w1, r) = deleted(w, o, key);
            let gone = told(w, w1, Op::RemoveProperty(o, Key::Of(key)), Seq::empty());
            match p {
                None => r is Ok && !gone,
                Some(p) => (r is Ok) == p.configurable && gone == p.configurable,
            }
        }),
{
    let (w1, r) = deleted(w, o, key);
    let n = w.asked.len() as int;
    let q = question(Op::RemoveProperty(o, Key::Of(key)), Seq::empty());
    if p is Some && p->0.configurable {
        assert(w1.asked[n + 3] == q);
    } else {
        assert forall|j: int| n <= j < w1.asked.len() implies #[trigger] w1.asked[j] != q by {}
    }
}

// Descriptors and entries

/// `Object.getOwnPropertyDescriptor` describes a property by a fresh object: its value and whether it
/// is writable, or its getter and its setter, and its other two attributes.
#[verifier::spinoff_prover]
#[verifier::rlimit(60)]
pub proof fn law_descriptor_objects_describe(w: World, p: Property)
    requires
        !descriptor_object(w, p).0.halted(),
    ensures
        ({
            let (w1, d) = descriptor_object(w, p);
            &&& !p.accessor ==> has_stored(w, w1, d, Key::Name("value"), p.value) && has_stored(
                w,
                w1,
                d,
                Key::Name("writable"),
                Value::Bool(p.writable),
            )
            &&& p.accessor ==> has_stored(w, w1, d, Key::Name("get"), p.get) && has_stored(
                w,
                w1,
                d,
                Key::Name("set"),
                p.set,
            )
            &&& has_stored(w, w1, d, Key::Name("enumerable"), Value::Bool(p.enumerable))
            &&& has_stored(w, w1, d, Key::Name("configurable"), Value::Bool(p.configurable))
            &&& w1.asked.len() == w.asked.len() + 5
        }),
{
    let (w1, d) = w.plain(Op::NewObject, Seq::empty());
    let (k2, v2) = if p.accessor {
        (Key::Name("get"), p.get)
    } else {
        (Key::Name("value"), p.value)
    };
    let (k3, v3) = if p.accessor {
        (Key::Name("set"), p.set)
    } else {
        (Key::Name("writable"), Value::Bool(p.writable))
    };
    let w2 = stored(w1, d, k2, v2);
    let w3 = stored(w2, d, k3, v3);
    let (k4, v4) = (Key::Name("enumerable"), Value::Bool(p.enumerable));
    let w4 = stored(w3, d, k4, v4);
    let (k5, v5) = (Key::Name("configurable"), Value::Bool(p.configurable));
    let w5 = stored(w4, d, k5, v5);
    assert(w5 == descriptor_object(w, p).0);
    lemma_stored(w, w1, w5, d, k2, v2);
    lemma_stored(w, w2, w5, d, k3, v3);
    lemma_stored(w, w3, w5, d, k4, v4);
    lemma_stored(w, w4, w5, d, k5, v5);
}

/// An entry of `Object.fromEntries` stores its element 1 under its element 0.
pub proof fn law_entries_pair_key_and_value(w: World, obj: Value, entry: Value, k: Value, v: Value)
    requires
        entry.object(),
        k is Str || k is Sym,
        w.asked.len() + 2 < w.answers.len(),
        w.answers[w.asked.len() as int] == Answer::Value(k),
        w.answers[w.asked.len() + 1int] == Answer::Value(v),
    ensures
        ({
            let (w1, r) = entry_stored(w, obj, entry);
            &&& r is Ok
            &&& w1.asked == w.asked.push(
                question(Op::Get(entry, Key::Index(0)), Seq::empty()),
            ).push(question(Op::Get(entry, Key::Index(1)), Seq::empty())).push(
                question(Op::StoreProperty(obj, Key::Of(k), open_data(v)), Seq::empty()),
            )
        }),
{
}

// Integrity

/// What `isSealed` and `isFrozen` test of each property: none is configurable, and, for the second,
/// no data property is writable.
pub open spec fn holds_firm(p: Option<Property>, frozen: bool) -> bool {
    p matches Some(p) ==> !p.configurable && (frozen && !p.accessor ==> !p.writable)
}

/// The test of one property decides with the tests of the rest.
pub proof fn law_integrity_is_that_of_every_property(
    w: World,
    obj: Value,
    keys: Seq<Value>,
    j: int,
    frozen: bool,
    p: Option<Property>,
)
    requires
        0 <= j < keys.len(),
        plain_object(w, obj),
        w.asked.len() + 1 < w.answers.len(),
        w.answers[w.asked.len() + 1int] == Answer::Property(p),
    ensures
        ({
            let w2 = World {
                asked: w.asked.push(question(Op::ProxyParts(obj), Seq::empty())).push(
                    question(Op::OwnProperty(obj, Key::Of(keys[j])), Seq::empty()),
                ),
                ..w
            };
            let r = integrity_from(w, obj, keys, j, frozen);
            &&& !holds_firm(p, frozen) ==> r.1 == Ok::<bool, Value>(false)
            &&& holds_firm(p, frozen) ==> r == integrity_from(w2, obj, keys, j + 1, frozen)
        }),
        integrity_from(w, obj, keys, keys.len() as int, frozen).1 == Ok::<bool, Value>(true),
{
    crate::proxy_laws::law_plain_properties_are_their_own(w, obj, keys[j], p);
}

// apply

/// `apply` calls the function on the receiver with the elements of the list, in order, and gives what
/// it gives; without a list it hands over nothing.
#[verifier::spinoff_prover]
#[verifier::rlimit(60)]
pub proof fn law_apply_hands_the_list_over(
    w: World,
    f: Value,
    this: Value,
    list: Value,
    limit: u64,
    l: Seq<Value>,
)
    requires
        list.object(),
        l.len() <= limit,
        l.len() <= crate::num::MAX_SAFE,
        w.asked.len() + 1 + l.len() < w.answers.len(),
        w.answers[w.asked.len() as int] == Answer::Value(
            Value::Num(crate::num::number(l.len() as int)),
        ),
        forall|j: int|
            0 <= j < l.len() ==> w.answers[w.asked.len() + 1 + j] == Answer::Value(#[trigger] l[j]),
    ensures
        ({
            let (w1, r) = applied(w, f, seq![this, list], limit);
            let n = w.asked.len() + 1 + l.len() as int;
            &&& w1.asked.len() == n + 1
            &&& w1.asked[n] == question(Op::Call(f, this), l)
            &&& w.answers[n] matches Answer::Value(v) ==> r == Ok::<Value, Value>(v)
            &&& w.answers[n] matches Answer::Throw(e) ==> r == Err::<Value, Value>(e)
        }),
{
    let args = seq![this, list];
    assert(args[0] == this && args[1] == list);
    crate::num::law_numbers_hold_their_integer(l.len() as int);
    let (w1, len) = crate::proxy::length_of(w, list);
    assert(len->Ok_0 == l.len());
    assert forall|j: int| 0 <= j < l.len() implies w1.answers[w1.asked.len() + (j - 0)]
        == Answer::Value(#[trigger] l[j]) by {
        assert(w.answers[w.asked.len() + 1 + j] == Answer::Value(l[j]));
    }
    assert(l.take(0) =~= Seq::<Value>::empty());
    crate::proxy_laws::lemma_list_from(w1, list, l.len() as int, 0, Seq::empty(), l);
}

// Entry by entry, group by group

/// `Object.fromEntries` stores each entry that the iterator gives into the object that it gives back.
pub proof fn law_from_entries_stores_each(w: World, iter: Value, next: Value, obj: Value)
    ensures
        ({
            let (w1, step) = stepped(w, iter, next);
            let r = entries_from(w, iter, next, obj);
            match step {
                Err(e) => r.1 == Err::<Value, Value>(e),
                Ok(None) => r == (w1, Ok::<Value, Value>(obj)),
                Ok(Some(entry)) => {
                    let (w2, s) = entry_stored(w1, obj, entry);
                    &&& s is Ok ==> r == entries_from(w2, iter, next, obj)
                    &&& s matches Err(e) ==> r.1 == Err::<Value, Value>(e)
                },
            }
        }),
{
}

/// Grouping calls the function with each element and its place, and adds the element to the group of
/// what it gives.
pub proof fn law_groups_go_by_the_function(
    w: World,
    cb: Value,
    elems: Seq<Value>,
    j: int,
    g: Seq<(Value, Seq<Value>)>,
    key: Value,
)
    requires
        0 <= j < elems.len() <= crate::num::COUNT_LIMIT,
        key is Str || key is Sym,
        w.asked.len() < w.answers.len(),
        w.answers[w.asked.len() as int] == Answer::Value(key),
    ensures
        ({
            let w1 = World {
                asked: w.asked.push(
                    question(
                        Op::Call(cb, Value::Undefined),
                        seq![elems[j], Value::Num(crate::num::number(j))],
                    ),
                ),
                ..w
            };
            crate::object::groups_from(w, cb, elems, j, false, g) == crate::object::groups_from(
                w1,
                cb,
                elems,
                j + 1,
                false,
                crate::object::grouped(g, key, elems[j]),
            )
        }),
        crate::object::groups_from(w, cb, elems, elems.len() as int, false, g) == (
            w,
            Ok::<Seq<(Value, Seq<Value>)>, Value>(g),
        ),
{
    assert(crate::num::position(j) == crate::num::number(j));
}

/// The legacy lookups give the getter, or the setter, of the nearest property along the prototypes;
/// undefined where that is a data property.
pub proof fn law_lookups_give_the_accessor(w: World, o: Value, key: Value, is_get: bool, p: Property)
    requires
        plain_object(w, o),
        w.asked.len() + 1 < w.answers.len(),
        w.answers[w.asked.len() + 1int] == Answer::Property(Some(p)),
    ensures
        crate::object::accessor_found(w, o, key, is_get).1 == Ok::<Value, Value>(
            if !p.accessor {
                Value::Undefined
            } else if is_get {
                p.get
            } else {
                p.set
            },
        ),
{
    crate::proxy_laws::law_plain_properties_are_their_own(w, o, key, Some(p));
}

/// An object is a prototype of another where it is met on the way up from it.
pub proof fn law_prototypes_are_met_on_the_way_up(w: World, cur: Value, me: Value, next: Value)
    requires
        plain_object(w, cur),
        w.asked.len() + 1 < w.answers.len(),
        w.answers[w.asked.len() + 1int] == Answer::Value(next),
    ensures
        ({
            let r = crate::object::reached_from(w, cur, me);
            let w2 = World {
                asked: w.asked.push(question(Op::ProxyParts(cur), Seq::empty())).push(
                    question(Op::Prototype(cur), Seq::empty()),
                ),
                ..w
            };
            &&& cur == me ==> r.1 == Ok::<Value, Value>(Value::Bool(true))
            &&& cur != me && next.object() ==> r == crate::object::reached_from(w2, next, me)
            &&& cur != me && !next.object() ==> r.1 == Ok::<Value, Value>(Value::Bool(false))
        }),
{
    assert(crate::proxy::prototype_of(w, cur).1 == Ok::<Value, Value>(
        if next.object() {
            next
        } else {
            Value::Null
        },
    ));
}

} // verus!
