//! How arrays are made from other things, and how their elements and their length are defined.
use vstd::prelude::*;
use crate::array::{created_at, is_ctor, species_created};
use crate::array_callbacks::{element_stored, gathered};
use crate::array_laws::{lemma_length_put, lemma_value};
use crate::feeds::{counter, lemma_stepped_extends, Feed, Steady};
use crate::interp::{Answer, Key, Op, PartialDesc, Property, Value, WellKnown, World};
use crate::iterator::stepped;
use crate::num;
use crate::promise::{
    capability_made, enumerable_keys, keyed_body, keyed_combined, keyed_state, resolve_of,
    species_of,
};
use crate::proxy::{elements_dropped, plainly_defined};
use crate::proxy_laws::plain_object;
use crate::regexp::{exec_called, match_stepped, RegExpStringIter};
use crate::trace::{element, extends, question, resized, Watched};

verus! {

// Array.from

/// What `Array.from` makes of an item: what the mapper gives for it and its place, or the item itself.
pub open spec fn taken_over(g: Steady, item: Value, k: int) -> Value {
    if g.f.callable() {
        (g.gives)(seq![item, counter(k)])
    } else {
        item
    }
}

proof fn lemma_gathered_extends(
    w: World,
    arr: Value,
    iter: Value,
    next: Value,
    k: int,
    mapfn: Value,
    this_arg: Value,
)
    ensures
        gathered(w, arr, iter, next, k, mapfn, this_arg).1 is Ok ==> extends(
            w,
            gathered(w, arr, iter, next, k, mapfn, this_arg).0,
        ),
    decreases w.left(),
{
    let (w1, step) = stepped(w, iter, next);
    lemma_stepped_extends(w, iter, next);
    if let Ok(Some(raw)) = step {
        let (w2, r) = element_stored(w1, arr, raw, k, mapfn, this_arg);
        if r is Ok {
            lemma_gathered_extends(w2, arr, iter, next, num::counted(k), mapfn, this_arg);
        }
    }
}

/// `Array.from` of an iterable gives an array of its items, in order, each as the mapper makes it
/// where there is one.
#[verifier::spinoff_prover]
#[verifier::rlimit(60)]
pub proof fn law_array_from_takes_the_items_over(u: Watched, w: World, feed: Feed, g: Steady, k: int)
    requires
        feed.wf(),
        feed.from <= w.asked.len(),
        u.from <= w.asked.len(),
        k == feed.taken(w) <= feed.items.len(),
        g.this != feed.source,
        forall|j: int|
            0 <= j < k ==> #[trigger] element(u.holds(w), j) == Some(
                taken_over(g, feed.items[j], j),
            ),
        gathered(w, u.array, feed.source, feed.next, k, g.f, g.this).1 is Ok,
        feed.faithful(gathered(w, u.array, feed.source, feed.next, k, g.f, g.this).0),
        g.faithful(gathered(w, u.array, feed.source, feed.next, k, g.f, g.this).0),
    ensures
        gathered(w, u.array, feed.source, feed.next, k, g.f, g.this).1->Ok_0 == u.array,
        u.holds(gathered(w, u.array, feed.source, feed.next, k, g.f, g.this).0) == Seq::new(
            feed.items.len(),
            |j: int| Some(taken_over(g, feed.items[j], j)),
        ),
    decreases w.left(),
{
    let wf = gathered(w, u.array, feed.source, feed.next, k, g.f, g.this).0;
    let (w1, step) = stepped(w, feed.source, feed.next);
    lemma_stepped_extends(w, feed.source, feed.next);
    lemma_stepped_quiet(u, w, feed.source, feed.next);
    if let Some(raw) = step->Ok_0 {
        let list = seq![raw, counter(k)];
        let call = Op::Call(g.f, g.this);
        let w2 = if g.f.callable() {
            w1.call(g.f, g.this, list).0
        } else {
            w1
        };
        let v = if g.f.callable() {
            w1.call(g.f, g.this, list).1->Ok_0
        } else {
            raw
        };
        let op = Op::CreateData(u.array, Key::Index(k as u64), v);
        let w3 = created_at(w2, u.array, k, v).0;
        assert(w3 == element_stored(w1, u.array, raw, k, g.f, g.this).0);
        lemma_gathered_extends(w3, u.array, feed.source, feed.next, num::counted(k), g.f, g.this);
        feed.lemma_earlier(w3, wf);
        g.lemma_earlier(w3, wf);
        feed.lemma_step(w2, op, Seq::empty());
        lemma_value(u, w2, op);
        if g.f.callable() {
            g.lemma_earlier(w2, w3);
            feed.lemma_step(w1, call, list);
            u.lemma_step(w1, call, list);
            g.lemma_call(w1, list);
        }
        feed.lemma_stepped(w);
        assert(v == taken_over(g, feed.items[k], k));
        assert forall|j: int| 0 <= j < k + 1 implies #[trigger] element(u.holds(w3), j) == Some(
            taken_over(g, feed.items[j], j),
        ) by {
            if j < k {
                assert(element(u.holds(w), j) == Some(taken_over(g, feed.items[j], j)));
            }
        }
        law_array_from_takes_the_items_over(u, w3, feed, g, k + 1);
    } else {
        feed.lemma_earlier(w1, wf);
        feed.lemma_stepped(w);
        lemma_length_put(u, w1, u.array, k);
        let e = resized(u.holds(w1), k);
        let f = Seq::new(feed.items.len(), |j: int| Some(taken_over(g, feed.items[j], j)));
        assert forall|j: int| 0 <= j < k implies #[trigger] e[j] == f[j] by {
            assert(element(u.holds(w), j) == Some(taken_over(g, feed.items[j], j)));
        }
        assert(e =~= f);
    }
}

proof fn lemma_stepped_quiet(u: Watched, w: World, source: Value, next: Value)
    requires
        u.from <= w.asked.len(),
        stepped(w, source, next).1 is Ok,
    ensures
        u.holds(stepped(w, source, next).0) == u.holds(w),
{
    let (w1, res) = w.call(next, source, Seq::empty());
    u.lemma_step(w, Op::Call(next, source), Seq::empty());
    let (w2, done) = w1.get(res->Ok_0, Key::Name("done"));
    u.lemma_step(w1, Op::Get(res->Ok_0, Key::Name("done")), Seq::empty());
    if !w2.truthy(done->Ok_0) {
        u.lemma_step(w2, Op::Get(res->Ok_0, Key::Name("value")), Seq::empty());
    }
}

// Results of array methods

/// The result of a method on an array whose constructor names a species is constructed by it, with the
/// length; one on anything that is no array is a plain array.
pub proof fn law_species_make_the_result(
    w: World,
    original: Value,
    len: int,
    c: Value,
    s: Value,
    r: Value,
)
    requires
        plain_object(w, original),
        w.asked.len() + 6 < w.answers.len(),
        0 <= len <= num::MAX_SAFE,
    ensures
        ({
            let n = w.asked.len() as int;
            let (w1, out) = species_created(w, original, len);
            &&& w.answers[n + 1] == Answer::Value(Value::Bool(true)) && w.answers[n + 2]
                == Answer::Value(c) && c.object() && is_ctor(c) && w.answers[n + 3]
                == Answer::Value(Value::Bool(false)) && w.answers[n + 4] == Answer::Value(s)
                && s.object() && is_ctor(s) && w.answers[n + 5] == Answer::Value(Value::Bool(false))
                && w.answers[n + 6] == Answer::Value(r) ==> {
                &&& out == Ok::<Value, Value>(r)
                &&& w1.asked[n + 2] == question(
                    Op::Get(original, Key::Name("constructor")),
                    Seq::empty(),
                )
                &&& w1.asked[n + 4] == question(
                    Op::Get(c, Key::Symbol(WellKnown::Species)),
                    Seq::empty(),
                )
                &&& w1.asked[n + 6] == question(Op::Construct(s, s), seq![counter(len)])
            }
            &&& w.answers[n + 1] == Answer::Value(Value::Bool(false)) && w.answers[n + 2]
                == Answer::Value(r) && len <= 0xffff_ffff ==> {
                &&& out == Ok::<Value, Value>(r)
                &&& w1.asked[n + 2] == question(Op::NewArray, Seq::empty())
            }
            &&& w.answers[n + 1] == Answer::Value(Value::Bool(false)) && len > 0xffff_ffff ==> out
                is Err
        }),
{
    reveal_with_fuel(crate::object::array_tested, 2);
}

// Definitions

/// A definition on an ordinary object is stored where the descriptor lets it through, and refused,
/// with nothing stored, where it does not; what the object has and whether it is extensible decide.
pub proof fn law_definitions_store_what_is_let_through(
    w: World,
    o: Value,
    key: Value,
    d: PartialDesc,
    cur: Option<Property>,
    extensible: bool,
)
    requires
        w.asked.len() + 2 < w.answers.len(),
        w.answers[w.asked.len() as int] == Answer::Property(cur),
        w.answers[w.asked.len() + 1int] == Answer::Value(Value::Bool(extensible)),
    ensures
        ({
            let (w1, r) = plainly_defined(w, o, key, d);
            let asked = w.asked.push(
                question(Op::OwnProperty(o, Key::Of(key)), Seq::empty()),
            ).push(question(Op::Extensible(o), Seq::empty()));
            match d.defined(cur, extensible) {
                Some(p) => r == Ok::<bool, Value>(true) && w1.asked == asked.push(
                    question(Op::StoreProperty(o, Key::Of(key), p), Seq::empty()),
                ),
                None => r == Ok::<bool, Value>(false) && w1.asked == asked,
            }
        }),
{
}

/// Cutting an array off at a length takes its elements out from the last one down, and stops at the
/// first that is not configurable.
pub proof fn law_cutting_off_goes_down(w: World, o: Value, new_len: int, top: int, p: Option<Property>)
    requires
        0 <= new_len,
        0 <= top < 0xffff_ffff,
        w.asked.len() + 2 < w.answers.len(),
        w.answers[w.asked.len() as int] == Answer::Value(counter(top)),
        w.answers[w.asked.len() + 1int] == Answer::Property(p),
    ensures
        ({
            let r = elements_dropped(w, o, new_len);
            let w2 = World {
                asked: w.asked.push(question(Op::HighestIndex(o), Seq::empty())).push(
                    question(Op::OwnProperty(o, Key::Index(top as u64)), Seq::empty()),
                ),
                ..w
            };
            let w3 = World {
                asked: w2.asked.push(
                    question(Op::RemoveProperty(o, Key::Index(top as u64)), Seq::empty()),
                ),
                ..w
            };
            &&& top < new_len ==> r.1 == Ok::<Option<u64>, Value>(None)
            &&& top >= new_len && p is Some && !p->0.configurable ==> r == (
                w2,
                Ok::<Option<u64>, Value>(Some(top as u64)),
            )
            &&& top >= new_len && !(p is Some && !p->0.configurable) ==> r == elements_dropped(
                w3,
                o,
                new_len,
            )
        }),
{
    num::law_numbers_hold_their_integer(top);
    num::law_integers_round_trip(top, num::number(top));
}

// matchAll

/// The iterator of `matchAll` gives the match that `exec` found in a result that is not done. Without
/// a match it is done; one whose expression is not global is done behind its first match.
pub proof fn law_match_iterators_give_each_match(w: World, it: RegExpStringIter)
    requires
        !it.done,
    ensures
        ({
            let (w1, m) = exec_called(w, it.regexp, it.string);
            let (w2, after, r) = match_stepped(w, it);
            match m {
                Err(e) => r == Err::<Value, Value>(e),
                Ok(m) => {
                    &&& m == Value::Null ==> after.done && (!w1.halted() ==> w2.asked
                        == w1.asked.push(
                        question(Op::NewIterResult(Value::Undefined, true), Seq::empty()),
                    ))
                    &&& m != Value::Null && !it.global ==> after.done && (!w1.halted() ==> w2.asked
                        == w1.asked.push(question(Op::NewIterResult(m, false), Seq::empty())))
                    &&& m != Value::Null && it.global && r is Ok && !w2.halted() ==> !after.done
                        && w2.asked.last() == question(Op::NewIterResult(m, false), Seq::empty())
                },
            }
        }),
{
}

// Keyed promise combinators

/// The keys that take part are the string keys whose own property is enumerable: each is asked for,
/// and is kept or passed over by what it says.
pub proof fn law_enumerable_keys_take_part(
    w: World,
    input: Value,
    keys: Seq<Value>,
    k: int,
    out: Seq<Value>,
    p: Option<Property>,
)
    requires
        0 <= k < keys.len(),
        plain_object(w, input),
        w.asked.len() + 1 < w.answers.len(),
        w.answers[w.asked.len() + 1int] == Answer::Property(p),
    ensures
        ({
            let w2 = World {
                asked: w.asked.push(question(Op::ProxyParts(input), Seq::empty())).push(
                    question(Op::OwnProperty(input, Key::Of(keys[k])), Seq::empty()),
                ),
                ..w
            };
            let r = enumerable_keys(w, input, keys, k, out);
            &&& !(keys[k] is Str) ==> r == enumerable_keys(w, input, keys, k + 1, out)
            &&& keys[k] is Str && p is Some && p->0.enumerable ==> r == enumerable_keys(
                w2,
                input,
                keys,
                k + 1,
                out.push(keys[k]),
            )
            &&& keys[k] is Str && !(p is Some && p->0.enumerable) ==> r == enumerable_keys(
                w2,
                input,
                keys,
                k + 1,
                out,
            )
        }),
        enumerable_keys(w, input, keys, keys.len() as int, out) == (
            w,
            Ok::<Seq<Value>, Value>(out),
        ),
{
    crate::proxy_laws::law_plain_properties_are_their_own(w, input, keys[k], p);
}

/// The state of a keyed combinator starts with the keys, as many values that are undefined, and a count
/// of one, for the attaching itself.
pub proof fn law_keyed_states_start_at_one(
    w: World,
    keys: Seq<Value>,
    state: Value,
    values: Value,
    names: Value,
)
    requires
        w.asked.len() + 5 < w.answers.len(),
        w.answers[w.asked.len() as int] == Answer::Value(state),
        w.answers[w.asked.len() + 1int] == Answer::Value(values),
        w.answers[w.asked.len() + 2int] == Answer::Value(names),
    ensures
        ({
            let (w1, s) = keyed_state(w, keys);
            &&& s == state
            &&& w1.asked == w.asked.push(question(Op::NewObject, Seq::empty())).push(
                question(Op::NewArray, Seq::new(keys.len(), |j: int| Value::Undefined)),
            ).push(question(Op::NewArray, keys)).push(
                question(Op::WriteSlot(state, "values", values), Seq::empty()),
            ).push(question(Op::WriteSlot(state, "keys", names), Seq::empty())).push(
                question(Op::WriteSlot(state, "remaining", counter(1)), Seq::empty()),
            )
        }),
{
    assert(num::position(1) == num::number(1));
}

/// A keyed combinator gives the promise of its capability. Where attaching fails, that promise is
/// rejected with the error.
pub proof fn law_failed_combinators_reject(w: World, ctor: Value, input: Value, settled: bool)
    requires
        capability_made(w, ctor).1 is Ok,
        ({
            let (w1, c) = capability_made(w, ctor);
            let (w2, state) = keyed_body(w1, ctor, input, c->Ok_0, settled);
            state is Err && !w2.halted()
        }),
    ensures
        ({
            let (w1, c) = capability_made(w, ctor);
            let (w2, state) = keyed_body(w1, ctor, input, c->Ok_0, settled);
            let (w3, r) = keyed_combined(w, ctor, input, settled);
            &&& r == Ok::<Value, Value>(c->Ok_0.promise)
            &&& w3.asked == w2.asked.push(
                question(Op::Call(c->Ok_0.reject, Value::Undefined), seq![state->Err_0]),
            )
        }),
{
}

/// The `resolve` of a constructor is what it has under that name, which must be callable; the species
/// of an object is what its constructor names, or the default where there is none.
pub proof fn law_constructors_name_resolve_and_species(
    w: World,
    ctor: Value,
    obj: Value,
    default_ctor: Value,
    v: Value,
    s: Value,
)
    requires
        w.asked.len() + 1 < w.answers.len(),
        w.answers[w.asked.len() as int] == Answer::Value(v),
        w.answers[w.asked.len() + 1int] == Answer::Value(s),
    ensures
        ({
            let r = resolve_of(w, ctor);
            let q = species_of(w, obj, default_ctor);
            &&& r.0.asked[w.asked.len() as int] == question(
                Op::Get(ctor, Key::Name("resolve")),
                Seq::empty(),
            )
            &&& v.callable() ==> r.1 == Ok::<Value, Value>(v)
            &&& !v.callable() ==> r.1 is Err
            &&& v == Value::Undefined ==> q.1 == Ok::<Value, Value>(default_ctor)
            &&& v != Value::Undefined && !v.object() ==> q.1 is Err
            &&& v.object() && s.nullish() ==> q.1 == Ok::<Value, Value>(default_ctor)
            &&& v.object() && is_ctor(s) ==> q.1 == Ok::<Value, Value>(s)
            &&& v.object() && !s.nullish() && !is_ctor(s) ==> q.1 is Err
        }),
{
}

} // verus!
