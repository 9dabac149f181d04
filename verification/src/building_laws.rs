//! What the functions that build an array, or go through one, make of its elements.
use vstd::prelude::*;
use crate::array::{created_at, item_concatenated, spreadable};
use crate::array_callbacks::{
    array_iterated, flattened_from, flattened_one, joined, joined_from, stored_from, ArrayIter,
    ElementKind,
};
use crate::array_laws::{
    holding, lemma_copied_span, lemma_copied_span_extends, lemma_length, lemma_length_put,
    lemma_present, lemma_value, or_undefined,
};
use crate::feeds::counter;
use crate::interp::{Answer, Key, Op, Value, World};
use crate::num;
use crate::proxy::length_of;
use crate::regexp_laws::{lemma_intern, says};
use crate::sort::{goes_behind, present_from, written_back};
use crate::trace::{element, extends, filled_with, question, quietly, resized, Elements, Watched};

verus! {

// Array.of

/// `Array.of` makes the result hold the arguments, in order, and nothing else.
#[verifier::spinoff_prover]
#[verifier::rlimit(60)]
pub proof fn law_array_of_holds_the_arguments(u: Watched, w: World, args: Seq<Value>, k: int)
    requires
        u.from <= w.asked.len(),
        0 <= k <= args.len(),
        args.len() <= num::MAX_SAFE,
        forall|j: int| 0 <= j < k ==> #[trigger] element(u.holds(w), j) == Some(args[j]),
        stored_from(w, u.array, args, k).1 is Ok,
    ensures
        stored_from(w, u.array, args, k).1->Ok_0 == u.array,
        u.holds(stored_from(w, u.array, args, k).0) == filled_with(args),
    decreases args.len() - k,
{
    if k < args.len() {
        let w1 = created_at(w, u.array, k, args[k]).0;
        lemma_value(u, w, Op::CreateData(u.array, Key::Index(k as u64), args[k]));
        assert forall|j: int| 0 <= j < k + 1 implies #[trigger] element(u.holds(w1), j) == Some(
            args[j],
        ) by {
            if j < k {
                assert(element(u.holds(w), j) == Some(args[j]));
            }
        }
        law_array_of_holds_the_arguments(u, w1, args, k + 1);
    } else {
        let n = args.len() as int;
        assert(num::position(n) == num::number(n));
        lemma_length_put(u, w, u.array, n);
        let e = resized(u.holds(w), n);
        assert forall|j: int| 0 <= j < n implies #[trigger] e[j] == filled_with(args)[j] by {
            assert(element(u.holds(w), j) == Some(args[j]));
        }
        assert(e =~= filled_with(args));
    }
}

// concat

/// An array that is concatenated puts its elements, holes left out, behind what is there; the next
/// free index lies behind its length. Anything that is not to be spread is put there itself.
#[verifier::spinoff_prover]
#[verifier::rlimit(60)]
pub proof fn law_concat_appends_an_item(t: Watched, u: Watched, w: World, n: int)
    requires
        t.from == w.asked.len(),
        u.from <= w.asked.len(),
        t.array != u.array,
        t.start.len() <= num::MAX_SAFE,
        0 <= n <= num::MAX_SAFE,
        item_concatenated(w, u.array, t.array, n).1 is Ok,
        t.faithful(item_concatenated(w, u.array, t.array, n).0),
    ensures
        ({
            let (w1, next) = item_concatenated(w, u.array, t.array, n);
            let spread = spreadable(w, t.array).1;
            &&& spread is Ok
            &&& spread->Ok_0 ==> next->Ok_0 == n + t.start.len() && forall|j: int| #[trigger]
                element(u.holds(w1), j) == if n <= j < n + t.start.len() && element(
                    t.start,
                    j - n,
                ) is Some {
                    element(t.start, j - n)
                } else {
                    element(u.holds(w), j)
                }
            &&& !spread->Ok_0 ==> next->Ok_0 == n + 1 && forall|j: int| #[trigger]
                element(u.holds(w1), j) == if j == n {
                    Some(t.array)
                } else {
                    element(u.holds(w), j)
                }
        }),
{
    let (wf, next) = item_concatenated(w, u.array, t.array, n);
    let (w1, s) = spreadable(w, t.array);
    lemma_spreadable(w, t.array);
    u.lemma_quiet(w, w1);
    t.lemma_quiet(w, w1);
    assert(t.holds(w) == t.start);
    if s->Ok_0 {
        let (w2, len) = length_of(w1, t.array);
        let l = len->Ok_0 as int;
        lemma_copied_span_extends(w2, t.array, 0, l, u.array, n);
        t.lemma_earlier(w2, wf);
        lemma_length(t, w1);
        lemma_length_quiet(w1, t.array);
        u.lemma_quiet(w1, w2);
        lemma_copied_span(t, u, w2, 0, l, n);
    } else {
        lemma_value(u, w1, Op::CreateData(u.array, Key::Index(n as u64), t.array));
    }
}

proof fn lemma_length_quiet(w: World, o: Value)
    ensures
        quietly(w, length_of(w, o).0),
{
}

proof fn lemma_spreadable(w: World, v: Value)
    ensures
        spreadable(w, v).1 is Ok ==> quietly(w, spreadable(w, v).0),
{
    if v.object() {
        let (w1, flag) = w.get(v, Key::Symbol(crate::interp::WellKnown::IsConcatSpreadable));
        if flag is Ok && flag->Ok_0 == Value::Undefined {
            crate::array_laws::lemma_array_tested(w1, v);
        }
    }
}

/// Whether a value is spread: where it has the symbol, as that says; else where it is an array.
/// Primitives never are.
pub proof fn law_only_arrays_are_spread(w: World, v: Value, flag: Value)
    requires
        w.asked.len() < w.answers.len(),
        w.answers[w.asked.len() as int] == Answer::Value(flag),
    ensures
        !v.object() ==> spreadable(w, v).1 == Ok::<bool, Value>(false),
        v.object() && flag != Value::Undefined ==> spreadable(w, v).1 == Ok::<bool, Value>(
            w.truthy(flag),
        ),
        v.object() && flag == Value::Undefined ==> spreadable(w, v) == crate::object::array_tested(
            World {
                asked: w.asked.push(
                    question(
                        Op::Get(v, Key::Symbol(crate::interp::WellKnown::IsConcatSpreadable)),
                        Seq::empty(),
                    ),
                ),
                ..w
            },
            v,
        ),
{
}

// flat

/// The elements from `k` on, without the holes.
pub open spec fn solid(e: Elements, k: int) -> Seq<Value>
    decreases e.len() - k,
{
    if k < 0 || k >= e.len() {
        Seq::empty()
    } else {
        match e[k] {
            Some(v) => seq![v] + solid(e, k + 1),
            None => solid(e, k + 1),
        }
    }
}

proof fn lemma_flat_extends(w: World, target: Value, source: Value, k: int, len: int, at: int)
    ensures
        extends(w, flattened_from(w, target, source, k, len, at, 0, None).0),
    decreases len - k,
{
    if k < len {
        let (w1, v) = crate::array::present(w, source, k as u64);
        if let Ok(v) = v {
            if let Some(v) = v {
                let (w2, next) = flattened_one(w1, target, v, at);
                if next is Ok {
                    lemma_flat_extends(w2, target, source, k + 1, len, next->Ok_0 as int);
                }
            } else {
                lemma_flat_extends(w1, target, source, k + 1, len, at);
            }
        }
    }
}

/// Flattening by no level leaves out the holes and keeps everything else in order.
#[verifier::spinoff_prover]
#[verifier::rlimit(60)]
pub proof fn law_flat_leaves_out_holes(t: Watched, u: Watched, w: World, k: int, at: int)
    requires
        t.from <= w.asked.len(),
        u.from <= w.asked.len(),
        t.array != u.array,
        0 <= k <= t.holds(w).len() <= num::MAX_SAFE,
        0 <= at,
        flattened_from(w, u.array, t.array, k, t.holds(w).len() as int, at, 0, None).1 is Ok,
        t.faithful(
            flattened_from(w, u.array, t.array, k, t.holds(w).len() as int, at, 0, None).0,
        ),
    ensures
        ({
            let (w1, next) = flattened_from(
                w,
                u.array,
                t.array,
                k,
                t.holds(w).len() as int,
                at,
                0,
                None,
            );
            let s = solid(t.holds(w), k);
            &&& crate::callback_laws::appended(u.holds(w), u.holds(w1), at, s)
            &&& at <= num::MAX_SAFE ==> next->Ok_0 == at + s.len()
        }),
    decreases t.holds(w).len() - k,
{
    let len = t.holds(w).len() as int;
    let e = t.holds(w);
    if k < len {
        let wf = flattened_from(w, u.array, t.array, k, len, at, 0, None).0;
        let (w1, v) = crate::array::present(w, t.array, k as u64);
        match v->Ok_0 {
            None => {
                lemma_flat_extends(w1, u.array, t.array, k + 1, len, at);
                t.lemma_earlier(w1, wf);
                lemma_present(t, w, k as u64);
                u.lemma_quiet(w, w1);
                law_flat_leaves_out_holes(t, u, w1, k + 1, at);
            },
            Some(v) => {
                let (w2, next) = flattened_one(w1, u.array, v, at);
                let op = Op::CreateData(u.array, Key::Index(at as u64), v);
                lemma_flat_extends(w2, u.array, t.array, k + 1, len, at + 1);
                t.lemma_earlier(w2, wf);
                lemma_value(t, w1, op);
                lemma_value(u, w1, op);
                lemma_present(t, w, k as u64);
                u.lemma_quiet(w, w1);
                law_flat_leaves_out_holes(t, u, w2, k + 1, at + 1);
                crate::callback_laws::lemma_appended_one(
                    u.holds(w),
                    u.holds(wf),
                    at,
                    v,
                    solid(e, k + 1),
                );
            },
        }
    }
}

/// Flattening by some levels puts, for an element that is an array, what that array is flattened to
/// by one level less in its place, and any other element itself.
pub proof fn law_flat_goes_into_arrays(
    w: World,
    target: Value,
    source: Value,
    k: int,
    len: int,
    at: int,
    depth: nat,
    v: Value,
)
    requires
        0 <= k < len <= num::MAX_SAFE,
        0 <= at,
        depth > 0,
        w.asked.len() + 1 < w.answers.len(),
        w.answers[w.asked.len() as int] == Answer::Value(Value::Bool(true)),
        w.answers[w.asked.len() + 1int] == Answer::Value(v),
    ensures
        ({
            let w1 = World {
                asked: w.asked.push(
                    question(Op::Has(source, Key::Index(k as u64)), Seq::empty()),
                ).push(question(Op::Get(source, Key::Index(k as u64)), Seq::empty())),
                ..w
            };
            let r = flattened_from(w, target, source, k, len, at, depth, None);
            let (w2, nested) = crate::object::array_tested(w1, v);
            let (w3, n) = length_of(w2, v);
            let inner = flattened_from(
                w3,
                target,
                v,
                0,
                n->Ok_0 as int,
                at,
                (depth - 1) as nat,
                None,
            );
            &&& nested == Ok::<bool, Value>(true) && n is Ok && inner.1 is Ok ==> r
                == flattened_from(
                inner.0,
                target,
                source,
                k + 1,
                len,
                inner.1->Ok_0 as int,
                depth,
                None,
            )
            &&& nested == Ok::<bool, Value>(false) && at < num::MAX_SAFE && created_at(
                w2,
                target,
                at,
                v,
            ).1 is Ok ==> r == flattened_from(
                created_at(w2, target, at, v).0,
                target,
                source,
                k + 1,
                len,
                at + 1,
                depth,
                None,
            )
        }),
{
    let w1 = World {
        asked: w.asked.push(question(Op::Has(source, Key::Index(k as u64)), Seq::empty())).push(
            question(Op::Get(source, Key::Index(k as u64)), Seq::empty()),
        ),
        ..w
    };
    assert(crate::array::present(w, source, k as u64) == (w1, Ok::<Option<Value>, Value>(Some(v))));
}

// join

/// The texts of the elements from `k` on, with the separator before each but the first of all; holes,
/// undefined and null count as empty.
pub open spec fn text_of(w: World, e: Elements, k: int, sep: Seq<u16>) -> Seq<u16>
    decreases e.len() - k,
{
    if k < 0 || k >= e.len() {
        Seq::empty()
    } else {
        (if k == 0 {
            Seq::empty()
        } else {
            sep
        }) + (match e[k] {
            Some(Value::Str(s)) => w.units(s),
            _ => Seq::empty(),
        }) + text_of(w, e, k + 1, sep)
    }
}

/// The elements are texts, undefined, null or holes.
pub open spec fn texts(e: Elements) -> bool {
    forall|k: int|
        0 <= k < e.len() ==> ((#[trigger] e[k]) matches Some(v) ==> v is Str || v.nullish())
}

#[verifier::spinoff_prover]
#[verifier::rlimit(60)]
proof fn lemma_joined_extends(w: World, o: Value, k: int, len: int, sep: Seq<u16>, acc: Seq<u16>)
    ensures
        extends(w, joined_from(w, o, k, len, sep, acc).0),
    decreases len - k,
{
    if k < len {
        let acc = if k > 0 {
            acc + sep
        } else {
            acc
        };
        let (w1, v) = w.get(o, Key::Index(k as u64));
        if let Ok(v) = v {
            if v.nullish() {
                lemma_joined_extends(w1, o, k + 1, len, sep, acc);
            } else {
                let (w2, s) = w1.text(v);
                if s is Ok {
                    lemma_joined_extends(w2, o, k + 1, len, sep, acc + w2.units(s->Ok_0));
                }
            }
        }
    }
}

#[verifier::spinoff_prover]
#[verifier::rlimit(60)]
proof fn lemma_joined(t: Watched, w: World, k: int, sep: Seq<u16>, acc: Seq<u16>)
    requires
        t.from <= w.asked.len(),
        0 <= k <= t.holds(w).len() <= num::MAX_SAFE,
        texts(t.holds(w)),
        joined_from(w, t.array, k, t.holds(w).len() as int, sep, acc).1 is Ok,
        t.faithful(joined_from(w, t.array, k, t.holds(w).len() as int, sep, acc).0),
    ensures
        joined_from(w, t.array, k, t.holds(w).len() as int, sep, acc).0.strings == w.strings,
        joined_from(w, t.array, k, t.holds(w).len() as int, sep, acc).1->Ok_0 == acc + text_of(
            w,
            t.holds(w),
            k,
            sep,
        ),
    decreases t.holds(w).len() - k,
{
    let e = t.holds(w);
    let len = e.len() as int;
    if k < len {
        let wf = joined_from(w, t.array, k, len, sep, acc).0;
        let acc1 = if k > 0 {
            acc + sep
        } else {
            acc
        };
        let op = Op::Get(t.array, Key::Index(k as u64));
        let (w1, v) = w.get(t.array, Key::Index(k as u64));
        let v = v->Ok_0;
        let acc2 = if v.nullish() {
            acc1
        } else {
            acc1 + w1.units(w1.text(v).1->Ok_0)
        };
        let w2 = if v.nullish() {
            w1
        } else {
            w1.text(v).0
        };
        lemma_joined_extends(w2, t.array, k + 1, len, sep, acc2);
        t.lemma_earlier(w1, wf);
        lemma_value(t, w, op);
        assert(v == or_undefined(e[k]));
        assert(w2 == w1);
        lemma_joined(t, w1, k + 1, sep, acc2);
        lemma_text_same(w, w1, e, k + 1, sep);
        assert(acc2 + text_of(w, e, k + 1, sep) =~= acc + text_of(w, e, k, sep));
    } else {
        assert(acc + text_of(w, e, k, sep) =~= acc);
    }
}

proof fn lemma_text_same(w: World, w1: World, e: Elements, k: int, sep: Seq<u16>)
    requires
        w.strings == w1.strings,
    ensures
        text_of(w, e, k, sep) == text_of(w1, e, k, sep),
    decreases e.len() - k,
{
    if 0 <= k < e.len() {
        lemma_text_same(w, w1, e, k + 1, sep);
    }
}

/// `join` of an array of texts gives them in order with the separator, a comma where none is given,
/// in between.
#[verifier::spinoff_prover]
#[verifier::rlimit(60)]
pub proof fn law_join_of_an_array(w: World, this: Value, sep: Value, limit: u64, before: Elements)
    requires
        this.object(),
        before.len() <= num::MAX_SAFE,
        texts(before),
        w.strings.len() < u64::MAX,
        sep is Str || sep == Value::Undefined,
        joined(w, this, seq![sep], limit).1 is Ok,
        holding(this, before, w).faithful(joined(w, this, seq![sep], limit).0),
    ensures
        says(
            joined(w, this, seq![sep], limit).0,
            joined(w, this, seq![sep], limit).1->Ok_0,
            text_of(
                w,
                before,
                0,
                match sep {
                    Value::Str(s) => w.units(s),
                    _ => seq![',' as u16],
                },
            ),
        ),
{
    let t = holding(this, before, w);
    let (wf, r) = joined(w, this, seq![sep], limit);
    assert(seq![sep][0] == sep);
    let u = match sep {
        Value::Str(s) => w.units(s),
        _ => seq![',' as u16],
    };
    let (w1, len) = length_of(w, this);
    let l = len->Ok_0 as int;
    let (w2, text) = joined_from(w1, this, 0, l, u, Seq::empty());
    lemma_joined_extends(w1, this, 0, l, u, Seq::empty());
    assert(w1.strings == w.strings);
    t.lemma_earlier(w1, World { strings: w2.strings, ..wf });
    lemma_length(t, w);
    t.lemma_earlier(w2, World { strings: w2.strings, ..wf });
    lemma_joined(t, w1, 0, u, Seq::empty());
    lemma_text_same(w, w1, before, 0, u);
    assert(Seq::<u16>::empty() + text_of(w, before, 0, u) =~= text_of(w, before, 0, u));
    lemma_intern(w2, text_of(w, before, 0, u));
}

// Array iterators

/// An array iterator gives, step by step, the element at its index, the index, or an array of both,
/// and goes on to the next index; behind the last it is done, and stays so.
pub proof fn law_array_iterators_go_up(
    w: World,
    it: ArrayIter,
    len: int,
    v: Value,
)
    requires
        it.target.object(),
        0 <= len <= num::MAX_SAFE,
        w.asked.len() + 3 < w.answers.len(),
        w.answers[w.asked.len() as int] == Answer::Value(Value::Undefined),
        w.answers[w.asked.len() + 1int] == Answer::Value(Value::Num(num::number(len))),
        it.index < len ==> w.answers[w.asked.len() + 2int] == Answer::Value(v),
    ensures
        ({
            let (w1, after, r) = array_iterated(w, it);
            let n = w.asked.len() as int;
            &&& it.index < len ==> {
                &&& after == ArrayIter { index: (it.index + 1) as u64, ..it }
                &&& w1.asked[n + 2] == question(
                    Op::Get(it.target, Key::Index(it.index)),
                    Seq::empty(),
                )
                &&& match it.kind {
                    ElementKind::Values => w1.asked[n + 3] == question(
                        Op::NewIterResult(v, false),
                        Seq::empty(),
                    ),
                    ElementKind::Keys => w1.asked[n + 3] == question(
                        Op::NewIterResult(counter(it.index as int), false),
                        Seq::empty(),
                    ),
                    ElementKind::Entries => {
                        &&& w1.asked[n + 3] == question(
                            Op::NewArray,
                            seq![counter(it.index as int), v],
                        )
                        &&& w.answers[n + 3] matches Answer::Value(pair) ==> w1.asked[n + 4]
                            == question(Op::NewIterResult(pair, false), Seq::empty())
                    },
                }
            }
            &&& it.index >= len ==> {
                &&& after.target == Value::Undefined
                &&& w1.asked[n + 2] == question(
                    Op::NewIterResult(Value::Undefined, true),
                    Seq::empty(),
                )
            }
        }),
{
    num::law_numbers_hold_their_integer(len);
}

// sort

proof fn lemma_present_extends(w: World, o: Value, k: int, len: int, acc: Seq<Value>)
    ensures
        extends(w, present_from(w, o, k, len, acc).0),
    decreases len - k,
{
    if k < len {
        let (w1, v) = crate::array::present(w, o, k as u64);
        if let Ok(v) = v {
            if let Some(v) = v {
                lemma_present_extends(w1, o, k + 1, len, acc.push(v));
            } else {
                lemma_present_extends(w1, o, k + 1, len, acc);
            }
        }
    }
}

/// A sort goes by the elements that are there, holes left out.
#[verifier::spinoff_prover]
#[verifier::rlimit(60)]
pub proof fn law_sort_takes_what_is_there(t: Watched, w: World, k: int, acc: Seq<Value>)
    requires
        t.from <= w.asked.len(),
        0 <= k <= t.holds(w).len() <= num::MAX_SAFE,
        present_from(w, t.array, k, t.holds(w).len() as int, acc).1 is Ok,
        t.faithful(present_from(w, t.array, k, t.holds(w).len() as int, acc).0),
    ensures
        present_from(w, t.array, k, t.holds(w).len() as int, acc).1->Ok_0 == acc + solid(
            t.holds(w),
            k,
        ),
    decreases t.holds(w).len() - k,
{
    let e = t.holds(w);
    let len = e.len() as int;
    if k < len {
        let wf = present_from(w, t.array, k, len, acc).0;
        let (w1, v) = crate::array::present(w, t.array, k as u64);
        match v->Ok_0 {
            None => {
                lemma_present_extends(w1, t.array, k + 1, len, acc);
                t.lemma_earlier(w1, wf);
                lemma_present(t, w, k as u64);
                law_sort_takes_what_is_there(t, w1, k + 1, acc);
            },
            Some(v) => {
                lemma_present_extends(w1, t.array, k + 1, len, acc.push(v));
                t.lemma_earlier(w1, wf);
                lemma_present(t, w, k as u64);
                law_sort_takes_what_is_there(t, w1, k + 1, acc.push(v));
                assert(acc.push(v) + solid(e, k + 1) =~= acc + solid(e, k));
            },
        }
    } else {
        assert(acc + solid(e, k) =~= acc);
    }
}

/// The sorted elements are written back from the first index on, and what is left of the length
/// becomes holes.
#[verifier::spinoff_prover]
#[verifier::rlimit(60)]
pub proof fn law_sort_writes_back_in_order(t: Watched, w: World, items: Seq<Value>, j: int, len: int)
    requires
        t.from <= w.asked.len(),
        0 <= j <= len <= num::MAX_SAFE,
        items.len() <= len,
        written_back(w, t.array, items, j, len).1 is Ok,
    ensures
        written_back(w, t.array, items, j, len).1->Ok_0 == t.array,
        forall|k: int| #[trigger]
            element(t.holds(written_back(w, t.array, items, j, len).0), k) == if j <= k < len {
                if k < items.len() {
                    Some(items[k])
                } else {
                    None
                }
            } else {
                element(t.holds(w), k)
            },
    decreases len - j,
{
    if j < len {
        if j < items.len() {
            let op = Op::SetFor(t.array, Key::Index(j as u64), items[j], t.array);
            let w1 = w.value(op, Seq::empty()).0;
            lemma_value(t, w, op);
            law_sort_writes_back_in_order(t, w1, items, j + 1, len);
        } else {
            let op = Op::Remove(t.array, Key::Index(j as u64));
            let w1 = w.value(op, Seq::empty()).0;
            lemma_value(t, w, op);
            law_sort_writes_back_in_order(t, w1, items, j + 1, len);
        }
    }
}

/// A comparator that gives a positive number puts the first of the two behind the second; one that
/// gives zero or less leaves them. Undefined goes behind everything, and is never compared.
pub proof fn law_comparators_decide(w: World, order: Value, a: Value, b: Value, n: u64)
    requires
        order.callable(),
        w.asked.len() < w.answers.len(),
        w.answers[w.asked.len() as int] == Answer::Value(Value::Num(n)),
    ensures
        ({
            let (w1, r) = goes_behind(w, order, a, b);
            &&& a != Value::Undefined && b != Value::Undefined ==> {
                &&& w1.asked == w.asked.push(
                    question(Op::Call(order, Value::Undefined), seq![a, b]),
                )
                &&& num::finite(n) && num::integer_part(n) > 0 ==> r == Ok::<bool, Value>(true)
                &&& num::negative(n) || n == 0 || num::nan(n) ==> r == Ok::<bool, Value>(false)
            }
            &&& a == Value::Undefined ==> w1 == w && r == Ok::<bool, Value>(b != Value::Undefined)
            &&& a != Value::Undefined && b == Value::Undefined ==> w1 == w && r == Ok::<bool, Value>(
                false,
            )
        }),
{
    num::lemma_magnitude_nonneg(n);
    if num::finite(n) && num::integer_part(n) > 0 {
        assert(num::number(0) == 0);
        assert(n != 0) by {
            num::law_numbers_hold_their_integer(0);
        }
    }
}

} // verus!
