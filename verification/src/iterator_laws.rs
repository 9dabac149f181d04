//! What the methods that use up an iterator make of its elements.
use vstd::prelude::*;
use crate::equality::same_zero;
use crate::feeds::{counter, lemma_stepped_extends, Feed, Steady};
use crate::interp::{Answer, Key, Op, Value, World};
use crate::iterator::{
    drained_from, for_each, for_each_from, found, found_from, included, included_from, joined,
    joined_from, reduced, reduced_from, some_every, some_every_from, stepped, to_array, Bound,
};
use crate::num;
use crate::regexp_laws::{lemma_intern, says};
use crate::trace::{extends, learned, lemma_learned, lemma_stays_learned, question, told};

verus! {

/// The receiver is the source of the feed, from here on, and the next answer is its `next`.
pub open spec fn feeds(feed: Feed, w: World) -> bool {
    &&& feed.wf()
    &&& feed.from == w.asked.len() + 1
    &&& w.asked.len() < w.answers.len()
    &&& w.answers[w.asked.len() as int] == Answer::Value(feed.next)
}

/// The transcript once `next` has been read.
pub open spec fn begun(feed: Feed, w: World) -> World {
    World {
        asked: w.asked.push(question(Op::Get(feed.source, Key::Name("next")), Seq::empty())),
        ..w
    }
}

/// Whether the answer of a test on an element counts as true.
pub open spec fn passes(w: World, p: Steady, items: Seq<Value>, k: int) -> bool {
    w.truthy((p.gives)(seq![items[k], counter(k)]))
}

// some and every

#[verifier::spinoff_prover]
#[verifier::rlimit(60)]
proof fn lemma_some_every(w: World, feed: Feed, p: Steady, want: bool, k: int)
    requires
        feed.wf(),
        p.this == Value::Undefined,
        feed.from <= w.asked.len(),
        k == feed.taken(w) <= feed.items.len(),
        some_every_from(w, feed.source, feed.next, p.f, want, k).1 is Ok,
        feed.faithful(some_every_from(w, feed.source, feed.next, p.f, want, k).0),
        p.faithful(some_every_from(w, feed.source, feed.next, p.f, want, k).0),
    ensures
        extends(w, some_every_from(w, feed.source, feed.next, p.f, want, k).0),
        some_every_from(w, feed.source, feed.next, p.f, want, k).1->Ok_0 == Value::Bool(
            if exists|j: int|
                k <= j < feed.items.len() && #[trigger] passes(w, p, feed.items, j) == want {
                want
            } else {
                !want
            },
        ),
    decreases w.left(),
{
    let (w1, step) = stepped(w, feed.source, feed.next);
    lemma_stepped_extends(w, feed.source, feed.next);
    let wf = some_every_from(w, feed.source, feed.next, p.f, want, k).0;
    if let Some(v) = step->Ok_0 {
        let op = Op::Call(p.f, Value::Undefined);
        let (w2, r) = w1.call(p.f, Value::Undefined, seq![v, counter(k)]);
        if w2.truthy(r->Ok_0) != want {
            lemma_some_every_extends(w2, feed, p.f, want, num::counted(k));
        }
        feed.lemma_earlier(w2, wf);
        p.lemma_earlier(w2, wf);
        feed.lemma_step(w1, op, seq![v, counter(k)]);
        p.lemma_call(w1, seq![v, counter(k)]);
        feed.lemma_stepped(w);
        if w2.truthy(r->Ok_0) != want {
            lemma_some_every(w2, feed, p, want, k + 1);
            assert forall|j: int| passes(w, p, feed.items, j) == passes(w2, p, feed.items, j) by {}
            assert(passes(w, p, feed.items, k) != want);
        } else {
            assert(passes(w, p, feed.items, k) == want);
        }
    } else {
        feed.lemma_stepped(w);
    }
}

proof fn lemma_some_every_extends(w: World, feed: Feed, f: Value, want: bool, k: int)
    ensures
        extends(w, some_every_from(w, feed.source, feed.next, f, want, k).0),
    decreases w.left(),
{
    let (w1, step) = stepped(w, feed.source, feed.next);
    lemma_stepped_extends(w, feed.source, feed.next);
    if let Ok(Some(v)) = step {
        let (w2, r) = w1.call(f, Value::Undefined, seq![v, Value::Num(num::number(k))]);
        if r is Ok && w2.truthy(r->Ok_0) != want {
            lemma_some_every_extends(w2, feed, f, want, num::counted(k));
        }
    }
}

/// `some` says whether a test on some element succeeds, `every` whether a test on each does.
pub proof fn law_some_and_every(w: World, feed: Feed, p: Steady, want: bool)
    requires
        feeds(feed, w),
        p.f.callable(),
        p.this == Value::Undefined,
        some_every(w, feed.source, seq![p.f], want).1 is Ok,
        feed.faithful(some_every(w, feed.source, seq![p.f], want).0),
        p.faithful(some_every(w, feed.source, seq![p.f], want).0),
    ensures
        want ==> some_every(w, feed.source, seq![p.f], want).1->Ok_0 == Value::Bool(
            exists|j: int| 0 <= j < feed.items.len() && #[trigger] passes(w, p, feed.items, j),
        ),
        !want ==> some_every(w, feed.source, seq![p.f], want).1->Ok_0 == Value::Bool(
            forall|j: int| 0 <= j < feed.items.len() ==> #[trigger] passes(w, p, feed.items, j),
        ),
{
    let w1 = begun(feed, w);
    lemma_some_every(w1, feed, p, want, 0);
    assert forall|j: int| passes(w, p, feed.items, j) == passes(w1, p, feed.items, j) by {}
}

// find

/// The first element from `k` on whose test succeeds, or undefined where there is none.
pub open spec fn first_passing(w: World, p: Steady, items: Seq<Value>, k: int, r: Value) -> bool {
    ||| r == Value::Undefined && forall|j: int|
        k <= j < items.len() ==> !#[trigger] passes(w, p, items, j)
    ||| exists|m: int|
        k <= m < items.len() && r == items[m] && #[trigger] passes(w, p, items, m) && forall|j: int|
            k <= j < m ==> !#[trigger] passes(w, p, items, j)
}

#[verifier::spinoff_prover]
#[verifier::rlimit(60)]
proof fn lemma_first_passing(w: World, w1: World, p: Steady, items: Seq<Value>, k: int, r: Value)
    requires
        w.strings == w1.strings,
        !passes(w, p, items, k),
        first_passing(w1, p, items, k + 1, r),
    ensures
        first_passing(w, p, items, k, r),
{
    assert forall|j: int| passes(w, p, items, j) == passes(w1, p, items, j) by {}
    if !(r == Value::Undefined && forall|j: int|
        k + 1 <= j < items.len() ==> !#[trigger] passes(w1, p, items, j)) {
        let m = choose|m: int|
            k + 1 <= m < items.len() && r == items[m] && #[trigger] passes(w1, p, items, m)
                && forall|j: int| k + 1 <= j < m ==> !#[trigger] passes(w1, p, items, j);
        assert(passes(w, p, items, m));
    }
}

#[verifier::spinoff_prover]
#[verifier::rlimit(60)]
proof fn lemma_found(w: World, feed: Feed, p: Steady, k: int)
    requires
        feed.wf(),
        p.this == Value::Undefined,
        feed.from <= w.asked.len(),
        k == feed.taken(w) <= feed.items.len(),
        found_from(w, feed.source, feed.next, p.f, k).1 is Ok,
        feed.faithful(found_from(w, feed.source, feed.next, p.f, k).0),
        p.faithful(found_from(w, feed.source, feed.next, p.f, k).0),
    ensures
        first_passing(
            w,
            p,
            feed.items,
            k,
            found_from(w, feed.source, feed.next, p.f, k).1->Ok_0,
        ),
    decreases w.left(),
{
    let (w1, step) = stepped(w, feed.source, feed.next);
    lemma_stepped_extends(w, feed.source, feed.next);
    let (wf, res) = found_from(w, feed.source, feed.next, p.f, k);
    if let Some(v) = step->Ok_0 {
        let op = Op::Call(p.f, Value::Undefined);
        let (w2, r) = w1.call(p.f, Value::Undefined, seq![v, counter(k)]);
        if !w2.truthy(r->Ok_0) {
            lemma_found_extends(w2, feed, p.f, num::counted(k));
        }
        feed.lemma_earlier(w2, wf);
        p.lemma_earlier(w2, wf);
        feed.lemma_step(w1, op, seq![v, counter(k)]);
        p.lemma_call(w1, seq![v, counter(k)]);
        feed.lemma_stepped(w);
        if !w2.truthy(r->Ok_0) {
            lemma_found(w2, feed, p, k + 1);
            lemma_first_passing(w, w2, p, feed.items, k, res->Ok_0);
        } else {
            assert(passes(w, p, feed.items, k));
        }
    } else {
        feed.lemma_stepped(w);
    }
}

proof fn lemma_found_extends(w: World, feed: Feed, f: Value, k: int)
    ensures
        extends(w, found_from(w, feed.source, feed.next, f, k).0),
    decreases w.left(),
{
    let (w1, step) = stepped(w, feed.source, feed.next);
    lemma_stepped_extends(w, feed.source, feed.next);
    if let Ok(Some(v)) = step {
        let (w2, r) = w1.call(f, Value::Undefined, seq![v, Value::Num(num::number(k))]);
        if r is Ok && !w2.truthy(r->Ok_0) {
            lemma_found_extends(w2, feed, f, num::counted(k));
        }
    }
}

/// `find` gives the first element whose test succeeds, or undefined where there is none.
#[verifier::spinoff_prover]
#[verifier::rlimit(60)]
pub proof fn law_find_gives_the_first(w: World, feed: Feed, p: Steady)
    requires
        feeds(feed, w),
        p.f.callable(),
        p.this == Value::Undefined,
        found(w, feed.source, seq![p.f]).1 is Ok,
        feed.faithful(found(w, feed.source, seq![p.f]).0),
        p.faithful(found(w, feed.source, seq![p.f]).0),
    ensures
        first_passing(w, p, feed.items, 0, found(w, feed.source, seq![p.f]).1->Ok_0),
{
    let w1 = begun(feed, w);
    lemma_found(w1, feed, p, 0);
    assert forall|j: int| passes(w, p, feed.items, j) == passes(w1, p, feed.items, j) by {}
    let r = found(w, feed.source, seq![p.f]).1->Ok_0;
    if !(r == Value::Undefined && forall|j: int|
        0 <= j < feed.items.len() ==> !#[trigger] passes(w1, p, feed.items, j)) {
        let m = choose|m: int|
            0 <= m < feed.items.len() && r == feed.items[m] && #[trigger] passes(
                w1,
                p,
                feed.items,
                m,
            ) && forall|j: int| 0 <= j < m ==> !#[trigger] passes(w1, p, feed.items, j);
        assert(passes(w, p, feed.items, m));
    }
}

// reduce

/// The items from `k` on, folded into an accumulator: the function is handed the accumulator, the
/// element and its place.
pub open spec fn folded(items: Seq<Value>, k: int, g: Steady, acc: Value) -> Value
    decreases items.len() - k,
{
    if k < 0 || k >= items.len() {
        acc
    } else {
        folded(items, k + 1, g, (g.gives)(seq![acc, items[k], counter(k)]))
    }
}

proof fn lemma_reduced_extends(w: World, feed: Feed, f: Value, acc: Value, k: int)
    ensures
        extends(w, reduced_from(w, feed.source, feed.next, f, acc, k).0),
    decreases w.left(),
{
    let (w1, step) = stepped(w, feed.source, feed.next);
    lemma_stepped_extends(w, feed.source, feed.next);
    if let Ok(Some(v)) = step {
        let (w2, r) = w1.call(f, Value::Undefined, seq![acc, v, Value::Num(num::number(k))]);
        if r is Ok {
            lemma_reduced_extends(w2, feed, f, r->Ok_0, num::counted(k));
        }
    }
}

#[verifier::spinoff_prover]
#[verifier::rlimit(60)]
proof fn lemma_reduced(w: World, feed: Feed, g: Steady, acc: Value, k: int)
    requires
        feed.wf(),
        g.this == Value::Undefined,
        feed.from <= w.asked.len(),
        k == feed.taken(w) <= feed.items.len(),
        reduced_from(w, feed.source, feed.next, g.f, acc, k).1 is Ok,
        feed.faithful(reduced_from(w, feed.source, feed.next, g.f, acc, k).0),
        g.faithful(reduced_from(w, feed.source, feed.next, g.f, acc, k).0),
    ensures
        reduced_from(w, feed.source, feed.next, g.f, acc, k).1->Ok_0 == folded(
            feed.items,
            k,
            g,
            acc,
        ),
    decreases w.left(),
{
    let (w1, step) = stepped(w, feed.source, feed.next);
    lemma_stepped_extends(w, feed.source, feed.next);
    let wf = reduced_from(w, feed.source, feed.next, g.f, acc, k).0;
    if let Some(v) = step->Ok_0 {
        let list = seq![acc, v, counter(k)];
        let (w2, r) = w1.call(g.f, Value::Undefined, list);
        lemma_reduced_extends(w2, feed, g.f, r->Ok_0, num::counted(k));
        feed.lemma_earlier(w2, wf);
        g.lemma_earlier(w2, wf);
        feed.lemma_step(w1, Op::Call(g.f, Value::Undefined), list);
        g.lemma_call(w1, list);
        feed.lemma_stepped(w);
        lemma_reduced(w2, feed, g, r->Ok_0, k + 1);
    } else {
        feed.lemma_stepped(w);
    }
}

/// `reduce` folds the elements from the left, from the initial value on, or from the first element
/// on where there is none; without either it throws.
#[verifier::spinoff_prover]
#[verifier::rlimit(60)]
pub proof fn law_reduce_folds_from_the_left(w: World, feed: Feed, g: Steady, init: Option<Value>)
    requires
        feeds(feed, w),
        g.f.callable(),
        g.this == Value::Undefined,
        ({
            let args = match init {
                Some(v) => seq![g.f, v],
                None => seq![g.f],
            };
            &&& reduced(w, feed.source, args).1 is Ok
            &&& feed.faithful(reduced(w, feed.source, args).0)
            &&& g.faithful(reduced(w, feed.source, args).0)
        }),
    ensures
        match init {
            Some(v) => reduced(w, feed.source, seq![g.f, v]).1->Ok_0 == folded(
                feed.items,
                0,
                g,
                v,
            ),
            None => feed.items.len() > 0 && reduced(w, feed.source, seq![g.f]).1->Ok_0 == folded(
                feed.items,
                1,
                g,
                feed.items[0],
            ),
        },
{
    let w1 = begun(feed, w);
    match init {
        Some(v) => lemma_reduced(w1, feed, g, v, 0),
        None => {
            let (w2, first) = stepped(w1, feed.source, feed.next);
            let wf = reduced(w, feed.source, seq![g.f]).0;
            lemma_stepped_extends(w1, feed.source, feed.next);
            if first->Ok_0 is Some {
                lemma_reduced_extends(w2, feed, g.f, first->Ok_0->0, 1);
                feed.lemma_earlier(w2, wf);
                feed.lemma_stepped(w1);
                lemma_reduced(w2, feed, g, first->Ok_0->0, 1);
            }
        },
    }
}

// toArray and forEach

#[verifier::spinoff_prover]
#[verifier::rlimit(60)]
proof fn lemma_drained(w: World, feed: Feed, out: Seq<Value>)
    requires
        feed.wf(),
        feed.from <= w.asked.len(),
        feed.taken(w) <= feed.items.len(),
        drained_from(w, feed.source, feed.next, out).1 is Ok,
        feed.faithful(drained_from(w, feed.source, feed.next, out).0),
    ensures
        drained_from(w, feed.source, feed.next, out).1->Ok_0 == out + feed.items.skip(
            feed.taken(w) as int,
        ),
    decreases w.left(),
{
    let k = feed.taken(w) as int;
    let (w1, step) = stepped(w, feed.source, feed.next);
    lemma_stepped_extends(w, feed.source, feed.next);
    if let Some(v) = step->Ok_0 {
        lemma_drained_extends(w1, feed, out.push(v));
        feed.lemma_earlier(w1, drained_from(w, feed.source, feed.next, out).0);
        feed.lemma_stepped(w);
        lemma_drained(w1, feed, out.push(v));
        assert(out.push(v) + feed.items.skip(k + 1) =~= out + feed.items.skip(k));
    } else {
        feed.lemma_stepped(w);
        assert(out + feed.items.skip(k) =~= out);
    }
}

proof fn lemma_drained_extends(w: World, feed: Feed, out: Seq<Value>)
    ensures
        extends(w, drained_from(w, feed.source, feed.next, out).0),
    decreases w.left(),
{
    let (w1, step) = stepped(w, feed.source, feed.next);
    lemma_stepped_extends(w, feed.source, feed.next);
    if let Ok(Some(v)) = step {
        lemma_drained_extends(w1, feed, out.push(v));
    }
}

/// `toArray` gives an array of the elements, in order.
#[verifier::spinoff_prover]
#[verifier::rlimit(60)]
pub proof fn law_to_array_holds_the_elements(w: World, feed: Feed)
    requires
        feeds(feed, w),
        to_array(w, feed.source).1 is Ok,
        to_array(w, feed.source).1->Ok_0.object(),
        feed.faithful(to_array(w, feed.source).0),
    ensures
        learned(
            w,
            to_array(w, feed.source).0,
            Op::NewArray,
            feed.items,
            Answer::Value(to_array(w, feed.source).1->Ok_0),
        ),
{
    let w1 = begun(feed, w);
    let (w2, all) = drained_from(w1, feed.source, feed.next, Seq::empty());
    let (w3, a) = to_array(w, feed.source);
    lemma_drained_extends(w1, feed, Seq::empty());
    feed.lemma_earlier(w2, w3);
    lemma_drained(w1, feed, Seq::empty());
    assert(Seq::<Value>::empty() + feed.items.skip(0) =~= feed.items);
    lemma_learned(w2, Op::NewArray, feed.items);
    lemma_stays_learned(w, w2, w3, w3, Op::NewArray, feed.items, Answer::Value(a->Ok_0));
}

/// `includes` says whether the value is among the elements, behind those to be passed over.
pub proof fn law_includes_searches_behind_the_skipped(
    w: World,
    feed: Feed,
    search: Value,
    skip: int,
)
    requires
        feeds(feed, w),
        0 <= skip <= num::MAX_SAFE,
        included(w, feed.source, seq![search, counter(skip)]).1 is Ok,
        feed.faithful(included(w, feed.source, seq![search, counter(skip)]).0),
    ensures
        included(w, feed.source, seq![search, counter(skip)]).1->Ok_0 == Value::Bool(
            exists|j: int|
                skip <= j < feed.items.len() && same_zero(#[trigger] feed.items[j], search),
        ),
{
    num::law_numbers_hold_their_integer(skip);
    let w1 = begun(feed, w);
    lemma_included(w1, feed, search, Bound::Finite(skip as u64), 0, skip);
}

#[verifier::spinoff_prover]
#[verifier::rlimit(60)]
proof fn lemma_included(w: World, feed: Feed, search: Value, bound: Bound, skipped: int, skip: int)
    requires
        feed.wf(),
        feed.from <= w.asked.len(),
        feed.taken(w) <= feed.items.len(),
        bound == Bound::Finite(skip as u64),
        0 <= skipped <= skip <= num::MAX_SAFE,
        feed.taken(w) < skip ==> skipped == feed.taken(w),
        feed.taken(w) >= skip ==> skipped == skip,
        included_from(w, feed.source, feed.next, search, bound, skipped).1 is Ok,
        feed.faithful(included_from(w, feed.source, feed.next, search, bound, skipped).0),
    ensures
        included_from(w, feed.source, feed.next, search, bound, skipped).1->Ok_0 == Value::Bool(
            exists|j: int|
                skip <= j < feed.items.len() && feed.taken(w) <= j && same_zero(
                    #[trigger] feed.items[j],
                    search,
                ),
        ),
    decreases w.left(),
{
    let k = feed.taken(w) as int;
    let (w1, step) = stepped(w, feed.source, feed.next);
    lemma_stepped_extends(w, feed.source, feed.next);
    let wf = included_from(w, feed.source, feed.next, search, bound, skipped).0;
    if let Some(v) = step->Ok_0 {
        if bound.above(skipped) {
            lemma_included_extends(w1, feed, search, bound, num::counted(skipped));
            feed.lemma_earlier(w1, wf);
            feed.lemma_stepped(w);
            lemma_included(w1, feed, search, bound, skipped + 1, skip);
        } else if same_zero(v, search) {
            feed.lemma_earlier(w1, wf);
            feed.lemma_stepped(w);
            assert(same_zero(feed.items[k], search));
        } else {
            lemma_included_extends(w1, feed, search, bound, skipped);
            feed.lemma_earlier(w1, wf);
            feed.lemma_stepped(w);
            lemma_included(w1, feed, search, bound, skipped, skip);
        }
    } else {
        feed.lemma_stepped(w);
    }
}

proof fn lemma_included_extends(w: World, feed: Feed, search: Value, bound: Bound, skipped: int)
    ensures
        extends(w, included_from(w, feed.source, feed.next, search, bound, skipped).0),
    decreases w.left(),
{
    let (w1, step) = stepped(w, feed.source, feed.next);
    lemma_stepped_extends(w, feed.source, feed.next);
    if let Ok(Some(v)) = step {
        if bound.above(skipped) {
            lemma_included_extends(w1, feed, search, bound, num::counted(skipped));
        } else if !same_zero(v, search) {
            lemma_included_extends(w1, feed, search, bound, skipped);
        }
    }
}

// join

/// The texts from `k` on, with the separator before each but the first of all.
pub open spec fn text_from(w: World, items: Seq<Value>, k: int, sep: Seq<u16>) -> Seq<u16>
    decreases items.len() - k,
{
    if k < 0 || k >= items.len() {
        Seq::empty()
    } else {
        (if k == 0 {
            Seq::empty()
        } else {
            sep
        }) + (match items[k] {
            Value::Str(s) => w.units(s),
            _ => Seq::empty(),
        }) + text_from(w, items, k + 1, sep)
    }
}

proof fn lemma_text_same(w: World, w1: World, items: Seq<Value>, k: int, sep: Seq<u16>)
    requires
        w.strings == w1.strings,
    ensures
        text_from(w, items, k, sep) == text_from(w1, items, k, sep),
    decreases items.len() - k,
{
    if 0 <= k < items.len() {
        lemma_text_same(w, w1, items, k + 1, sep);
    }
}

#[verifier::spinoff_prover]
#[verifier::rlimit(60)]
proof fn lemma_text_step(w: World, items: Seq<Value>, k: int, sep: Seq<u16>, acc: Seq<u16>)
    requires
        0 <= k < items.len(),
        items[k] is Str || items[k].nullish(),
    ensures
        ({
            let acc1 = if k == 0 {
                acc
            } else {
                acc + sep
            };
            let acc2 = if items[k].nullish() {
                acc1
            } else {
                acc1 + w.units(items[k]->Str_0)
            };
            acc2 + text_from(w, items, k + 1, sep) == acc + text_from(w, items, k, sep)
        }),
{
    let rest = text_from(w, items, k + 1, sep);
    let acc1 = if k == 0 {
        acc
    } else {
        acc + sep
    };
    let acc2 = if items[k].nullish() {
        acc1
    } else {
        acc1 + w.units(items[k]->Str_0)
    };
    assert(acc2 + rest =~= acc + text_from(w, items, k, sep));
}

#[verifier::spinoff_prover]
#[verifier::rlimit(50)]
proof fn lemma_joined(w: World, feed: Feed, sep: Seq<u16>, acc: Seq<u16>, first: bool)
    requires
        feed.wf(),
        feed.from <= w.asked.len(),
        feed.taken(w) <= feed.items.len(),
        first == (feed.taken(w) == 0),
        forall|j: int|
            0 <= j < feed.items.len() ==> (#[trigger] feed.items[j]) is Str
                || feed.items[j].nullish(),
        w.strings.len() < u64::MAX,
        joined_from(w, feed.source, feed.next, sep, acc, first).1 is Ok,
        feed.faithful(joined_from(w, feed.source, feed.next, sep, acc, first).0),
    ensures
        says(
            joined_from(w, feed.source, feed.next, sep, acc, first).0,
            joined_from(w, feed.source, feed.next, sep, acc, first).1->Ok_0,
            acc + text_from(w, feed.items, feed.taken(w) as int, sep),
        ),
    decreases w.left(),
{
    let k = feed.taken(w) as int;
    let (w1, step) = stepped(w, feed.source, feed.next);
    lemma_stepped_extends(w, feed.source, feed.next);
    let wf = joined_from(w, feed.source, feed.next, sep, acc, first).0;
    if let Some(v) = step->Ok_0 {
        let acc1 = if first {
            acc
        } else {
            acc + sep
        };
        let acc2 = if v.nullish() {
            acc1
        } else {
            acc1 + w1.units(w1.text(v).1->Ok_0)
        };
        let w2 = if v.nullish() {
            w1
        } else {
            w1.text(v).0
        };
        lemma_joined_extends(w2, feed, sep, acc2, false);
        feed.lemma_earlier(w1, wf);
        feed.lemma_stepped(w);
        assert(feed.items[k] == v);
        assert(w2 == w1);
        lemma_joined(w1, feed, sep, acc2, false);
        lemma_text_same(w, w1, feed.items, k + 1, sep);
        lemma_text_step(w, feed.items, k, sep, acc);
    } else {
        lemma_intern(w1, acc);
        feed.lemma_earlier(w1, wf);
        feed.lemma_stepped(w);
        assert(acc + text_from(w, feed.items, k, sep) =~= acc);
    }
}

#[verifier::spinoff_prover]
#[verifier::rlimit(60)]
proof fn lemma_joined_extends(w: World, feed: Feed, sep: Seq<u16>, acc: Seq<u16>, first: bool)
    ensures
        extends(w, joined_from(w, feed.source, feed.next, sep, acc, first).0),
    decreases w.left(),
{
    let (w1, step) = stepped(w, feed.source, feed.next);
    lemma_stepped_extends(w, feed.source, feed.next);
    if let Ok(Some(v)) = step {
        let acc1 = if first {
            acc
        } else {
            acc + sep
        };
        if v.nullish() {
            lemma_joined_extends(w1, feed, sep, acc1, false);
        } else {
            let (w2, s) = w1.text(v);
            if s is Ok {
                lemma_joined_extends(w2, feed, sep, acc1 + w2.units(s->Ok_0), false);
            }
        }
    }
}

/// `join` of texts gives them in order with the separator, a comma where none is given, in between;
/// undefined and null count as empty.
#[verifier::spinoff_prover]
#[verifier::rlimit(60)]
pub proof fn law_join_puts_the_separator_between(w: World, feed: Feed, sep: Value)
    requires
        feeds(feed, w),
        sep is Str || sep == Value::Undefined,
        forall|j: int|
            0 <= j < feed.items.len() ==> (#[trigger] feed.items[j]) is Str
                || feed.items[j].nullish(),
        w.strings.len() < u64::MAX,
        joined(w, feed.source, seq![sep]).1 is Ok,
        feed.faithful(joined(w, feed.source, seq![sep]).0),
    ensures
        says(
            joined(w, feed.source, seq![sep]).0,
            joined(w, feed.source, seq![sep]).1->Ok_0,
            text_from(
                w,
                feed.items,
                0,
                match sep {
                    Value::Str(s) => w.units(s),
                    _ => seq![',' as u16],
                },
            ),
        ),
{
    let w1 = begun(feed, w);
    let u = match sep {
        Value::Str(s) => w.units(s),
        _ => seq![',' as u16],
    };
    lemma_joined(w1, feed, u, Seq::empty(), true);
    lemma_text_same(w, w1, feed.items, 0, u);
    assert(Seq::<u16>::empty() + text_from(w, feed.items, 0, u) =~= text_from(w, feed.items, 0, u));
}

// forEach

#[verifier::spinoff_prover]
#[verifier::rlimit(60)]
proof fn lemma_for_each(a: World, w: World, feed: Feed, f: Value, k: int)
    requires
        extends(a, w),
        feed.wf(),
        feed.from <= w.asked.len(),
        k == feed.taken(w) <= feed.items.len(),
        for_each_from(w, feed.source, feed.next, f, k).1 is Ok,
        feed.faithful(for_each_from(w, feed.source, feed.next, f, k).0),
    ensures
        for_each_from(w, feed.source, feed.next, f, k).1->Ok_0 == Value::Undefined,
        forall|j: int|
            k <= j < feed.items.len() ==> told(
                a,
                for_each_from(w, feed.source, feed.next, f, k).0,
                Op::Call(f, Value::Undefined),
                seq![#[trigger] feed.items[j], counter(j)],
            ),
    decreases w.left(),
{
    let (w1, step) = stepped(w, feed.source, feed.next);
    lemma_stepped_extends(w, feed.source, feed.next);
    let wf = for_each_from(w, feed.source, feed.next, f, k).0;
    if let Some(v) = step->Ok_0 {
        let op = Op::Call(f, Value::Undefined);
        let list = seq![v, counter(k)];
        let (w2, r) = w1.call(f, Value::Undefined, list);
        lemma_for_each_extends(w2, feed, f, num::counted(k));
        feed.lemma_earlier(w2, wf);
        feed.lemma_step(w1, op, list);
        feed.lemma_stepped(w);
        lemma_learned(w1, op, list);
        crate::trace::lemma_stays_told(a, w1, w2, wf, op, list);
        lemma_for_each(a, w2, feed, f, k + 1);
        assert(v == feed.items[k]);
    } else {
        feed.lemma_stepped(w);
    }
}

proof fn lemma_for_each_extends(w: World, feed: Feed, f: Value, k: int)
    ensures
        extends(w, for_each_from(w, feed.source, feed.next, f, k).0),
    decreases w.left(),
{
    let (w1, step) = stepped(w, feed.source, feed.next);
    lemma_stepped_extends(w, feed.source, feed.next);
    if let Ok(Some(v)) = step {
        let (w2, r) = w1.call(f, Value::Undefined, seq![v, Value::Num(num::number(k))]);
        if r is Ok {
            lemma_for_each_extends(w2, feed, f, num::counted(k));
        }
    }
}

/// `forEach` calls the function with each element and its place, and gives undefined.
pub proof fn law_for_each_visits_every_element(w: World, feed: Feed, f: Value)
    requires
        feeds(feed, w),
        f.callable(),
        for_each(w, feed.source, seq![f]).1 is Ok,
        feed.faithful(for_each(w, feed.source, seq![f]).0),
    ensures
        for_each(w, feed.source, seq![f]).1->Ok_0 == Value::Undefined,
        forall|j: int|
            0 <= j < feed.items.len() ==> told(
                w,
                for_each(w, feed.source, seq![f]).0,
                Op::Call(f, Value::Undefined),
                seq![#[trigger] feed.items[j], counter(j)],
            ),
{
    lemma_for_each(w, begun(feed, w), feed, f, 0);
}

} // verus!
