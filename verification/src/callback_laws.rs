//! What the `Array` methods that take a function make of the elements of an ordinary array.
use vstd::prelude::*;
use crate::array::{created_at, present, species_created};
use crate::array_callbacks::{
    callback_setup, called_on, each, each_from, filtered, found, found_from, kept_from, mapped,
    mapped_from, read_down, read_from, reduce_index, reduced, reduced_from, replaced_copy,
    reversed_copy, spliced_copy, tested, tested_from,
};
use crate::array_laws::{
    holding, lemma_from_later, lemma_length, lemma_present, lemma_species, lemma_species_extends,
    lemma_value, names_count, names_index, or_undefined,
};
use crate::feeds::{counter, Steady};
use crate::interp::{Key, Op, Value, World};
use crate::num;
use crate::proxy::length_of;
use crate::trace::{
    element, extends, lemma_learned, lemma_stays_told, quietly, stored, told, Elements, Watched,
};

verus! {

/// What a function gives for an element of array `o`: it is handed the element, its index and the
/// array.
pub open spec fn image(g: Steady, v: Value, k: int, o: Value) -> Value {
    (g.gives)(seq![v, counter(k), o])
}

/// Whether an element passes a test.
pub open spec fn passes(w: World, g: Steady, v: Value, k: int, o: Value) -> bool {
    w.truthy(image(g, v, k, o))
}

/// The call of a function on an element changes nothing that the array holds.
proof fn lemma_called(t: Watched, g: Steady, w: World, v: Value, k: int)
    requires
        t.from <= w.asked.len(),
        called_on(w, g.f, g.this, v, k, t.array).1 is Ok,
        t.faithful(called_on(w, g.f, g.this, v, k, t.array).0),
        g.faithful(called_on(w, g.f, g.this, v, k, t.array).0),
    ensures
        extends(w, called_on(w, g.f, g.this, v, k, t.array).0),
        called_on(w, g.f, g.this, v, k, t.array).0.strings == w.strings,
        t.faithful(w),
        g.faithful(w),
        t.holds(called_on(w, g.f, g.this, v, k, t.array).0) == t.holds(w),
        called_on(w, g.f, g.this, v, k, t.array).1->Ok_0 == image(g, v, k, t.array),
{
    let list = seq![v, counter(k), t.array];
    t.lemma_step(w, Op::Call(g.f, g.this), list);
    g.lemma_call(w, list);
    g.lemma_earlier(w, w.call(g.f, g.this, list).0);
}

/// The receiver is array `o` with a function; its length is read first.
proof fn lemma_setup(t: Watched, w: World, cb: Value, complaint: &'static str)
    requires
        t.array.object(),
        t.from == w.asked.len(),
        t.start.len() <= num::MAX_SAFE,
        callback_setup(w, t.array, cb, complaint).1 is Ok,
        t.faithful(callback_setup(w, t.array, cb, complaint).0),
    ensures
        extends(w, callback_setup(w, t.array, cb, complaint).0),
        callback_setup(w, t.array, cb, complaint).0.strings == w.strings,
        quietly(w, callback_setup(w, t.array, cb, complaint).0),
        callback_setup(w, t.array, cb, complaint).1->Ok_0.0 == t.array,
        callback_setup(w, t.array, cb, complaint).1->Ok_0.1 == t.start.len(),
        t.holds(callback_setup(w, t.array, cb, complaint).0) == t.start,
        cb.callable(),
{
    assert(t.holds(w) == t.start);
    lemma_length(t, w);
}

// map

#[verifier::spinoff_prover]
#[verifier::rlimit(60)]
proof fn lemma_mapped_extends(w: World, o: Value, cb: Value, this: Value, k: int, len: int, r: Value)
    ensures
        extends(w, mapped_from(w, o, cb, this, k, len, r).0),
    decreases len - k,
{
    if k < len {
        let (w1, v) = present(w, o, k as u64);
        if let Ok(v) = v {
            if let Some(v) = v {
                let (w2, x) = called_on(w1, cb, this, v, k, o);
                if let Ok(x) = x {
                    let (w3, c) = created_at(w2, r, k, x);
                    if c is Ok {
                        lemma_mapped_extends(w3, o, cb, this, k + 1, len, r);
                    }
                }
            } else {
                lemma_mapped_extends(w1, o, cb, this, k + 1, len, r);
            }
        }
    }
}

#[verifier::spinoff_prover]
#[verifier::rlimit(60)]
proof fn lemma_mapped(t: Watched, u: Watched, g: Steady, w: World, k: int, len: int)
    requires
        t.from <= w.asked.len(),
        u.from <= w.asked.len(),
        t.array != u.array,
        0 <= k <= len <= num::MAX_SAFE,
        mapped_from(w, t.array, g.f, g.this, k, len, u.array).1 is Ok,
        t.faithful(mapped_from(w, t.array, g.f, g.this, k, len, u.array).0),
        g.faithful(mapped_from(w, t.array, g.f, g.this, k, len, u.array).0),
    ensures
        mapped_from(w, t.array, g.f, g.this, k, len, u.array).1->Ok_0 == u.array,
        t.holds(mapped_from(w, t.array, g.f, g.this, k, len, u.array).0) == t.holds(w),
        forall|j: int| #[trigger]
            element(u.holds(mapped_from(w, t.array, g.f, g.this, k, len, u.array).0), j) == if k
                <= j < len && element(t.holds(w), j) is Some {
                Some(image(g, element(t.holds(w), j)->0, j, t.array))
            } else {
                element(u.holds(w), j)
            },
    decreases len - k,
{
    if k < len {
        let wf = mapped_from(w, t.array, g.f, g.this, k, len, u.array).0;
        let (w1, v) = present(w, t.array, k as u64);
        match v->Ok_0 {
            None => {
                lemma_mapped_extends(w1, t.array, g.f, g.this, k + 1, len, u.array);
                t.lemma_earlier(w1, wf);
                lemma_present(t, w, k as u64);
                u.lemma_quiet(w, w1);
                lemma_mapped(t, u, g, w1, k + 1, len);
            },
            Some(v) => {
                let (w2, x) = called_on(w1, g.f, g.this, v, k, t.array);
                let op = Op::CreateData(u.array, Key::Index(k as u64), x->Ok_0);
                let w3 = created_at(w2, u.array, k, x->Ok_0).0;
                lemma_mapped_extends(w3, t.array, g.f, g.this, k + 1, len, u.array);
                t.lemma_earlier(w3, wf);
                g.lemma_earlier(w3, wf);
                lemma_value(t, w2, op);
                lemma_value(u, w2, op);
                g.lemma_earlier(w2, w3);
                lemma_called(t, g, w1, v, k);
                lemma_present(t, w, k as u64);
                u.lemma_quiet(w, w1);
                u.lemma_quiet(w1, w2);
                lemma_mapped(t, u, g, w3, k + 1, len);
            },
        }
    }
}

/// `map` gives an array that holds, at each index, what the function gives for the element there;
/// holes stay holes, and the receiver keeps its elements.
#[verifier::spinoff_prover]
#[verifier::rlimit(60)]
pub proof fn law_map_holds_the_images(w: World, this: Value, g: Steady, before: Elements)
    requires
        this.object(),
        before.len() <= num::MAX_SAFE,
        mapped(w, this, seq![g.f, g.this]).1 is Ok,
        mapped(w, this, seq![g.f, g.this]).1->Ok_0 != this,
        !mapped(w, this, seq![g.f, g.this]).0.halted(),
        holding(this, before, w).faithful(mapped(w, this, seq![g.f, g.this]).0),
        g.faithful(mapped(w, this, seq![g.f, g.this]).0),
    ensures
        ({
            let (w1, r) = mapped(w, this, seq![g.f, g.this]);
            &&& holding(this, before, w).holds(w1) == before
            &&& forall|j: int| #[trigger]
                element(holding(r->Ok_0, Seq::empty(), w).holds(w1), j) == match element(before, j) {
                    Some(v) => Some(image(g, v, j, this)),
                    None => None,
                }
        }),
{
    let t = holding(this, before, w);
    let args = seq![g.f, g.this];
    let (wf, r) = mapped(w, this, args);
    let complaint = "Array.prototype.map callback is not callable";
    let (w1, s) = callback_setup(w, this, g.f, complaint);
    let len = s->Ok_0.1 as int;
    let (w2, out) = species_created(w1, this, len);
    let out = out->Ok_0;
    lemma_species_extends(w1, this, len);
    lemma_mapped_extends(w2, this, g.f, g.this, 0, len, out);
    t.lemma_earlier(w2, wf);
    t.lemma_earlier(w1, wf);
    lemma_setup(t, w, g.f, complaint);
    let u = holding(out, Seq::empty(), w1);
    assert(out == r->Ok_0) by {
        lemma_mapped_result(w2, this, g.f, g.this, 0, len, out);
    }
    lemma_species(t, w1, this, len);
    lemma_species(u, w1, this, len);
    lemma_mapped(t, u, g, w2, 0, len);
    lemma_from_later(out, w, w1, wf);
    assert forall|j: int| #[trigger] element(holding(out, Seq::empty(), w).holds(wf), j)
        == match element(before, j) {
        Some(v) => Some(image(g, v, j, this)),
        None => None,
    } by {
        assert(element(u.holds(w2), j) is None);
        assert(element(u.holds(wf), j) == element(holding(out, Seq::empty(), w).holds(wf), j));
    }
}

#[verifier::spinoff_prover]
#[verifier::rlimit(60)]
proof fn lemma_mapped_result(w: World, o: Value, cb: Value, this: Value, k: int, len: int, r: Value)
    ensures
        mapped_from(w, o, cb, this, k, len, r).1 matches Ok(x) ==> x == r,
    decreases len - k,
{
    if k < len {
        let (w1, v) = present(w, o, k as u64);
        if let Ok(v) = v {
            if let Some(v) = v {
                let (w2, x) = called_on(w1, cb, this, v, k, o);
                if let Ok(x) = x {
                    let (w3, c) = created_at(w2, r, k, x);
                    if c is Ok {
                        lemma_mapped_result(w3, o, cb, this, k + 1, len, r);
                    }
                }
            } else {
                lemma_mapped_result(w1, o, cb, this, k + 1, len, r);
            }
        }
    }
}

// filter

/// The elements from `k` on that pass, without the holes.
pub open spec fn passing(w: World, g: Steady, e: Elements, k: int, o: Value) -> Seq<Value>
    decreases e.len() - k,
{
    if k < 0 || k >= e.len() {
        Seq::empty()
    } else {
        match e[k] {
            Some(v) => if passes(w, g, v, k, o) {
                seq![v] + passing(w, g, e, k + 1, o)
            } else {
                passing(w, g, e, k + 1, o)
            },
            None => passing(w, g, e, k + 1, o),
        }
    }
}

proof fn lemma_passing_same(w: World, w1: World, g: Steady, e: Elements, k: int, o: Value)
    requires
        w.strings == w1.strings,
    ensures
        passing(w, g, e, k, o) == passing(w1, g, e, k, o),
    decreases e.len() - k,
{
    if 0 <= k < e.len() {
        lemma_passing_same(w, w1, g, e, k + 1, o);
    }
}

#[verifier::spinoff_prover]
#[verifier::rlimit(60)]
proof fn lemma_kept_extends(
    w: World,
    o: Value,
    cb: Value,
    this: Value,
    k: int,
    len: int,
    r: Value,
    to: int,
)
    ensures
        extends(w, kept_from(w, o, cb, this, k, len, r, to).0),
        kept_from(w, o, cb, this, k, len, r, to).1 matches Ok(x) ==> x == r,
    decreases len - k,
{
    if k < len {
        let (w1, v) = present(w, o, k as u64);
        if let Ok(v) = v {
            if let Some(v) = v {
                let (w2, x) = called_on(w1, cb, this, v, k, o);
                if let Ok(x) = x {
                    if w2.truthy(x) {
                        let (w3, c) = created_at(w2, r, to, v);
                        if c is Ok {
                            lemma_kept_extends(w3, o, cb, this, k + 1, len, r, to + 1);
                        }
                    } else {
                        lemma_kept_extends(w2, o, cb, this, k + 1, len, r, to);
                    }
                }
            } else {
                lemma_kept_extends(w1, o, cb, this, k + 1, len, r, to);
            }
        }
    }
}

/// Elements behind the first `to` come to be these.
pub open spec fn appended(before: Elements, after: Elements, to: int, s: Seq<Value>) -> bool {
    forall|j: int| #[trigger]
        element(after, j) == if to <= j < to + s.len() {
            Some(s[j - to])
        } else {
            element(before, j)
        }
}

#[verifier::spinoff_prover]
#[verifier::rlimit(60)]
proof fn lemma_kept(t: Watched, u: Watched, g: Steady, w: World, k: int, len: int, to: int)
    requires
        t.from <= w.asked.len(),
        u.from <= w.asked.len(),
        t.array != u.array,
        0 <= k <= len <= num::MAX_SAFE,
        t.holds(w).len() == len,
        0 <= to <= k,
        kept_from(w, t.array, g.f, g.this, k, len, u.array, to).1 is Ok,
        t.faithful(kept_from(w, t.array, g.f, g.this, k, len, u.array, to).0),
        g.faithful(kept_from(w, t.array, g.f, g.this, k, len, u.array, to).0),
    ensures
        appended(
            u.holds(w),
            u.holds(kept_from(w, t.array, g.f, g.this, k, len, u.array, to).0),
            to,
            passing(w, g, t.holds(w), k, t.array),
        ),
    decreases len - k,
{
    if k < len {
        let wf = kept_from(w, t.array, g.f, g.this, k, len, u.array, to).0;
        let (w1, v) = present(w, t.array, k as u64);
        let e = t.holds(w);
        match v->Ok_0 {
            None => {
                lemma_kept_extends(w1, t.array, g.f, g.this, k + 1, len, u.array, to);
                t.lemma_earlier(w1, wf);
                lemma_present(t, w, k as u64);
                u.lemma_quiet(w, w1);
                lemma_kept(t, u, g, w1, k + 1, len, to);
                lemma_passing_same(w, w1, g, e, k + 1, t.array);
            },
            Some(v) => {
                let (w2, x) = called_on(w1, g.f, g.this, v, k, t.array);
                if w2.truthy(x->Ok_0) {
                    let op = Op::CreateData(u.array, Key::Index(to as u64), v);
                    let w3 = created_at(w2, u.array, to, v).0;
                    lemma_kept_extends(w3, t.array, g.f, g.this, k + 1, len, u.array, to + 1);
                    t.lemma_earlier(w3, wf);
                    g.lemma_earlier(w3, wf);
                    lemma_value(t, w2, op);
                    lemma_value(u, w2, op);
                    g.lemma_earlier(w2, w3);
                    lemma_called(t, g, w1, v, k);
                    lemma_present(t, w, k as u64);
                    u.lemma_quiet(w, w1);
                    u.lemma_quiet(w1, w2);
                    lemma_kept(t, u, g, w3, k + 1, len, to + 1);
                    lemma_passing_same(w, w3, g, e, k + 1, t.array);
                    lemma_appended_one(
                        u.holds(w),
                        u.holds(wf),
                        to,
                        v,
                        passing(w, g, e, k + 1, t.array),
                    );
                } else {
                    lemma_kept_extends(w2, t.array, g.f, g.this, k + 1, len, u.array, to);
                    t.lemma_earlier(w2, wf);
                    g.lemma_earlier(w2, wf);
                    lemma_called(t, g, w1, v, k);
                    lemma_present(t, w, k as u64);
                    u.lemma_quiet(w, w1);
                    u.lemma_quiet(w1, w2);
                    lemma_kept(t, u, g, w2, k + 1, len, to);
                    lemma_passing_same(w, w2, g, e, k + 1, t.array);
                }
            },
        }
    }
}

#[verifier::spinoff_prover]
#[verifier::rlimit(60)]
pub proof fn lemma_appended_one(e: Elements, f: Elements, to: int, v: Value, s: Seq<Value>)
    requires
        0 <= to,
        appended(stored(e, to, v), f, to + 1, s),
    ensures
        appended(e, f, to, seq![v] + s),
{
    let all = seq![v] + s;
    assert forall|j: int| #[trigger] element(f, j) == if to <= j < to + all.len() {
        Some(all[j - to])
    } else {
        element(e, j)
    } by {
        assert(element(f, j) == if to + 1 <= j < to + 1 + s.len() {
            Some(s[j - (to + 1)])
        } else {
            element(stored(e, to, v), j)
        });
    }
}

/// `filter` gives an array of the elements that pass the test, in order, and of nothing else.
#[verifier::spinoff_prover]
#[verifier::rlimit(60)]
pub proof fn law_filter_holds_what_passes(w: World, this: Value, g: Steady, before: Elements)
    requires
        this.object(),
        before.len() <= num::MAX_SAFE,
        filtered(w, this, seq![g.f, g.this]).1 is Ok,
        filtered(w, this, seq![g.f, g.this]).1->Ok_0 != this,
        !filtered(w, this, seq![g.f, g.this]).0.halted(),
        holding(this, before, w).faithful(filtered(w, this, seq![g.f, g.this]).0),
        g.faithful(filtered(w, this, seq![g.f, g.this]).0),
    ensures
        ({
            let (w1, r) = filtered(w, this, seq![g.f, g.this]);
            let kept = passing(w, g, before, 0, this);
            forall|j: int| #[trigger]
                element(holding(r->Ok_0, Seq::empty(), w).holds(w1), j) == if 0 <= j < kept.len() {
                    Some(kept[j])
                } else {
                    None
                }
        }),
{
    let t = holding(this, before, w);
    let args = seq![g.f, g.this];
    let (wf, r) = filtered(w, this, args);
    let complaint = "Array.prototype.filter callback is not callable";
    let (w1, s) = callback_setup(w, this, g.f, complaint);
    let len = s->Ok_0.1 as int;
    let (w2, out) = species_created(w1, this, 0);
    let out = out->Ok_0;
    lemma_species_extends(w1, this, 0);
    lemma_kept_extends(w2, this, g.f, g.this, 0, len, out, 0);
    t.lemma_earlier(w2, wf);
    t.lemma_earlier(w1, wf);
    lemma_setup(t, w, g.f, complaint);
    let u = holding(out, Seq::empty(), w1);
    lemma_species(t, w1, this, 0);
    lemma_species(u, w1, this, 0);
    lemma_kept(t, u, g, w2, 0, len, 0);
    lemma_passing_same_species(w, w1, w2, this, g, before);
    lemma_from_later(out, w, w1, wf);
    let kept = passing(w, g, before, 0, this);
    assert forall|j: int| #[trigger] element(holding(out, Seq::empty(), w).holds(wf), j) == if 0 <= j
        < kept.len() {
        Some(kept[j])
    } else {
        None
    } by {
        assert(element(u.holds(w2), j) is None);
        assert(element(u.holds(wf), j) == element(holding(out, Seq::empty(), w).holds(wf), j));
    }
}

proof fn lemma_passing_same_species(
    w: World,
    w1: World,
    w2: World,
    this: Value,
    g: Steady,
    e: Elements,
)
    requires
        w.strings == w1.strings,
        w2 == species_created(w1, this, 0).0,
    ensures
        passing(w, g, e, 0, this) == passing(w2, g, e, 0, this),
{
    crate::array_laws::lemma_species_strings(w1, this, 0);
    lemma_passing_same(w, w2, g, e, 0, this);
}

// some and every

proof fn lemma_tested_extends(w: World, o: Value, cb: Value, this: Value, k: int, len: int, every: bool)
    ensures
        extends(w, tested_from(w, o, cb, this, k, len, every).0),
    decreases len - k,
{
    if k < len {
        let (w1, v) = present(w, o, k as u64);
        if let Ok(v) = v {
            if let Some(v) = v {
                let (w2, x) = called_on(w1, cb, this, v, k, o);
                if x is Ok && w2.truthy(x->Ok_0) == every {
                    lemma_tested_extends(w2, o, cb, this, k + 1, len, every);
                }
            } else {
                lemma_tested_extends(w1, o, cb, this, k + 1, len, every);
            }
        }
    }
}

/// Whether there is an element at an index whose test comes out a certain way.
pub open spec fn comes_out(w: World, g: Steady, e: Elements, k: int, o: Value, b: bool) -> bool {
    element(e, k) is Some && passes(w, g, element(e, k)->0, k, o) == b
}

#[verifier::spinoff_prover]
#[verifier::rlimit(60)]
proof fn lemma_tested(t: Watched, g: Steady, w: World, k: int, len: int, every: bool, b: bool)
    requires
        b == !every,
        t.from <= w.asked.len(),
        0 <= k <= len <= num::MAX_SAFE,
        tested_from(w, t.array, g.f, g.this, k, len, every).1 is Ok,
        t.faithful(tested_from(w, t.array, g.f, g.this, k, len, every).0),
        g.faithful(tested_from(w, t.array, g.f, g.this, k, len, every).0),
    ensures
        tested_from(w, t.array, g.f, g.this, k, len, every).1->Ok_0 == Value::Bool(
            if exists|j: int|
                k <= j < len && #[trigger] comes_out(w, g, t.holds(w), j, t.array, b) {
                !every
            } else {
                every
            },
        ),
    decreases len - k,
{
    if k < len {
        let wf = tested_from(w, t.array, g.f, g.this, k, len, every).0;
        let (w1, v) = present(w, t.array, k as u64);
        let e = t.holds(w);
        match v->Ok_0 {
            None => {
                lemma_tested_extends(w1, t.array, g.f, g.this, k + 1, len, every);
                t.lemma_earlier(w1, wf);
                lemma_present(t, w, k as u64);
                lemma_tested(t, g, w1, k + 1, len, every, b);
                assert forall|j: int|
                    comes_out(w, g, e, j, t.array, b) == comes_out(
                        w1,
                        g,
                        e,
                        j,
                        t.array,
                        b,
                    ) by {}
                assert(!comes_out(w, g, e, k, t.array, b));
            },
            Some(v) => {
                let (w2, x) = called_on(w1, g.f, g.this, v, k, t.array);
                if w2.truthy(x->Ok_0) == every {
                    lemma_tested_extends(w2, t.array, g.f, g.this, k + 1, len, every);
                    t.lemma_earlier(w2, wf);
                    g.lemma_earlier(w2, wf);
                }
                lemma_called(t, g, w1, v, k);
                lemma_present(t, w, k as u64);
                assert forall|j: int|
                    comes_out(w, g, e, j, t.array, b) == comes_out(
                        w2,
                        g,
                        e,
                        j,
                        t.array,
                        b,
                    ) by {}
                if w2.truthy(x->Ok_0) == every {
                    lemma_tested(t, g, w2, k + 1, len, every, b);
                    assert(!comes_out(w, g, e, k, t.array, b));
                } else {
                    assert(comes_out(w, g, e, k, t.array, b));
                }
            },
        }
    }
}

/// `some` says whether an element passes the test, `every` whether each of them does; holes are not
/// tested.
#[verifier::spinoff_prover]
#[verifier::rlimit(60)]
pub proof fn law_some_and_every_of_an_array(
    w: World,
    this: Value,
    g: Steady,
    before: Elements,
    every: bool,
)
    requires
        this.object(),
        before.len() <= num::MAX_SAFE,
        tested(w, this, seq![g.f, g.this], every).1 is Ok,
        holding(this, before, w).faithful(tested(w, this, seq![g.f, g.this], every).0),
        g.faithful(tested(w, this, seq![g.f, g.this], every).0),
    ensures
        !every ==> tested(w, this, seq![g.f, g.this], every).1->Ok_0 == Value::Bool(
            exists|j: int|
                0 <= j < before.len() && #[trigger] comes_out(w, g, before, j, this, true),
        ),
        every ==> tested(w, this, seq![g.f, g.this], every).1->Ok_0 == Value::Bool(
            forall|j: int|
                0 <= j < before.len() ==> !#[trigger] comes_out(w, g, before, j, this, false),
        ),
{
    let t = holding(this, before, w);
    let (wf, r) = tested(w, this, seq![g.f, g.this], every);
    let complaint = "predicate is not callable";
    let (w1, s) = callback_setup(w, this, g.f, complaint);
    let len = s->Ok_0.1 as int;
    lemma_tested_extends(w1, this, g.f, g.this, 0, len, every);
    t.lemma_earlier(w1, wf);
    lemma_setup(t, w, g.f, complaint);
    lemma_tested(t, g, w1, 0, len, every, !every);
    let b = !every;
    assert forall|j: int|
        comes_out(w, g, before, j, this, b) == comes_out(w1, g, before, j, this, b) by {}
}

// find

#[verifier::spinoff_prover]
#[verifier::rlimit(60)]
proof fn lemma_found_extends(
    w: World,
    o: Value,
    cb: Value,
    this: Value,
    step: int,
    len: int,
    value: bool,
    last: bool,
)
    ensures
        extends(w, found_from(w, o, cb, this, step, len, value, last).0),
    decreases len - step,
{
    if step < len {
        let k = if last {
            len - 1 - step
        } else {
            step
        };
        let (w1, v) = w.get(o, Key::Index(k as u64));
        if let Ok(v) = v {
            let (w2, x) = called_on(w1, cb, this, v, k, o);
            if x is Ok && !w2.truthy(x->Ok_0) {
                lemma_found_extends(w2, o, cb, this, step + 1, len, value, last);
            }
        }
    }
}

/// Whether the element at an index passes; a hole counts as undefined.
pub open spec fn fits_at(w: World, g: Steady, e: Elements, k: int, o: Value) -> bool {
    passes(w, g, or_undefined(element(e, k)), k, o)
}

/// The result of a search that stopped at an index.
pub open spec fn find_result(e: Elements, k: int, value: bool) -> Value {
    if value {
        or_undefined(element(e, k))
    } else {
        counter(k)
    }
}

/// The result of a search, with so many elements gone through from its end: of the first one that
/// passes, or of none.
pub open spec fn found_result(
    w: World,
    g: Steady,
    e: Elements,
    o: Value,
    step: int,
    value: bool,
    last: bool,
    r: Value,
) -> bool {
    ||| (r == if value {
        Value::Undefined
    } else {
        Value::Num(num::MINUS_ONE)
    }) && forall|j: int| in_reach(e, step, last, j) ==> !#[trigger] fits_at(w, g, e, j, o)
    ||| exists|m: int|
        {
            &&& in_reach(e, step, last, m)
            &&& #[trigger] fits_at(w, g, e, m, o)
            &&& r == find_result(e, m, value)
            &&& forall|j: int|
                in_reach(e, step, last, j) && (if last {
                    j > m
                } else {
                    j < m
                }) ==> !#[trigger] fits_at(w, g, e, j, o)
        }
}

/// The indices that a search still has before it.
pub open spec fn in_reach(e: Elements, step: int, last: bool, j: int) -> bool {
    if last {
        0 <= j < e.len() - step
    } else {
        step <= j < e.len()
    }
}

#[verifier::spinoff_prover]
#[verifier::rlimit(60)]
proof fn lemma_found_step(
    w: World,
    w1: World,
    g: Steady,
    e: Elements,
    o: Value,
    step: int,
    value: bool,
    last: bool,
    r: Value,
)
    requires
        w.strings == w1.strings,
        0 <= step < e.len(),
        !fits_at(
            w,
            g,
            e,
            if last {
                e.len() - 1 - step
            } else {
                step
            },
            o,
        ),
        found_result(w1, g, e, o, step + 1, value, last, r),
    ensures
        found_result(w, g, e, o, step, value, last, r),
{
    assert forall|j: int| fits_at(w, g, e, j, o) == fits_at(w1, g, e, j, o) by {}
    if exists|m: int|
        {
            &&& in_reach(e, step + 1, last, m)
            &&& #[trigger] fits_at(w1, g, e, m, o)
            &&& r == find_result(e, m, value)
            &&& forall|j: int|
                in_reach(e, step + 1, last, j) && (if last {
                    j > m
                } else {
                    j < m
                }) ==> !#[trigger] fits_at(w1, g, e, j, o)
        } {
        let m = choose|m: int|
            {
                &&& in_reach(e, step + 1, last, m)
                &&& #[trigger] fits_at(w1, g, e, m, o)
                &&& r == find_result(e, m, value)
                &&& forall|j: int|
                    in_reach(e, step + 1, last, j) && (if last {
                        j > m
                    } else {
                        j < m
                    }) ==> !#[trigger] fits_at(w1, g, e, j, o)
            };
        assert(fits_at(w, g, e, m, o));
    }
}

#[verifier::spinoff_prover]
#[verifier::rlimit(60)]
proof fn lemma_found(t: Watched, g: Steady, w: World, step: int, len: int, value: bool, last: bool)
    requires
        t.from <= w.asked.len(),
        0 <= step <= len <= num::MAX_SAFE,
        t.holds(w).len() == len,
        found_from(w, t.array, g.f, g.this, step, len, value, last).1 is Ok,
        t.faithful(found_from(w, t.array, g.f, g.this, step, len, value, last).0),
        g.faithful(found_from(w, t.array, g.f, g.this, step, len, value, last).0),
    ensures
        found_result(
            w,
            g,
            t.holds(w),
            t.array,
            step,
            value,
            last,
            found_from(w, t.array, g.f, g.this, step, len, value, last).1->Ok_0,
        ),
    decreases len - step,
{
    if step < len {
        let (wf, r) = found_from(w, t.array, g.f, g.this, step, len, value, last);
        let k = if last {
            len - 1 - step
        } else {
            step
        };
        let (w1, v) = w.get(t.array, Key::Index(k as u64));
        let (w2, x) = called_on(w1, g.f, g.this, v->Ok_0, k, t.array);
        if !w2.truthy(x->Ok_0) {
            lemma_found_extends(w2, t.array, g.f, g.this, step + 1, len, value, last);
            t.lemma_earlier(w2, wf);
            g.lemma_earlier(w2, wf);
        }
        lemma_called(t, g, w1, v->Ok_0, k);
        lemma_value(t, w, Op::Get(t.array, Key::Index(k as u64)));
        let e = t.holds(w);
        if !w2.truthy(x->Ok_0) {
            lemma_found(t, g, w2, step + 1, len, value, last);
            assert(!fits_at(w, g, e, k, t.array));
            lemma_found_step(w, w2, g, e, t.array, step, value, last, r->Ok_0);
        } else {
            assert(fits_at(w, g, e, k, t.array));
            assert(in_reach(e, step, last, k));
        }
    }
}

/// `find` and `findIndex` give the first element that passes, or its index; `findLast` and
/// `findLastIndex` the last. Without one they give undefined, or minus one.
#[verifier::spinoff_prover]
#[verifier::rlimit(60)]
pub proof fn law_find_gives_what_passes(
    w: World,
    this: Value,
    g: Steady,
    before: Elements,
    value: bool,
    last: bool,
)
    requires
        this.object(),
        before.len() <= num::MAX_SAFE,
        found(w, this, seq![g.f, g.this], value, last).1 is Ok,
        holding(this, before, w).faithful(found(w, this, seq![g.f, g.this], value, last).0),
        g.faithful(found(w, this, seq![g.f, g.this], value, last).0),
    ensures
        found_result(
            w,
            g,
            before,
            this,
            0,
            value,
            last,
            found(w, this, seq![g.f, g.this], value, last).1->Ok_0,
        ),
{
    let t = holding(this, before, w);
    let (wf, r) = found(w, this, seq![g.f, g.this], value, last);
    let complaint = "predicate is not callable";
    let (w1, s) = callback_setup(w, this, g.f, complaint);
    let len = s->Ok_0.1 as int;
    lemma_found_extends(w1, this, g.f, g.this, 0, len, value, last);
    t.lemma_earlier(w1, wf);
    lemma_setup(t, w, g.f, complaint);
    lemma_found(t, g, w1, 0, len, value, last);
    let x = r->Ok_0;
    assert forall|j: int| fits_at(w, g, before, j, this) == fits_at(w1, g, before, j, this) by {}
    if exists|m: int|
        {
            &&& in_reach(before, 0, last, m)
            &&& #[trigger] fits_at(w1, g, before, m, this)
            &&& x == find_result(before, m, value)
            &&& forall|j: int|
                in_reach(before, 0, last, j) && (if last {
                    j > m
                } else {
                    j < m
                }) ==> !#[trigger] fits_at(w1, g, before, j, this)
        } {
        let m = choose|m: int|
            {
                &&& in_reach(before, 0, last, m)
                &&& #[trigger] fits_at(w1, g, before, m, this)
                &&& x == find_result(before, m, value)
                &&& forall|j: int|
                    in_reach(before, 0, last, j) && (if last {
                        j > m
                    } else {
                        j < m
                    }) ==> !#[trigger] fits_at(w1, g, before, j, this)
            };
        assert(fits_at(w, g, before, m, this));
    }
}

// reduce

/// The elements behind the first `step`, from either end, folded into an accumulator; the first
/// element is the accumulator where there is none.
pub open spec fn folded(
    e: Elements,
    o: Value,
    step: int,
    g: Steady,
    acc: Option<Value>,
    right: bool,
) -> Option<Value>
    decreases e.len() - step,
{
    if step < 0 || step >= e.len() {
        acc
    } else {
        let k = if right {
            e.len() - 1 - step
        } else {
            step
        };
        let next = match (e[k], acc) {
            (None, _) => acc,
            (Some(v), None) => Some(v),
            (Some(v), Some(a)) => Some((g.gives)(seq![a, v, counter(k), o])),
        };
        folded(e, o, step + 1, g, next, right)
    }
}

#[verifier::spinoff_prover]
#[verifier::rlimit(60)]
proof fn lemma_reduced_extends(
    w: World,
    o: Value,
    cb: Value,
    step: int,
    len: int,
    acc: Option<Value>,
    right: bool,
)
    ensures
        extends(w, reduced_from(w, o, cb, step, len, acc, right).0),
    decreases len - step,
{
    if step < len {
        let k = reduce_index(step, len, right);
        let (w1, v) = present(w, o, k as u64);
        if let Ok(v) = v {
            if let Some(v) = v {
                if let Some(a) = acc {
                    let (w2, r) = w1.call(
                        cb,
                        Value::Undefined,
                        seq![a, v, Value::Num(num::number(k)), o],
                    );
                    if let Ok(r) = r {
                        lemma_reduced_extends(w2, o, cb, step + 1, len, Some(r), right);
                    }
                } else {
                    lemma_reduced_extends(w1, o, cb, step + 1, len, Some(v), right);
                }
            } else {
                lemma_reduced_extends(w1, o, cb, step + 1, len, acc, right);
            }
        }
    }
}

#[verifier::spinoff_prover]
#[verifier::rlimit(60)]
proof fn lemma_reduced(
    t: Watched,
    g: Steady,
    w: World,
    step: int,
    len: int,
    acc: Option<Value>,
    right: bool,
)
    requires
        t.from <= w.asked.len(),
        g.this == Value::Undefined,
        0 <= step <= len <= num::MAX_SAFE,
        t.holds(w).len() == len,
        reduced_from(w, t.array, g.f, step, len, acc, right).1 is Ok,
        t.faithful(reduced_from(w, t.array, g.f, step, len, acc, right).0),
        g.faithful(reduced_from(w, t.array, g.f, step, len, acc, right).0),
    ensures
        folded(t.holds(w), t.array, step, g, acc, right) == Some(
            reduced_from(w, t.array, g.f, step, len, acc, right).1->Ok_0,
        ),
    decreases len - step,
{
    if step < len {
        let wf = reduced_from(w, t.array, g.f, step, len, acc, right).0;
        let k = reduce_index(step, len, right);
        let (w1, v) = present(w, t.array, k as u64);
        match (v->Ok_0, acc) {
            (None, _) => {
                lemma_reduced_extends(w1, t.array, g.f, step + 1, len, acc, right);
                t.lemma_earlier(w1, wf);
                lemma_present(t, w, k as u64);
                lemma_reduced(t, g, w1, step + 1, len, acc, right);
            },
            (Some(v), None) => {
                lemma_reduced_extends(w1, t.array, g.f, step + 1, len, Some(v), right);
                t.lemma_earlier(w1, wf);
                lemma_present(t, w, k as u64);
                lemma_reduced(t, g, w1, step + 1, len, Some(v), right);
            },
            (Some(v), Some(a)) => {
                let list = seq![a, v, counter(k), t.array];
                let (w2, r) = w1.call(g.f, Value::Undefined, list);
                lemma_reduced_extends(w2, t.array, g.f, step + 1, len, Some(r->Ok_0), right);
                t.lemma_earlier(w2, wf);
                g.lemma_earlier(w2, wf);
                t.lemma_step(w1, Op::Call(g.f, Value::Undefined), list);
                g.lemma_call(w1, list);
                lemma_present(t, w, k as u64);
                lemma_reduced(t, g, w2, step + 1, len, Some(r->Ok_0), right);
            },
        }
    }
}

/// `reduce` folds the elements from the left and `reduceRight` from the right, holes left out,
/// beginning with the initial value, or with the first element where there is none. Without either
/// they throw.
#[verifier::spinoff_prover]
#[verifier::rlimit(60)]
pub proof fn law_reduce_folds_an_array(
    w: World,
    this: Value,
    g: Steady,
    init: Option<Value>,
    before: Elements,
    right: bool,
)
    requires
        this.object(),
        before.len() <= num::MAX_SAFE,
        g.this == Value::Undefined,
        ({
            let args = match init {
                Some(v) => seq![g.f, v],
                None => seq![g.f],
            };
            &&& reduced(w, this, args, right).1 is Ok
            &&& holding(this, before, w).faithful(reduced(w, this, args, right).0)
            &&& g.faithful(reduced(w, this, args, right).0)
        }),
    ensures
        folded(before, this, 0, g, init, right) == Some(
            reduced(
                w,
                this,
                match init {
                    Some(v) => seq![g.f, v],
                    None => seq![g.f],
                },
                right,
            ).1->Ok_0,
        ),
{
    let t = holding(this, before, w);
    let args = match init {
        Some(v) => seq![g.f, v],
        None => seq![g.f],
    };
    let (wf, r) = reduced(w, this, args, right);
    let complaint = if right {
        "Array.prototype.reduceRight callback is not callable"
    } else {
        "Array.prototype.reduce callback is not callable"
    };
    let (w1, s) = callback_setup(w, this, g.f, complaint);
    let len = s->Ok_0.1 as int;
    lemma_reduced_extends(w1, this, g.f, 0, len, init, right);
    t.lemma_earlier(w1, wf);
    lemma_setup(t, w, g.f, complaint);
    lemma_reduced(t, g, w1, 0, len, init, right);
}

// Copies

#[verifier::spinoff_prover]
#[verifier::rlimit(60)]
proof fn lemma_read_from(t: Watched, w: World, k: int, end: int, acc: Seq<Value>)
    requires
        t.from <= w.asked.len(),
        0 <= k <= end <= num::MAX_SAFE,
        read_from(w, t.array, k, end, acc).1 is Ok,
        t.faithful(read_from(w, t.array, k, end, acc).0),
    ensures
        extends(w, read_from(w, t.array, k, end, acc).0),
        t.faithful(w),
        t.holds(read_from(w, t.array, k, end, acc).0) == t.holds(w),
        read_from(w, t.array, k, end, acc).1->Ok_0 == acc + Seq::new(
            (end - k) as nat,
            |j: int| or_undefined(element(t.holds(w), k + j)),
        ),
    decreases end - k,
{
    let f = Seq::new((end - k) as nat, |j: int| or_undefined(element(t.holds(w), k + j)));
    if k < end {
        let (w1, v) = w.get(t.array, Key::Index(k as u64));
        t.lemma_step(w, Op::Get(t.array, Key::Index(k as u64)), Seq::empty());
        lemma_read_from(t, w1, k + 1, end, acc.push(v->Ok_0));
        lemma_value(t, w, Op::Get(t.array, Key::Index(k as u64)));
        let g = Seq::new((end - k - 1) as nat, |j: int| or_undefined(element(t.holds(w), k + 1 + j)));
        assert(acc.push(v->Ok_0) + g =~= acc + f);
    } else {
        assert(acc + f =~= acc);
    }
}

proof fn lemma_read_from_extends(w: World, o: Value, k: int, end: int, acc: Seq<Value>)
    ensures
        extends(w, read_from(w, o, k, end, acc).0),
    decreases end - k,
{
    if k < end {
        let (w1, v) = w.get(o, Key::Index(k as u64));
        if v is Ok {
            lemma_read_from_extends(w1, o, k + 1, end, acc.push(v->Ok_0));
        }
    }
}

#[verifier::spinoff_prover]
#[verifier::rlimit(60)]
proof fn lemma_read_down(t: Watched, w: World, k: int, acc: Seq<Value>)
    requires
        t.from <= w.asked.len(),
        0 <= k <= num::MAX_SAFE,
        read_down(w, t.array, k, acc).1 is Ok,
        t.faithful(read_down(w, t.array, k, acc).0),
    ensures
        extends(w, read_down(w, t.array, k, acc).0),
        t.faithful(w),
        read_down(w, t.array, k, acc).1->Ok_0 == acc + Seq::new(
            k as nat,
            |j: int| or_undefined(element(t.holds(w), k - 1 - j)),
        ),
    decreases k,
{
    let f = Seq::new(k as nat, |j: int| or_undefined(element(t.holds(w), k - 1 - j)));
    if k > 0 {
        let op = Op::Get(t.array, Key::Index((k - 1) as u64));
        let (w1, v) = w.get(t.array, Key::Index((k - 1) as u64));
        t.lemma_step(w, op, Seq::empty());
        lemma_read_down(t, w1, k - 1, acc.push(v->Ok_0));
        lemma_value(t, w, op);
        let g = Seq::new((k - 1) as nat, |j: int| or_undefined(element(t.holds(w), k - 2 - j)));
        assert(acc.push(v->Ok_0) + g =~= acc + f);
    } else {
        assert(acc + f =~= acc);
    }
}

/// The elements as values; holes count as undefined.
pub open spec fn as_values(e: Elements) -> Seq<Value> {
    Seq::new(e.len(), |k: int| or_undefined(e[k]))
}

/// `toReversed` gives a fresh array of the elements in the opposite order.
#[verifier::spinoff_prover]
#[verifier::rlimit(60)]
pub proof fn law_to_reversed_turns_round(w: World, this: Value, limit: u64, before: Elements)
    requires
        this.object(),
        before.len() <= num::MAX_SAFE,
        reversed_copy(w, this, limit).1 is Ok,
        !reversed_copy(w, this, limit).0.halted(),
        holding(this, before, w).faithful(reversed_copy(w, this, limit).0),
    ensures
        told(w, reversed_copy(w, this, limit).0, Op::NewArray, as_values(before).reverse()),
{
    let t = holding(this, before, w);
    let wf = reversed_copy(w, this, limit).0;
    let (w1, len) = length_of(w, this);
    let n = len->Ok_0 as int;
    let (w2, l) = read_down(w1, this, n, Seq::empty());
    lemma_read_down_extends(w1, this, n, Seq::empty());
    t.lemma_earlier(w2, wf);
    t.lemma_earlier(w1, wf);
    lemma_length(t, w);
    lemma_read_down(t, w1, n, Seq::empty());
    assert(l->Ok_0 =~= as_values(before).reverse());
    lemma_learned(w2, Op::NewArray, l->Ok_0);
    lemma_stays_told(w, w2, wf, wf, Op::NewArray, l->Ok_0);
}

proof fn lemma_read_down_extends(w: World, o: Value, k: int, acc: Seq<Value>)
    ensures
        extends(w, read_down(w, o, k, acc).0),
    decreases k,
{
    if k > 0 {
        let (w1, v) = w.get(o, Key::Index((k - 1) as u64));
        if v is Ok {
            lemma_read_down_extends(w1, o, k - 1, acc.push(v->Ok_0));
        }
    }
}

/// `with` gives a fresh array that differs from the receiver at one index alone.
#[verifier::spinoff_prover]
#[verifier::rlimit(60)]
pub proof fn law_with_replaces_one(
    w: World,
    this: Value,
    n: u64,
    v: Value,
    limit: u64,
    before: Elements,
    k: int,
)
    requires
        this.object(),
        before.len() <= num::MAX_SAFE,
        num::finite(n),
        k == if num::integer_part(n) < 0 {
            before.len() + num::integer_part(n)
        } else {
            num::integer_part(n)
        },
        replaced_copy(w, this, seq![Value::Num(n), v], limit).1 is Ok,
        !replaced_copy(w, this, seq![Value::Num(n), v], limit).0.halted(),
        holding(this, before, w).faithful(replaced_copy(w, this, seq![Value::Num(n), v], limit).0),
    ensures
        0 <= k < before.len(),
        told(
            w,
            replaced_copy(w, this, seq![Value::Num(n), v], limit).0,
            Op::NewArray,
            as_values(before).update(k, v),
        ),
{
    let t = holding(this, before, w);
    let (wf, r) = replaced_copy(w, this, seq![Value::Num(n), v], limit);
    let (w1, len) = length_of(w, this);
    let m = len->Ok_0 as int;
    let p = crate::array::counted_position(n, m);
    let (w2, front) = read_from(w1, this, 0, p, Seq::empty());
    let (w3, l) = read_from(w2, this, p + 1, m, front->Ok_0.push(v));
    lemma_read_from_extends(w1, this, 0, p, Seq::empty());
    lemma_read_from_extends(w2, this, p + 1, m, front->Ok_0.push(v));
    if 0 <= p < m {
        t.lemma_earlier(w1, wf);
        lemma_length(t, w);
        t.lemma_earlier(w3, wf);
        t.lemma_earlier(w2, wf);
        lemma_read_from(t, w1, 0, p, Seq::empty());
        lemma_read_from(t, w2, p + 1, m, front->Ok_0.push(v));
        assert(p == k);
        assert(l->Ok_0 =~= as_values(before).update(k, v));
        lemma_learned(w3, Op::NewArray, l->Ok_0);
        lemma_stays_told(w, w3, wf, wf, Op::NewArray, l->Ok_0);
    }
}

/// `toSpliced` gives a fresh array with the span replaced by the new elements.
#[verifier::spinoff_prover]
#[verifier::rlimit(60)]
pub proof fn law_to_spliced_replaces_a_span(
    w: World,
    this: Value,
    args: Seq<Value>,
    limit: u64,
    before: Elements,
    start: int,
    del: int,
)
    requires
        this.object(),
        before.len() <= num::MAX_SAFE,
        args.len() >= 2,
        args[0] is Num,
        args[1] is Num,
        names_index(args[0]->Num_0, before.len() as int, start),
        names_count(args[1]->Num_0, before.len() - start, del),
        spliced_copy(w, this, args, limit).1 is Ok,
        !spliced_copy(w, this, args, limit).0.halted(),
        holding(this, before, w).faithful(spliced_copy(w, this, args, limit).0),
    ensures
        told(
            w,
            spliced_copy(w, this, args, limit).0,
            Op::NewArray,
            as_values(before).take(start) + args.skip(2) + as_values(before).skip(start + del),
        ),
{
    let t = holding(this, before, w);
    let (wf, r) = spliced_copy(w, this, args, limit);
    let (w1, len) = length_of(w, this);
    let m = len->Ok_0 as int;
    let s = crate::array::relative(w1, args[0], len->Ok_0).1->Ok_0 as int;
    let d = crate::array::delete_count(w1, args, m - s).1->Ok_0 as int;
    let items = crate::array::inserts(args);
    let (w2, front) = read_from(w1, this, 0, s, Seq::empty());
    let (w3, l) = read_from(w2, this, s + d, m, front->Ok_0 + items);
    lemma_read_from_extends(w1, this, 0, s, Seq::empty());
    lemma_read_from_extends(w2, this, s + d, m, front->Ok_0 + items);
    t.lemma_earlier(w1, wf);
    lemma_length(t, w);
    num::lemma_magnitude_nonneg(args[0]->Num_0);
    num::lemma_magnitude_nonneg(args[1]->Num_0);
    assert(s == start && d == del);
    t.lemma_earlier(w3, wf);
    t.lemma_earlier(w2, wf);
    lemma_read_from(t, w1, 0, s, Seq::empty());
    lemma_read_from(t, w2, s + d, m, front->Ok_0 + items);
    assert(items =~= args.skip(2));
    assert(l->Ok_0 =~= as_values(before).take(start) + args.skip(2) + as_values(before).skip(
        start + del,
    ));
    lemma_learned(w3, Op::NewArray, l->Ok_0);
    lemma_stays_told(w, w3, wf, wf, Op::NewArray, l->Ok_0);
}

// forEach

proof fn lemma_each_extends(w: World, o: Value, cb: Value, this: Value, k: int, len: int)
    ensures
        extends(w, each_from(w, o, cb, this, k, len).0),
    decreases len - k,
{
    if k < len {
        let (w1, v) = present(w, o, k as u64);
        if let Ok(v) = v {
            if let Some(v) = v {
                let (w2, x) = called_on(w1, cb, this, v, k, o);
                if x is Ok {
                    lemma_each_extends(w2, o, cb, this, k + 1, len);
                }
            } else {
                lemma_each_extends(w1, o, cb, this, k + 1, len);
            }
        }
    }
}

#[verifier::spinoff_prover]
#[verifier::rlimit(60)]
proof fn lemma_each(a: World, t: Watched, w: World, cb: Value, this: Value, k: int, len: int)
    requires
        extends(a, w),
        t.from <= w.asked.len(),
        0 <= k <= len <= num::MAX_SAFE,
        each_from(w, t.array, cb, this, k, len).1 is Ok,
        t.faithful(each_from(w, t.array, cb, this, k, len).0),
    ensures
        each_from(w, t.array, cb, this, k, len).1->Ok_0 == Value::Undefined,
        forall|j: int|
            k <= j < len && (#[trigger] element(t.holds(w), j)) is Some ==> told(
                a,
                each_from(w, t.array, cb, this, k, len).0,
                Op::Call(cb, this),
                seq![element(t.holds(w), j)->0, counter(j), t.array],
            ),
    decreases len - k,
{
    if k < len {
        let wf = each_from(w, t.array, cb, this, k, len).0;
        let (w1, v) = present(w, t.array, k as u64);
        match v->Ok_0 {
            None => {
                lemma_each_extends(w1, t.array, cb, this, k + 1, len);
                t.lemma_earlier(w1, wf);
                lemma_present(t, w, k as u64);
                lemma_each(a, t, w1, cb, this, k + 1, len);
            },
            Some(v) => {
                let list = seq![v, counter(k), t.array];
                let op = Op::Call(cb, this);
                let w2 = called_on(w1, cb, this, v, k, t.array).0;
                lemma_each_extends(w2, t.array, cb, this, k + 1, len);
                t.lemma_earlier(w2, wf);
                t.lemma_step(w1, op, list);
                lemma_present(t, w, k as u64);
                lemma_learned(w1, op, list);
                lemma_stays_told(a, w1, w2, wf, op, list);
                lemma_each(a, t, w2, cb, this, k + 1, len);
            },
        }
    }
}

/// `forEach` calls the function with each element, its index and the array, and gives undefined.
#[verifier::spinoff_prover]
#[verifier::rlimit(60)]
pub proof fn law_for_each_visits_the_elements(
    w: World,
    this: Value,
    cb: Value,
    cb_this: Value,
    before: Elements,
)
    requires
        this.object(),
        before.len() <= num::MAX_SAFE,
        each(w, this, seq![cb, cb_this]).1 is Ok,
        holding(this, before, w).faithful(each(w, this, seq![cb, cb_this]).0),
    ensures
        each(w, this, seq![cb, cb_this]).1->Ok_0 == Value::Undefined,
        forall|j: int|
            0 <= j < before.len() && (#[trigger] element(before, j)) is Some ==> told(
                w,
                each(w, this, seq![cb, cb_this]).0,
                Op::Call(cb, cb_this),
                seq![element(before, j)->0, counter(j), this],
            ),
{
    let t = holding(this, before, w);
    let wf = each(w, this, seq![cb, cb_this]).0;
    let complaint = "Array.prototype.forEach callback is not callable";
    let (w1, s) = callback_setup(w, this, cb, complaint);
    let len = s->Ok_0.1 as int;
    lemma_each_extends(w1, this, cb, cb_this, 0, len);
    t.lemma_earlier(w1, wf);
    lemma_setup(t, w, cb, complaint);
    lemma_each(w, t, w1, cb, cb_this, 0, len);
}

} // verus!
