//! What the `Array` methods do to an ordinary array, and what they read from it.
use vstd::prelude::*;
use crate::array::{
    backward_span, closed_up, copied_span, copied_within, counted_position, created_at, cut_off,
    delete_count, element_at, filled, filled_from, included_from, inclusion, index_found,
    index_from, inserts, is_ctor, last_index_below, last_index_found, length_put, move_count, moved,
    moved_within, opened_up, popped, present, pushed, pushed_from, put, raised, relative, reversed,
    reversed_from, shifted, shifted_from, sliced, span_end, sparse, species_created, species_named,
    spliced, spliced_at, swapped, tail_moved, unshifted, written,
};
use crate::equality::{same_zero, strictly_same};
use crate::interp::{Answer, Key, Op, Property, Value, World};
use crate::num;
use crate::object::array_tested;
use crate::proxy::length_of;
use crate::trace::{
    effect, element, extends, filled_with, fits, hollowed, question, quietly, resized, spares,
    stored, writes_only, written_to, Elements, Watched,
};

verus! {

// Single questions

pub proof fn lemma_value(t: Watched, w: World, op: Op)
    requires
        t.from <= w.asked.len(),
        w.value(op, Seq::empty()).1 is Ok,
    ensures
        extends(w, w.value(op, Seq::empty()).0),
        t.holds(w.value(op, Seq::empty()).0) == effect(
            t.array,
            t.holds(w),
            question(op, Seq::empty()),
        ),
        t.faithful(w.value(op, Seq::empty()).0) ==> t.faithful(w) && fits(
            t.array,
            t.holds(w),
            question(op, Seq::empty()),
            Answer::Value(w.value(op, Seq::empty()).1->Ok_0),
        ),
{
    t.lemma_step(w, op, Seq::empty());
}

/// Reading an index gives what stands there.
pub proof fn lemma_present(t: Watched, w: World, k: u64)
    requires
        t.from <= w.asked.len(),
        present(w, t.array, k).1 is Ok,
        t.faithful(present(w, t.array, k).0),
    ensures
        extends(w, present(w, t.array, k).0),
        t.faithful(w),
        t.holds(present(w, t.array, k).0) == t.holds(w),
        present(w, t.array, k).1 == Ok::<Option<Value>, Value>(element(t.holds(w), k as int)),
{
    let op = Op::Has(t.array, Key::Index(k));
    let (w1, h) = w.value(op, Seq::empty());
    if h->Ok_0 == Value::Bool(true) {
        lemma_value(t, w1, Op::Get(t.array, Key::Index(k)));
    }
    lemma_value(t, w, op);
}

proof fn lemma_put(t: Watched, w: World, k: u64, v: Value)
    requires
        t.from <= w.asked.len(),
        put(w, t.array, Key::Index(k), v).1 is Ok,
        t.faithful(put(w, t.array, Key::Index(k), v).0),
    ensures
        extends(w, put(w, t.array, Key::Index(k), v).0),
        t.faithful(w),
        t.holds(put(w, t.array, Key::Index(k), v).0) == stored(t.holds(w), k as int, v),
{
    lemma_value(t, w, Op::Put(t.array, Key::Index(k), v));
}

pub proof fn lemma_length_put(t: Watched, w: World, o: Value, n: int)
    requires
        t.from <= w.asked.len(),
        0 <= n <= num::COUNT_LIMIT,
        length_put(w, o, n).1 is Ok,
    ensures
        extends(w, length_put(w, o, n).0),
        t.faithful(length_put(w, o, n).0) ==> t.faithful(w),
        t.holds(length_put(w, o, n).0) == if o == t.array {
            resized(t.holds(w), n)
        } else {
            t.holds(w)
        },
{
    num::law_numbers_hold_their_integer(n);
    lemma_value(t, w, Op::Put(o, Key::Name("length"), Value::Num(num::number(n))));
}

proof fn lemma_remove(t: Watched, w: World, k: u64)
    requires
        t.from <= w.asked.len(),
        w.value(Op::Remove(t.array, Key::Index(k)), Seq::empty()).1 is Ok,
        t.faithful(w.value(Op::Remove(t.array, Key::Index(k)), Seq::empty()).0),
    ensures
        extends(w, w.value(Op::Remove(t.array, Key::Index(k)), Seq::empty()).0),
        t.faithful(w),
        t.holds(w.value(Op::Remove(t.array, Key::Index(k)), Seq::empty()).0) == hollowed(
            t.holds(w),
            k as int,
        ),
{
    lemma_value(t, w, Op::Remove(t.array, Key::Index(k)));
}

/// A move brings what stands at one index to another.
proof fn lemma_moved(t: Watched, w: World, from: u64, to: u64)
    requires
        t.from <= w.asked.len(),
        moved(w, t.array, from, to).1 is Ok,
        t.faithful(moved(w, t.array, from, to).0),
    ensures
        extends(w, moved(w, t.array, from, to).0),
        t.faithful(w),
        forall|j: int| #[trigger]
            element(t.holds(moved(w, t.array, from, to).0), j) == if j == to {
                element(t.holds(w), from as int)
            } else {
                element(t.holds(w), j)
            },
{
    let (w1, v) = present(w, t.array, from);
    match v->Ok_0 {
        Some(v) => lemma_put(t, w1, to, v),
        None => lemma_remove(t, w1, to),
    }
    lemma_present(t, w, from);
}

/// The length of an ordinary array.
#[verifier::spinoff_prover]
#[verifier::rlimit(60)]
pub proof fn lemma_length(t: Watched, w: World)
    requires
        t.from <= w.asked.len(),
        t.holds(w).len() <= num::MAX_SAFE,
        length_of(w, t.array).1 is Ok,
        t.faithful(length_of(w, t.array).0),
    ensures
        extends(w, length_of(w, t.array).0),
        t.faithful(w),
        t.holds(length_of(w, t.array).0) == t.holds(w),
        length_of(w, t.array).1->Ok_0 == t.holds(w).len(),
{
    let op = Op::Get(t.array, Key::Name("length"));
    let (w1, v) = w.get(t.array, Key::Name("length"));
    num::law_numbers_hold_their_integer(t.holds(w).len() as int);
    let (w2, n) = w1.number(v->Ok_0);
    if !(v->Ok_0 is Num) {
        t.lemma_step(w1, Op::ToNumber(v->Ok_0), Seq::empty());
    }
    lemma_value(t, w, op);
}

// splice

proof fn lemma_closed_up(t: Watched, w: World, k: int, stop: int, deleted: int, added: int)
    requires
        t.from <= w.asked.len(),
        0 <= k,
        0 <= added < deleted,
        stop + deleted <= num::MAX_SAFE,
        closed_up(w, t.array, k, stop, deleted, added).1 is Ok,
        t.faithful(closed_up(w, t.array, k, stop, deleted, added).0),
    ensures
        extends(w, closed_up(w, t.array, k, stop, deleted, added).0),
        t.faithful(w),
        forall|j: int| #[trigger]
            element(t.holds(closed_up(w, t.array, k, stop, deleted, added).0), j) == if k + added
                <= j < stop + added {
                element(t.holds(w), j + deleted - added)
            } else {
                element(t.holds(w), j)
            },
    decreases stop - k,
{
    if k < stop {
        let (w1, r) = moved(w, t.array, (k + deleted) as u64, (k + added) as u64);
        lemma_closed_up(t, w1, k + 1, stop, deleted, added);
        lemma_moved(t, w, (k + deleted) as u64, (k + added) as u64);
    }
}

proof fn lemma_opened_up(t: Watched, w: World, k: int, start: int, deleted: int, added: int)
    requires
        t.from <= w.asked.len(),
        0 <= start <= k,
        0 <= deleted < added,
        k + added <= num::MAX_SAFE,
        opened_up(w, t.array, k, start, deleted, added).1 is Ok,
        t.faithful(opened_up(w, t.array, k, start, deleted, added).0),
    ensures
        extends(w, opened_up(w, t.array, k, start, deleted, added).0),
        t.faithful(w),
        forall|j: int| #[trigger]
            element(t.holds(opened_up(w, t.array, k, start, deleted, added).0), j) == if start
                + added <= j < k + added {
                element(t.holds(w), j + deleted - added)
            } else {
                element(t.holds(w), j)
            },
    decreases k - start,
{
    if k > start {
        let (w1, r) = moved(w, t.array, (k + deleted - 1) as u64, (k + added - 1) as u64);
        lemma_opened_up(t, w1, k - 1, start, deleted, added);
        lemma_moved(t, w, (k + deleted - 1) as u64, (k + added - 1) as u64);
    }
}

proof fn lemma_cut_off(t: Watched, w: World, k: int, floor: int)
    requires
        t.from <= w.asked.len(),
        0 <= floor,
        k <= num::MAX_SAFE,
        cut_off(w, t.array, k, floor).1 is Ok,
        t.faithful(cut_off(w, t.array, k, floor).0),
    ensures
        extends(w, cut_off(w, t.array, k, floor).0),
        t.faithful(w),
        forall|j: int| #[trigger]
            element(t.holds(cut_off(w, t.array, k, floor).0), j) == if floor <= j < k {
                None
            } else {
                element(t.holds(w), j)
            },
    decreases k - floor,
{
    if k > floor {
        let w1 = w.value(Op::Remove(t.array, Key::Index((k - 1) as u64)), Seq::empty()).0;
        lemma_cut_off(t, w1, k - 1, floor);
        lemma_remove(t, w, (k - 1) as u64);
    }
}

#[verifier::spinoff_prover]
#[verifier::rlimit(60)]
proof fn lemma_tail_moved(t: Watched, w: World, len: int, start: int, deleted: int, added: int)
    requires
        t.from <= w.asked.len(),
        0 <= start,
        0 <= deleted,
        0 <= added,
        start + deleted <= len <= num::MAX_SAFE,
        len - deleted + added <= num::MAX_SAFE,
        tail_moved(w, t.array, len, start, deleted, added).1 is Ok,
        t.faithful(tail_moved(w, t.array, len, start, deleted, added).0),
    ensures
        extends(w, tail_moved(w, t.array, len, start, deleted, added).0),
        t.faithful(w),
        forall|j: int|
            0 <= j < start ==> #[trigger] element(
                t.holds(tail_moved(w, t.array, len, start, deleted, added).0),
                j,
            ) == element(t.holds(w), j),
        forall|j: int|
            start + added <= j < len - deleted + added ==> #[trigger] element(
                t.holds(tail_moved(w, t.array, len, start, deleted, added).0),
                j,
            ) == element(t.holds(w), j + deleted - added),
{
    if added < deleted {
        let (w1, r) = closed_up(w, t.array, start, len - deleted, deleted, added);
        lemma_closed_up_extends(w, t.array, start, len - deleted, deleted, added);
        lemma_cut_off(t, w1, len, len - deleted + added);
        lemma_closed_up(t, w, start, len - deleted, deleted, added);
    } else if added > deleted {
        lemma_opened_up(t, w, len - deleted, start, deleted, added);
    }
}

proof fn lemma_closed_up_extends(w: World, o: Value, k: int, stop: int, deleted: int, added: int)
    ensures
        writes_only(w, closed_up(w, o, k, stop, deleted, added).0, o),
    decreases stop - k,
{
    if k < stop {
        let (w1, r) = moved(w, o, (k + deleted) as u64, (k + added) as u64);
        if r is Ok {
            lemma_closed_up_extends(w1, o, k + 1, stop, deleted, added);
        }
    }
}

proof fn lemma_written(t: Watched, w: World, at: int, list: Seq<Value>, j: int)
    requires
        t.from <= w.asked.len(),
        0 <= at,
        0 <= j <= list.len(),
        at + list.len() <= num::MAX_SAFE,
        written(w, t.array, at, list, j).1 is Ok,
        t.faithful(written(w, t.array, at, list, j).0),
    ensures
        extends(w, written(w, t.array, at, list, j).0),
        t.faithful(w),
        forall|k: int| #[trigger]
            element(t.holds(written(w, t.array, at, list, j).0), k) == if at + j <= k < at
                + list.len() {
                Some(list[k - at])
            } else {
                element(t.holds(w), k)
            },
    decreases list.len() - j,
{
    if j < list.len() {
        let w1 = put(w, t.array, Key::Index((at + j) as u64), list[j]).0;
        lemma_written(t, w1, at, list, j + 1);
        lemma_put(t, w, (at + j) as u64, list[j]);
    }
}

/// The elements of a span come to stand in the result; the source is only read.
#[verifier::spinoff_prover]
#[verifier::rlimit(60)]
pub proof fn lemma_copied_span(t: Watched, u: Watched, w: World, k: int, end: int, to: int)
    requires
        t.from <= w.asked.len(),
        u.from <= w.asked.len(),
        t.array != u.array,
        0 <= k,
        0 <= to,
        k <= end <= num::MAX_SAFE,
        to + (end - k) <= num::MAX_SAFE,
        copied_span(w, t.array, k, end, u.array, to).1 is Ok,
        t.faithful(copied_span(w, t.array, k, end, u.array, to).0),
    ensures
        extends(w, copied_span(w, t.array, k, end, u.array, to).0),
        t.faithful(w),
        t.holds(copied_span(w, t.array, k, end, u.array, to).0) == t.holds(w),
        forall|j: int| #[trigger]
            element(u.holds(copied_span(w, t.array, k, end, u.array, to).0), j) == if to <= j < to
                + (end - k) && element(t.holds(w), j - to + k) is Some {
                element(t.holds(w), j - to + k)
            } else {
                element(u.holds(w), j)
            },
    decreases end - k,
{
    if k < end {
        let (w1, v) = present(w, t.array, k as u64);
        match v->Ok_0 {
            None => {
                lemma_copied_span(t, u, w1, k + 1, end, to + 1);
                lemma_present(t, w, k as u64);
            },
            Some(v) => {
                let op = Op::CreateData(u.array, Key::Index(to as u64), v);
                let (w2, r) = created_at(w1, u.array, to, v);
                lemma_copied_span(t, u, w2, k + 1, end, to + 1);
                lemma_value(t, w1, op);
                lemma_value(u, w1, op);
                lemma_present(t, w, k as u64);
            },
        }
        u.lemma_quiet(w, w1);
    }
}

pub proof fn lemma_array_tested(w: World, v: Value)
    ensures
        array_tested(w, v).1 is Ok ==> quietly(w, array_tested(w, v).0),
    decreases w.left(),
{
    let (w1, pair) = w.proxy(v);
    if let Some((target, handler)) = pair {
        if handler != Value::Null {
            lemma_array_tested(w1, target);
        }
    }
}

/// A fresh result: at most its length has been written.
#[verifier::spinoff_prover]
#[verifier::rlimit(60)]
pub proof fn lemma_species(t: Watched, w: World, original: Value, len: int)
    requires
        t.from <= w.asked.len(),
        0 <= len <= num::COUNT_LIMIT,
        species_created(w, original, len).1 is Ok,
        !species_created(w, original, len).0.halted(),
    ensures
        extends(w, species_created(w, original, len).0),
        t.faithful(species_created(w, original, len).0) ==> t.faithful(w),
        species_created(w, original, len).1->Ok_0 != t.array ==> t.holds(
            species_created(w, original, len).0,
        ) == t.holds(w),
        species_created(w, original, len).1->Ok_0 == t.array && t.holds(w).len() == 0 ==> forall|j:
            int| #[trigger]
            element(t.holds(species_created(w, original, len).0), j) is None,
{
    lemma_array_tested(w, original);
    let (w1, is_array) = array_tested(w, original);
    let (w2, c) = w1.get(original, Key::Name("constructor"));
    let (w3, foreign) = if is_ctor(c->Ok_0) {
        w2.yes(Op::IsForeignArray(c->Ok_0))
    } else {
        (w2, false)
    };
    let (w4, s) = species_named(w3, c->Ok_0);
    let (w5, own) = if s->Ok_0.object() {
        w4.yes(Op::IsArrayConstructor(s->Ok_0))
    } else {
        (w4, false)
    };
    if is_array->Ok_0 == false {
        lemma_sparse(t, w1, len);
        t.lemma_quiet(w, w1);
        if t.faithful(w1) {
            t.lemma_earlier(w, w1);
        }
    } else if foreign {
        lemma_sparse(t, w3, len);
        t.lemma_quiet(w, w3);
        if t.faithful(w3) {
            t.lemma_earlier(w, w3);
        }
    } else if s->Ok_0 == Value::Undefined {
        lemma_sparse(t, w4, len);
        t.lemma_quiet(w, w4);
        if t.faithful(w4) {
            t.lemma_earlier(w, w4);
        }
    } else if own {
        lemma_sparse(t, w5, len);
        t.lemma_quiet(w, w5);
        if t.faithful(w5) {
            t.lemma_earlier(w, w5);
        }
    } else {
        let w6 = species_created(w, original, len).0;
        t.lemma_quiet(w, w6);
        if t.faithful(w6) {
            t.lemma_earlier(w, w6);
        }
    }
}

proof fn lemma_sparse(t: Watched, w: World, len: int)
    requires
        t.from <= w.asked.len(),
        0 <= len <= num::COUNT_LIMIT,
        sparse(w, len).1 is Ok,
        !sparse(w, len).0.halted(),
    ensures
        extends(w, sparse(w, len).0),
        t.faithful(sparse(w, len).0) ==> t.faithful(w),
        sparse(w, len).1->Ok_0 != t.array ==> t.holds(sparse(w, len).0) == t.holds(w),
        sparse(w, len).1->Ok_0 == t.array && t.holds(w).len() == 0 ==> forall|j: int| #[trigger]
            element(t.holds(sparse(w, len).0), j) is None,
{
    let (w1, a) = w.plain(Op::NewArray, Seq::empty());
    let p = Property::data(Value::Num(num::number(len)), true, false, false);
    t.lemma_step(w1, Op::StoreProperty(a, Key::Name("length"), p), Seq::empty());
    t.lemma_step(w, Op::NewArray, Seq::empty());
}

proof fn lemma_tail_moved_extends(w: World, o: Value, len: int, start: int, deleted: int, added: int)
    ensures
        writes_only(w, tail_moved(w, o, len, start, deleted, added).0, o),
{
    if added < deleted {
        lemma_closed_up_extends(w, o, start, len - deleted, deleted, added);
        let w1 = closed_up(w, o, start, len - deleted, deleted, added).0;
        lemma_cut_off_extends(w1, o, len, len - deleted + added);
    } else if added > deleted {
        lemma_opened_up_extends(w, o, len - deleted, start, deleted, added);
    }
}

proof fn lemma_cut_off_extends(w: World, o: Value, k: int, floor: int)
    ensures
        writes_only(w, cut_off(w, o, k, floor).0, o),
    decreases k - floor,
{
    if k > floor {
        let (w1, r) = w.value(Op::Remove(o, Key::Index((k - 1) as u64)), Seq::empty());
        if r is Ok {
            lemma_cut_off_extends(w1, o, k - 1, floor);
        }
    }
}

proof fn lemma_opened_up_extends(w: World, o: Value, k: int, start: int, deleted: int, added: int)
    ensures
        writes_only(w, opened_up(w, o, k, start, deleted, added).0, o),
    decreases k - start,
{
    if k > start {
        let (w1, r) = moved(w, o, (k + deleted - 1) as u64, (k + added - 1) as u64);
        if r is Ok {
            lemma_opened_up_extends(w1, o, k - 1, start, deleted, added);
        }
    }
}

pub proof fn lemma_copied_span_extends(w: World, o: Value, k: int, end: int, result: Value, to: int)
    ensures
        writes_only(w, copied_span(w, o, k, end, result, to).0, result),
    decreases end - k,
{
    if k < end {
        let (w1, v) = present(w, o, k as u64);
        if let Ok(v) = v {
            if let Some(v) = v {
                let (w2, r) = created_at(w1, result, to, v);
                if r is Ok {
                    lemma_copied_span_extends(w2, o, k + 1, end, result, to + 1);
                }
            } else {
                lemma_copied_span_extends(w1, o, k + 1, end, result, to + 1);
            }
        }
    }
}

pub proof fn lemma_array_tested_extends(w: World, v: Value)
    ensures
        extends(w, array_tested(w, v).0),
    decreases w.left(),
{
    let (w1, pair) = w.proxy(v);
    if let Some((target, handler)) = pair {
        if handler != Value::Null {
            lemma_array_tested_extends(w1, target);
        }
    }
}

proof fn lemma_written_extends(w: World, o: Value, at: int, list: Seq<Value>, j: int)
    ensures
        writes_only(w, written(w, o, at, list, j).0, o),
    decreases list.len() - j,
{
    if 0 <= j < list.len() {
        let (w1, r) = put(w, o, Key::Index((at + j) as u64), list[j]);
        if r is Ok {
            lemma_written_extends(w1, o, at, list, j + 1);
        }
    }
}

/// What array `a` holds from a place on.
pub open spec fn holding(a: Value, e: Elements, w: World) -> Watched {
    Watched { array: a, start: e, from: w.asked.len() }
}

/// The index that a Number names in `len` elements: counted from the end where it is negative, and
/// held between 0 and the length.
pub open spec fn names_index(n: u64, len: int, k: int) -> bool {
    &&& 0 <= k <= len
    &&& num::nan(n) ==> k == 0
    &&& num::infinite(n) ==> k == if num::negative(n) {
        0
    } else {
        len
    }
    &&& num::finite(n) && num::integer_part(n) >= 0 ==> k == num::integer_part(n) || (k == len && len
        < num::integer_part(n))
    &&& num::finite(n) && num::integer_part(n) < 0 ==> k == len + num::integer_part(n) || (k == 0
        && len + num::integer_part(n) < 0)
}

/// The count that a Number gives, of `most` at most.
pub open spec fn names_count(n: u64, most: int, k: int) -> bool {
    &&& 0 <= k <= most
    &&& num::nan(n) ==> k == 0
    &&& num::infinite(n) ==> k == if num::negative(n) {
        0
    } else {
        most
    }
    &&& num::finite(n) && num::integer_part(n) >= 0 ==> k == num::integer_part(n) || (k == most
        && most < num::integer_part(n))
    &&& num::finite(n) && num::integer_part(n) < 0 ==> k == 0
}

/// The first half of a splice: the deleted elements are copied.
#[verifier::spinoff_prover]
#[verifier::rlimit(60)]
proof fn lemma_copied_out(t: Watched, w: World, start: int, end: int)
    requires
        t.from <= w.asked.len(),
        0 <= start <= end <= t.holds(w).len() <= num::MAX_SAFE,
        ({
            let (w1, out) = species_created(w, t.array, end - start);
            let (w2, r) = copied_span(w1, t.array, start, end, out->Ok_0, 0);
            let (w3, s) = length_put(w2, out->Ok_0, end - start);
            out is Ok && r is Ok && s is Ok && out->Ok_0 != t.array && t.faithful(w3)
        }),
    ensures
        ({
            let (w1, out) = species_created(w, t.array, end - start);
            let (w2, r) = copied_span(w1, t.array, start, end, out->Ok_0, 0);
            let (w3, s) = length_put(w2, out->Ok_0, end - start);
            &&& extends(w, w3)
            &&& t.faithful(w)
            &&& t.holds(w3) == t.holds(w)
            &&& holding(out->Ok_0, Seq::empty(), w).holds(w3) == t.holds(w).subrange(start, end)
        }),
{
    let del = end - start;
    let (w1, out) = species_created(w, t.array, del);
    let out = out->Ok_0;
    let u = holding(out, Seq::empty(), w);
    lemma_species_extends(w, t.array, del);
    let w2 = copied_span(w1, t.array, start, end, out, 0).0;
    lemma_copied_span_extends(w1, t.array, start, end, out, 0);
    assert(!w1.halted());
    let w3 = length_put(w2, out, del).0;
    lemma_length_put(t, w2, out, del);
    lemma_length_put(u, w2, out, del);
    lemma_species(u, w, t.array, del);
    lemma_copied_span(t, u, w1, start, end, 0);
    lemma_species(t, w, t.array, del);
    lemma_span_copied(t.holds(w), u.holds(w1), u.holds(w2), start, end);
}

/// A span copied into holes.
proof fn lemma_span_copied(e: Elements, u1: Elements, u2: Elements, start: int, end: int)
    requires
        0 <= start <= end <= e.len(),
        forall|j: int| #[trigger] element(u1, j) is None,
        forall|j: int| #[trigger]
            element(u2, j) == if 0 <= j < end - start && element(e, j + start) is Some {
                element(e, j + start)
            } else {
                element(u1, j)
            },
    ensures
        resized(u2, end - start) == e.subrange(start, end),
{
    let r = resized(u2, end - start);
    assert forall|j: int| 0 <= j < end - start implies #[trigger] r[j] == e.subrange(start, end)[j] by {
        assert(r[j] == element(u2, j));
        assert(element(u1, j) is None);
    }
    assert(r =~= e.subrange(start, end));
}

/// The second half of a splice: the rest is moved and the new elements are written.
#[verifier::spinoff_prover]
#[verifier::rlimit(60)]
proof fn lemma_put_in(t: Watched, w: World, len: int, start: int, del: int, items: Seq<Value>)
    requires
        t.from <= w.asked.len(),
        t.holds(w).len() == len,
        0 <= start,
        0 <= del,
        start + del <= len <= num::MAX_SAFE,
        len - del + items.len() <= num::MAX_SAFE,
        ({
            let (w1, r) = tail_moved(w, t.array, len, start, del, items.len() as int);
            let (w2, s) = written(w1, t.array, start, items, 0);
            let (w3, q) = length_put(w2, t.array, len - del + items.len());
            r is Ok && s is Ok && q is Ok && t.faithful(w3)
        }),
    ensures
        ({
            let (w1, r) = tail_moved(w, t.array, len, start, del, items.len() as int);
            let (w2, s) = written(w1, t.array, start, items, 0);
            let (w3, q) = length_put(w2, t.array, len - del + items.len());
            let e = t.holds(w);
            &&& extends(w, w3)
            &&& t.faithful(w)
            &&& t.holds(w3) == e.take(start) + filled_with(items) + e.skip(start + del)
            &&& writes_only(w, w3, t.array)
        }),
{
    let n = items.len() as int;
    let w1 = tail_moved(w, t.array, len, start, del, n).0;
    lemma_tail_moved_extends(w, t.array, len, start, del, n);
    let w2 = written(w1, t.array, start, items, 0).0;
    lemma_written_extends(w1, t.array, start, items, 0);
    let w3 = length_put(w2, t.array, len - del + n).0;
    lemma_length_put(t, w2, t.array, len - del + n);
    lemma_written(t, w1, start, items, 0);
    lemma_tail_moved(t, w, len, start, del, n);
    lemma_assembled(t.holds(w), t.holds(w1), t.holds(w2), start, del, items);
}

/// The parts of a spliced array, put together.
#[verifier::spinoff_prover]
#[verifier::rlimit(60)]
proof fn lemma_assembled(
    e: Elements,
    e1: Elements,
    e2: Elements,
    start: int,
    del: int,
    items: Seq<Value>,
)
    requires
        0 <= start,
        0 <= del,
        start + del <= e.len(),
        forall|j: int| 0 <= j < start ==> #[trigger] element(e1, j) == element(e, j),
        forall|j: int|
            start + items.len() <= j < e.len() - del + items.len() ==> #[trigger] element(e1, j)
                == element(e, j + del - items.len()),
        forall|k: int| #[trigger]
            element(e2, k) == if start <= k < start + items.len() {
                Some(items[k - start])
            } else {
                element(e1, k)
            },
    ensures
        resized(e2, e.len() - del + items.len()) == e.take(start) + filled_with(items) + e.skip(
            start + del,
        ),
{
    let n = items.len() as int;
    let r = resized(e2, e.len() - del + n);
    let f = e.take(start) + filled_with(items) + e.skip(start + del);
    assert forall|j: int| 0 <= j < e.len() - del + n implies #[trigger] r[j] == f[j] by {
        assert(r[j] == element(e2, j));
        if !(start <= j < start + n) {
            assert(element(e2, j) == element(e1, j));
        }
    }
    assert(r =~= f);
}

#[verifier::spinoff_prover]
#[verifier::rlimit(60)]
proof fn lemma_spliced_at(t: Watched, w: World, len: u64, start: u64, del: u64, items: Seq<Value>)
    requires
        t.from <= w.asked.len(),
        t.holds(w).len() == len,
        start + del <= len <= num::MAX_SAFE,
        spliced_at(w, t.array, t.array, len, start, del, items).1 is Ok,
        t.faithful(spliced_at(w, t.array, t.array, len, start, del, items).0),
        spliced_at(w, t.array, t.array, len, start, del, items).1->Ok_0 != t.array,
    ensures
        ({
            let (w1, out) = spliced_at(w, t.array, t.array, len, start, del, items);
            let e = t.holds(w);
            &&& extends(w, w1)
            &&& t.faithful(w)
            &&& t.holds(w1) == e.take(start as int) + filled_with(items) + e.skip(start + del)
            &&& holding(out->Ok_0, Seq::empty(), w).holds(w1) == e.subrange(
                start as int,
                start + del,
            )
        }),
{
    let n = items.len() as int;
    let (s, d) = (start as int, del as int);
    let (w1, out) = species_created(w, t.array, d);
    let out = out->Ok_0;
    let u = holding(out, Seq::empty(), w);
    let w2 = copied_span(w1, t.array, s, s + d, out, 0).0;
    let w3 = length_put(w2, out, d).0;
    let w4 = tail_moved(w3, t.array, len as int, s, d, n).0;
    lemma_tail_moved_extends(w3, t.array, len as int, s, d, n);
    let w5 = written(w4, t.array, s, items, 0).0;
    lemma_written_extends(w4, t.array, s, items, 0);
    let w6 = length_put(w5, t.array, len - d + n).0;
    assert(w6 == spliced_at(w, t.array, t.array, len, start, del, items).0);
    assert(extends(w3, w6));
    t.lemma_earlier(w3, w6);
    lemma_copied_out(t, w, s, s + d);
    lemma_put_in(t, w3, len as int, s, d, items);
    assert(spares(w3, w6, out));
    u.lemma_quiet(w3, w6);
}

/// A splice leaves the array with the span replaced by the new elements, and gives an array of the
/// elements that stood there; holes stay holes.
#[verifier::spinoff_prover]
#[verifier::rlimit(60)]
pub proof fn law_splice_replaces_a_span(
    w: World,
    this: Value,
    args: Seq<Value>,
    before: Elements,
    start: int,
    del: int,
)
    requires
        this.object(),
        before.len() <= num::MAX_SAFE,
        args.len() >= 1,
        args[0] is Num,
        names_index(args[0]->Num_0, before.len() as int, start),
        args.len() == 1 ==> del == before.len() - start,
        args.len() >= 2 ==> args[1] is Num && names_count(
            args[1]->Num_0,
            before.len() - start,
            del,
        ),
        spliced(w, this, args).1 is Ok,
        spliced(w, this, args).1->Ok_0 != this,
        holding(this, before, w).faithful(spliced(w, this, args).0),
    ensures
        ({
            let (w1, out) = spliced(w, this, args);
            &&& holding(this, before, w).holds(w1) == before.take(start) + filled_with(
                if args.len() >= 2 {
                    args.skip(2)
                } else {
                    Seq::empty()
                },
            ) + before.skip(start + del)
            &&& holding(out->Ok_0, Seq::empty(), w).holds(w1) == before.subrange(start, start + del)
        }),
{
    let t = holding(this, before, w);
    let (w1, len) = length_of(w, this);
    let (w2, s) = relative(w1, args[0], len->Ok_0);
    let (w3, d) = delete_count(w2, args, len->Ok_0 - s->Ok_0);
    let w4 = spliced(w, this, args).0;
    lemma_spliced_at_extends(w3, this, this, len->Ok_0, s->Ok_0, d->Ok_0, inserts(args));
    t.lemma_earlier(w1, w4);
    lemma_length(t, w);
    num::lemma_magnitude_nonneg(args[0]->Num_0);
    assert(w2 == w1);
    assert(s->Ok_0 == start);
    if args.len() >= 2 {
        num::lemma_magnitude_nonneg(args[1]->Num_0);
    }
    assert(w3 == w1);
    assert(d->Ok_0 == del);
    assert(inserts(args) =~= if args.len() >= 2 {
        args.skip(2)
    } else {
        Seq::empty()
    });
    lemma_spliced_at(t, w1, len->Ok_0, s->Ok_0, d->Ok_0, inserts(args));
    let out = spliced(w, this, args).1->Ok_0;
    lemma_from_later(out, w, w1, w4);
}

/// Nothing is written to a fresh array before it is there.
pub proof fn lemma_from_later(out: Value, w: World, w1: World, w2: World)
    requires
        spares(w, w1, out),
        extends(w1, w2),
    ensures
        holding(out, Seq::empty(), w).holds(w2) == holding(out, Seq::empty(), w1).holds(w2),
{
    lemma_from_later_up_to(out, w, w1, w2, w2.asked.len() as int);
}

proof fn lemma_from_later_up_to(out: Value, w: World, w1: World, w2: World, n: int)
    requires
        spares(w, w1, out),
        extends(w1, w2),
        0 <= n <= w2.asked.len(),
    ensures
        holding(out, Seq::empty(), w).after(w2.asked, n) == holding(out, Seq::empty(), w1).after(
            w2.asked,
            n,
        ),
    decreases n,
{
    if n > w.asked.len() {
        lemma_from_later_up_to(out, w, w1, w2, n - 1);
        if n <= w1.asked.len() {
            assert(w2.asked[n - 1] == w1.asked[n - 1]);
            assert(written_to(w1.asked[n - 1].op) != Some(out));
        }
    }
}

proof fn lemma_spliced_at_extends(
    w: World,
    this: Value,
    o: Value,
    len: u64,
    start: u64,
    del: u64,
    items: Seq<Value>,
)
    ensures
        extends(w, spliced_at(w, this, o, len, start, del, items).0),
{
    let n = items.len() as int;
    let (s, d) = (start as int, del as int);
    lemma_species_extends(w, this, d);
    let (w1, out) = species_created(w, this, d);
    let w2 = copied_span(w1, o, s, s + d, out->Ok_0, 0).0;
    lemma_copied_span_extends(w1, o, s, s + d, out->Ok_0, 0);
    let w3 = length_put(w2, out->Ok_0, d).0;
    let w4 = tail_moved(w3, o, len as int, s, d, n).0;
    lemma_tail_moved_extends(w3, o, len as int, s, d, n);
    lemma_written_extends(w4, o, s, items, 0);
}

pub proof fn lemma_species_extends(w: World, original: Value, len: int)
    ensures
        extends(w, species_created(w, original, len).0),
{
    lemma_array_tested_extends(w, original);
}

// push, pop, shift, unshift

#[verifier::spinoff_prover]
#[verifier::rlimit(60)]
proof fn lemma_pushed_from(t: Watched, w: World, args: Seq<Value>, j: int, len: int)
    requires
        t.from <= w.asked.len(),
        0 <= j <= args.len(),
        t.holds(w).len() == len,
        len + args.len() - j <= num::MAX_SAFE,
        pushed_from(w, t.array, args, j, len).1 is Ok,
        t.faithful(pushed_from(w, t.array, args, j, len).0),
    ensures
        extends(w, pushed_from(w, t.array, args, j, len).0),
        t.faithful(w),
        t.holds(pushed_from(w, t.array, args, j, len).0) == t.holds(w) + filled_with(args.skip(j)),
        pushed_from(w, t.array, args, j, len).1->Ok_0 == Value::Num(
            num::number(len + args.len() - j),
        ),
    decreases args.len() - j,
{
    if j < args.len() {
        let w1 = put(w, t.array, Key::Index(len as u64), args[j]).0;
        t.lemma_step(w, Op::Put(t.array, Key::Index(len as u64), args[j]), Seq::empty());
        lemma_pushed_from(t, w1, args, j + 1, len + 1);
        lemma_put(t, w, len as u64, args[j]);
        lemma_appended(t.holds(w), args, j);
    } else {
        lemma_length_put(t, w, t.array, len);
        lemma_appended(t.holds(w), args, j);
    }
}

proof fn lemma_appended(e: Elements, args: Seq<Value>, j: int)
    requires
        0 <= j <= args.len(),
    ensures
        j < args.len() ==> stored(e, e.len() as int, args[j]) + filled_with(args.skip(j + 1)) == e
            + filled_with(args.skip(j)),
        j == args.len() ==> resized(e, e.len() as int) == e + filled_with(args.skip(j)),
{
    if j < args.len() {
        assert(stored(e, e.len() as int, args[j]) + filled_with(args.skip(j + 1)) =~= e
            + filled_with(args.skip(j)));
    } else {
        assert(resized(e, e.len() as int) =~= e + filled_with(args.skip(j)));
    }
}

/// A push appends its arguments and gives the new length.
pub proof fn law_push_appends(w: World, this: Value, args: Seq<Value>, before: Elements)
    requires
        this.object(),
        before.len() <= num::MAX_SAFE,
        pushed(w, this, args).1 is Ok,
        holding(this, before, w).faithful(pushed(w, this, args).0),
    ensures
        holding(this, before, w).holds(pushed(w, this, args).0) == before + filled_with(args),
        pushed(w, this, args).1->Ok_0 == Value::Num(
            num::number((before.len() + args.len()) as int),
        ),
{
    let t = holding(this, before, w);
    let (w1, len) = length_of(w, this);
    lemma_pushed_from_extends(w1, this, args, 0, len->Ok_0 as int);
    t.lemma_earlier(w1, pushed(w, this, args).0);
    lemma_length(t, w);
    lemma_pushed_from(t, w1, args, 0, len->Ok_0 as int);
    assert(args.skip(0) =~= args);
}

proof fn lemma_pushed_from_extends(w: World, o: Value, args: Seq<Value>, j: int, len: int)
    ensures
        writes_only(w, pushed_from(w, o, args, j, len).0, o),
    decreases args.len() - j,
{
    if 0 <= j < args.len() {
        let (w1, r) = put(w, o, Key::Index(len as u64), args[j]);
        if r is Ok {
            lemma_pushed_from_extends(w1, o, args, j + 1, len + 1);
        }
    }
}

/// What reads as undefined where there is nothing.
pub open spec fn or_undefined(v: Option<Value>) -> Value {
    match v {
        Some(v) => v,
        None => Value::Undefined,
    }
}

/// A pop takes the last element off and gives it.
#[verifier::spinoff_prover]
#[verifier::rlimit(60)]
pub proof fn law_pop_takes_the_last(w: World, this: Value, before: Elements)
    requires
        this.object(),
        before.len() <= num::MAX_SAFE,
        popped(w, this).1 is Ok,
        holding(this, before, w).faithful(popped(w, this).0),
    ensures
        before.len() > 0 ==> holding(this, before, w).holds(popped(w, this).0)
            == before.drop_last() && popped(w, this).1->Ok_0 == or_undefined(before.last()),
        before.len() == 0 ==> holding(this, before, w).holds(popped(w, this).0) == before && popped(
            w,
            this,
        ).1->Ok_0 == Value::Undefined,
{
    let t = holding(this, before, w);
    let (w1, len) = length_of(w, this);
    let n = len->Ok_0 as int;
    t.lemma_earlier(w1, popped(w, this).0);
    lemma_length(t, w);
    if n == 0 {
        lemma_length_put(t, w1, this, 0);
        assert(resized(before, 0) =~= before);
    } else {
        let (w2, last) = w1.get(this, Key::Index((n - 1) as u64));
        let (w3, r) = w2.value(Op::Remove(this, Key::Index((n - 1) as u64)), Seq::empty());
        lemma_length_put(t, w3, this, n - 1);
        lemma_remove(t, w2, (n - 1) as u64);
        lemma_value(t, w1, Op::Get(this, Key::Index((n - 1) as u64)));
        assert(resized(hollowed(before, n - 1), n - 1) =~= before.drop_last());
    }
}

proof fn lemma_shifted_from(t: Watched, w: World, k: int, len: int)
    requires
        t.from <= w.asked.len(),
        1 <= k,
        len <= num::MAX_SAFE,
        shifted_from(w, t.array, k, len).1 is Ok,
        t.faithful(shifted_from(w, t.array, k, len).0),
    ensures
        extends(w, shifted_from(w, t.array, k, len).0),
        t.faithful(w),
        forall|j: int| #[trigger]
            element(t.holds(shifted_from(w, t.array, k, len).0), j) == if k - 1 <= j < len - 1 {
                element(t.holds(w), j + 1)
            } else {
                element(t.holds(w), j)
            },
    decreases len - k,
{
    if k < len {
        let (w1, r) = moved(w, t.array, k as u64, (k - 1) as u64);
        lemma_shifted_from(t, w1, k + 1, len);
        lemma_moved(t, w, k as u64, (k - 1) as u64);
    }
}

proof fn lemma_shifted_from_extends(w: World, o: Value, k: int, len: int)
    ensures
        writes_only(w, shifted_from(w, o, k, len).0, o),
    decreases len - k,
{
    if k < len {
        let (w1, r) = moved(w, o, k as u64, (k - 1) as u64);
        if r is Ok {
            lemma_shifted_from_extends(w1, o, k + 1, len);
        }
    }
}

/// A shift takes the first element off and gives it; the others move down by one.
#[verifier::spinoff_prover]
#[verifier::rlimit(60)]
pub proof fn law_shift_takes_the_first(w: World, this: Value, limit: u64, before: Elements)
    requires
        this.object(),
        before.len() <= num::MAX_SAFE,
        shifted(w, this, limit).1 is Ok,
        holding(this, before, w).faithful(shifted(w, this, limit).0),
    ensures
        before.len() > 0 ==> holding(this, before, w).holds(shifted(w, this, limit).0)
            == before.drop_first() && shifted(w, this, limit).1->Ok_0 == or_undefined(before.first()),
        before.len() == 0 ==> holding(this, before, w).holds(shifted(w, this, limit).0) == before
            && shifted(w, this, limit).1->Ok_0 == Value::Undefined,
{
    let t = holding(this, before, w);
    let (w1, len) = length_of(w, this);
    let n = len->Ok_0 as int;
    let w5 = shifted(w, this, limit).0;
    if n == 0 {
        t.lemma_earlier(w1, w5);
        lemma_length(t, w);
        lemma_length_put(t, w1, this, 0);
        assert(resized(before, 0) =~= before);
    } else {
        let (w2, first) = w1.get(this, Key::Index(0));
        let w3 = shifted_from(w2, this, 1, n).0;
        lemma_shifted_from_extends(w2, this, 1, n);
        let (w4, r) = w3.value(Op::Remove(this, Key::Index((n - 1) as u64)), Seq::empty());
        t.lemma_earlier(w1, w5);
        lemma_length(t, w);
        lemma_length_put(t, w4, this, n - 1);
        lemma_remove(t, w3, (n - 1) as u64);
        lemma_shifted_from(t, w2, 1, n);
        lemma_value(t, w1, Op::Get(this, Key::Index(0)));
        let f = resized(hollowed(t.holds(w3), n - 1), n - 1);
        assert forall|j: int| 0 <= j < n - 1 implies #[trigger] f[j] == before[j + 1] by {
            assert(element(t.holds(w3), j) == element(before, j + 1));
        }
        assert(f =~= before.drop_first());
    }
}

proof fn lemma_raised(t: Watched, w: World, k: int, n: int)
    requires
        t.from <= w.asked.len(),
        0 <= k,
        0 < n,
        k + n <= num::MAX_SAFE,
        raised(w, t.array, k, n).1 is Ok,
        t.faithful(raised(w, t.array, k, n).0),
    ensures
        extends(w, raised(w, t.array, k, n).0),
        t.faithful(w),
        forall|j: int| #[trigger]
            element(t.holds(raised(w, t.array, k, n).0), j) == if n <= j < k + n {
                element(t.holds(w), j - n)
            } else {
                element(t.holds(w), j)
            },
    decreases k,
{
    if k > 0 {
        let (w1, r) = moved(w, t.array, (k - 1) as u64, (k - 1 + n) as u64);
        lemma_raised(t, w1, k - 1, n);
        lemma_moved(t, w, (k - 1) as u64, (k - 1 + n) as u64);
    }
}

proof fn lemma_raised_extends(w: World, o: Value, k: int, n: int)
    ensures
        writes_only(w, raised(w, o, k, n).0, o),
    decreases k,
{
    if k > 0 {
        let (w1, r) = moved(w, o, (k - 1) as u64, (k - 1 + n) as u64);
        if r is Ok {
            lemma_raised_extends(w1, o, k - 1, n);
        }
    }
}

/// An unshift puts its arguments before the elements and gives the new length.
#[verifier::spinoff_prover]
#[verifier::rlimit(60)]
pub proof fn law_unshift_prepends(w: World, this: Value, args: Seq<Value>, before: Elements)
    requires
        this.object(),
        before.len() <= num::MAX_SAFE,
        unshifted(w, this, args).1 is Ok,
        holding(this, before, w).faithful(unshifted(w, this, args).0),
    ensures
        holding(this, before, w).holds(unshifted(w, this, args).0) == filled_with(args) + before,
        unshifted(w, this, args).1->Ok_0 == Value::Num(
            num::number((before.len() + args.len()) as int),
        ),
{
    let t = holding(this, before, w);
    let (w1, len) = length_of(w, this);
    let (n, m) = (args.len() as int, len->Ok_0 as int);
    let w4 = unshifted(w, this, args).0;
    if n == 0 {
        t.lemma_earlier(w1, w4);
        lemma_length(t, w);
        lemma_length_put(t, w1, this, m);
        assert(resized(before, m) =~= filled_with(args) + before);
    } else {
        let w2 = raised(w1, this, m, n).0;
        lemma_raised_extends(w1, this, m, n);
        let w3 = written(w2, this, 0, args, 0).0;
        lemma_written_extends(w2, this, 0, args, 0);
        t.lemma_earlier(w1, w4);
        lemma_length(t, w);
        lemma_length_put(t, w3, this, m + n);
        lemma_written(t, w2, 0, args, 0);
        lemma_raised(t, w1, m, n);
        let f = resized(t.holds(w3), m + n);
        assert forall|j: int| 0 <= j < m + n implies #[trigger] f[j] == (filled_with(args)
            + before)[j] by {
            assert(f[j] == element(t.holds(w3), j));
            if j >= n {
                assert(element(t.holds(w2), j) == element(before, j - n));
            }
        }
        assert(f =~= filled_with(args) + before);
    }
}

// fill, copyWithin, reverse, slice

proof fn lemma_filled_from(t: Watched, w: World, v: Value, k: int, end: int)
    requires
        t.from <= w.asked.len(),
        0 <= k,
        end <= t.holds(w).len() <= num::MAX_SAFE,
        filled_from(w, t.array, v, k, end).1 is Ok,
        t.faithful(filled_from(w, t.array, v, k, end).0),
    ensures
        extends(w, filled_from(w, t.array, v, k, end).0),
        t.faithful(w),
        t.holds(filled_from(w, t.array, v, k, end).0).len() == t.holds(w).len(),
        forall|j: int|
            0 <= j < t.holds(w).len() ==> #[trigger] t.holds(
                filled_from(w, t.array, v, k, end).0,
            )[j] == if k <= j < end {
                Some(v)
            } else {
                t.holds(w)[j]
            },
        filled_from(w, t.array, v, k, end).1->Ok_0 == t.array,
    decreases end - k,
{
    if k < end {
        let w1 = put(w, t.array, Key::Index(k as u64), v).0;
        t.lemma_step(w, Op::Put(t.array, Key::Index(k as u64), v), Seq::empty());
        lemma_filled_from(t, w1, v, k + 1, end);
        lemma_put(t, w, k as u64, v);
    }
}

proof fn lemma_filled_from_extends(w: World, o: Value, v: Value, k: int, end: int)
    ensures
        writes_only(w, filled_from(w, o, v, k, end).0, o),
    decreases end - k,
{
    if k < end {
        let (w1, r) = put(w, o, Key::Index(k as u64), v);
        if r is Ok {
            lemma_filled_from_extends(w1, o, v, k + 1, end);
        }
    }
}

/// Where an optional end lies.
pub open spec fn names_end(v: Value, len: int, k: int) -> bool {
    (v == Value::Undefined && k == len) || (v is Num && names_index(v->Num_0, len, k))
}

/// A fill writes the value to every index of the span and leaves the others.
#[verifier::spinoff_prover]
#[verifier::rlimit(60)]
pub proof fn law_fill_covers_the_span(
    w: World,
    this: Value,
    args: Seq<Value>,
    limit: u64,
    before: Elements,
    start: int,
    end: int,
)
    requires
        this.object(),
        before.len() <= num::MAX_SAFE,
        args.len() == 3,
        args[1] is Num,
        names_index(args[1]->Num_0, before.len() as int, start),
        names_end(args[2], before.len() as int, end),
        filled(w, this, args, limit).1 is Ok,
        !filled(w, this, args, limit).0.halted(),
        holding(this, before, w).faithful(filled(w, this, args, limit).0),
    ensures
        holding(this, before, w).holds(filled(w, this, args, limit).0) == Seq::new(
            before.len(),
            |j: int|
                if start <= j < end {
                    Some(args[0])
                } else {
                    before[j]
                },
        ),
        filled(w, this, args, limit).1->Ok_0 == this,
{
    let t = holding(this, before, w);
    let (w1, len) = length_of(w, this);
    let (w2, exotic) = w1.yes(Op::IsArrayExotic(this));
    let s = relative(w1, args[1], len->Ok_0).1->Ok_0 as int;
    let e = span_end(w1, args[2], len->Ok_0).1->Ok_0 as int;
    let w3 = filled(w, this, args, limit).0;
    lemma_filled_from_extends(w2, this, args[0], s, e);
    t.lemma_earlier(w2, w3);
    t.lemma_earlier(w1, w3);
    lemma_length(t, w);
    num::lemma_magnitude_nonneg(args[1]->Num_0);
    if args[2] is Num {
        num::lemma_magnitude_nonneg(args[2]->Num_0);
    }
    assert(s == start && e == end);
    t.lemma_quiet(w1, w2);
    lemma_filled_from(t, w2, args[0], s, e);
    assert(t.holds(w3) =~= Seq::new(
        before.len(),
        |j: int|
            if start <= j < end {
                Some(args[0])
            } else {
                before[j]
            },
    ));
}

#[verifier::spinoff_prover]
#[verifier::rlimit(60)]
proof fn lemma_copied_up(t: Watched, w: World, from: int, to: int, count: int)
    requires
        t.from <= w.asked.len(),
        t.holds(w).len() <= num::MAX_SAFE,
        0 <= from,
        0 <= to,
        0 <= count,
        from + count <= t.holds(w).len(),
        to + count <= t.holds(w).len(),
        to <= from || from + count <= to,
        copied_within(w, t.array, from, to, count, true).1 is Ok,
        t.faithful(copied_within(w, t.array, from, to, count, true).0),
    ensures
        t.faithful(w),
        copied_within(w, t.array, from, to, count, true).1->Ok_0 == t.array,
        t.holds(copied_within(w, t.array, from, to, count, true).0).len() == t.holds(w).len(),
        forall|j: int| #[trigger]
            element(t.holds(copied_within(w, t.array, from, to, count, true).0), j) == if to <= j
                < to + count {
                element(t.holds(w), j - to + from)
            } else {
                element(t.holds(w), j)
            },
    decreases count,
{
    if count > 0 {
        let wf = copied_within(w, t.array, from, to, count, true).0;
        let w1 = moved(w, t.array, from as u64, to as u64).0;
        lemma_moved_len(t, w, from as u64, to as u64);
        lemma_copied_within_extends(w1, t.array, from + 1, to + 1, count - 1, true);
        t.lemma_earlier(w1, wf);
        lemma_moved(t, w, from as u64, to as u64);
        lemma_copied_up(t, w1, from + 1, to + 1, count - 1);
    }
}

#[verifier::spinoff_prover]
#[verifier::rlimit(60)]
proof fn lemma_copied_down(t: Watched, w: World, from: int, to: int, count: int)
    requires
        t.from <= w.asked.len(),
        t.holds(w).len() <= num::MAX_SAFE,
        0 <= count,
        count <= from + 1,
        count <= to + 1,
        from < t.holds(w).len(),
        to < t.holds(w).len(),
        from <= to,
        copied_within(w, t.array, from, to, count, false).1 is Ok,
        t.faithful(copied_within(w, t.array, from, to, count, false).0),
    ensures
        t.faithful(w),
        copied_within(w, t.array, from, to, count, false).1->Ok_0 == t.array,
        t.holds(copied_within(w, t.array, from, to, count, false).0).len() == t.holds(w).len(),
        forall|j: int| #[trigger]
            element(t.holds(copied_within(w, t.array, from, to, count, false).0), j) == if to - count
                < j <= to {
                element(t.holds(w), j - to + from)
            } else {
                element(t.holds(w), j)
            },
    decreases count,
{
    if count > 0 {
        let wf = copied_within(w, t.array, from, to, count, false).0;
        let w1 = moved(w, t.array, from as u64, to as u64).0;
        lemma_moved_len(t, w, from as u64, to as u64);
        lemma_copied_within_extends(w1, t.array, from - 1, to - 1, count - 1, false);
        t.lemma_earlier(w1, wf);
        lemma_moved(t, w, from as u64, to as u64);
        lemma_copied_down(t, w1, from - 1, to - 1, count - 1);
    }
}

/// A move inside an array keeps its length.
proof fn lemma_moved_len(t: Watched, w: World, from: u64, to: u64)
    requires
        t.from <= w.asked.len(),
        to < t.holds(w).len(),
        moved(w, t.array, from, to).1 is Ok,
    ensures
        extends(w, moved(w, t.array, from, to).0),
        t.holds(moved(w, t.array, from, to).0).len() == t.holds(w).len(),
{
    let (w1, v) = present(w, t.array, from);
    t.lemma_quiet(w, w1);
    match v->Ok_0 {
        Some(v) => lemma_value(t, w1, Op::Put(t.array, Key::Index(to), v)),
        None => lemma_value(t, w1, Op::Remove(t.array, Key::Index(to))),
    }
}

proof fn lemma_copied_within_extends(w: World, o: Value, from: int, to: int, count: int, up: bool)
    ensures
        writes_only(w, copied_within(w, o, from, to, count, up).0, o),
    decreases count,
{
    if count > 0 {
        let (w1, r) = moved(w, o, from as u64, to as u64);
        if r is Ok {
            if up {
                lemma_copied_within_extends(w1, o, from + 1, to + 1, count - 1, up);
            } else {
                lemma_copied_within_extends(w1, o, from - 1, to - 1, count - 1, up);
            }
        }
    }
}

/// `copyWithin` brings the span as it was before to the target, as far as there is room, also where
/// the two overlap.
#[verifier::spinoff_prover]
#[verifier::rlimit(60)]
pub proof fn law_copy_within_copies_the_old_span(
    w: World,
    this: Value,
    args: Seq<Value>,
    before: Elements,
    target: int,
    start: int,
    end: int,
)
    requires
        this.object(),
        before.len() <= num::MAX_SAFE,
        args.len() == 3,
        args[0] is Num,
        args[1] is Num,
        names_index(args[0]->Num_0, before.len() as int, target),
        names_index(args[1]->Num_0, before.len() as int, start),
        names_end(args[2], before.len() as int, end),
        moved_within(w, this, args).1 is Ok,
        holding(this, before, w).faithful(moved_within(w, this, args).0),
    ensures
        holding(this, before, w).holds(moved_within(w, this, args).0) == Seq::new(
            before.len(),
            |j: int|
                if target <= j && j - target + start < end {
                    before[j - target + start]
                } else {
                    before[j]
                },
        ),
        moved_within(w, this, args).1->Ok_0 == this,
{
    let t = holding(this, before, w);
    let (w1, len) = length_of(w, this);
    let l = len->Ok_0;
    let w2 = moved_within(w, this, args).0;
    let tt = relative(w1, args[0], l).1->Ok_0 as int;
    let s = relative(w1, args[1], l).1->Ok_0 as int;
    let e = span_end(w1, args[2], l).1->Ok_0 as int;
    let n = move_count(s, e, tt, l as int);
    lemma_copied_within_extends(w1, this, s + n - 1, tt + n - 1, n, false);
    lemma_copied_within_extends(w1, this, s, tt, n, true);
    t.lemma_earlier(w1, w2);
    lemma_length(t, w);
    num::lemma_magnitude_nonneg(args[0]->Num_0);
    num::lemma_magnitude_nonneg(args[1]->Num_0);
    if args[2] is Num {
        num::lemma_magnitude_nonneg(args[2]->Num_0);
    }
    assert(tt == target && s == start && e == end);
    if start < target && target < start + n {
        lemma_copied_down(t, w1, s + n - 1, tt + n - 1, n);
    } else {
        if n > 0 {
            lemma_copied_up(t, w1, s, tt, n);
        }
    }
    let f = Seq::new(
        before.len(),
        |j: int|
            if target <= j && j - target + start < end {
                before[j - target + start]
            } else {
                before[j]
            },
    );
    assert forall|j: int| 0 <= j < before.len() implies #[trigger] t.holds(w2)[j] == f[j] by {
        assert(t.holds(w2)[j] == element(t.holds(w2), j));
    }
    assert(t.holds(w2) =~= f);
}

#[verifier::spinoff_prover]
#[verifier::rlimit(60)]
proof fn lemma_swapped(t: Watched, w: World, lower: u64, upper: u64)
    requires
        t.from <= w.asked.len(),
        lower < upper < t.holds(w).len(),
        swapped(w, t.array, lower, upper).1 is Ok,
        t.faithful(swapped(w, t.array, lower, upper).0),
    ensures
        extends(w, swapped(w, t.array, lower, upper).0),
        t.faithful(w),
        t.holds(swapped(w, t.array, lower, upper).0) =~= t.holds(w).update(
            lower as int,
            t.holds(w)[upper as int],
        ).update(upper as int, t.holds(w)[lower as int]),
{
    let (w1, lv) = present(w, t.array, lower);
    let (w2, uv) = present(w1, t.array, upper);
    match (lv->Ok_0, uv->Ok_0) {
        (Some(lv), Some(uv)) => {
            let w3 = put(w2, t.array, Key::Index(lower), uv).0;
            lemma_put(t, w3, upper, lv);
            lemma_put(t, w2, lower, uv);
        },
        (None, Some(uv)) => {
            let w3 = put(w2, t.array, Key::Index(lower), uv).0;
            lemma_remove(t, w3, upper);
            lemma_put(t, w2, lower, uv);
        },
        (Some(lv), None) => {
            let w3 = w2.value(Op::Remove(t.array, Key::Index(lower)), Seq::empty()).0;
            lemma_put(t, w3, upper, lv);
            lemma_remove(t, w2, lower);
        },
        (None, None) => {},
    }
    lemma_present(t, w1, upper);
    lemma_present(t, w, lower);
}

proof fn lemma_reversed_from_extends(w: World, o: Value, k: int, len: int)
    ensures
        writes_only(w, reversed_from(w, o, k, len).0, o),
    decreases len / 2 - k,
{
    if k < len / 2 {
        let (w1, r) = swapped(w, o, k as u64, (len - 1 - k) as u64);
        if r is Ok {
            lemma_reversed_from_extends(w1, o, k + 1, len);
        }
    }
}

proof fn lemma_swapped_extends(w: World, o: Value, lower: u64, upper: u64)
    ensures
        writes_only(w, swapped(w, o, lower, upper).0, o),
{
}

/// Everything outside the first and last `k` elements is turned round.
#[verifier::spinoff_prover]
#[verifier::rlimit(60)]
proof fn lemma_reversed_from(t: Watched, w: World, k: int, len: int)
    requires
        t.from <= w.asked.len(),
        0 <= k <= len / 2,
        t.holds(w).len() == len,
        len <= num::MAX_SAFE,
        reversed_from(w, t.array, k, len).1 is Ok,
        t.faithful(reversed_from(w, t.array, k, len).0),
    ensures
        extends(w, reversed_from(w, t.array, k, len).0),
        t.faithful(w),
        reversed_from(w, t.array, k, len).1->Ok_0 == t.array,
        t.holds(reversed_from(w, t.array, k, len).0).len() == len,
        forall|j: int|
            0 <= j < len ==> #[trigger] t.holds(reversed_from(w, t.array, k, len).0)[j] == if k <= j
                < len - k {
                t.holds(w)[len - 1 - j]
            } else {
                t.holds(w)[j]
            },
    decreases len / 2 - k,
{
    if k < len / 2 {
        let w1 = swapped(w, t.array, k as u64, (len - 1 - k) as u64).0;
        let w2 = reversed_from(w1, t.array, k + 1, len).0;
        lemma_swapped_extends(w, t.array, k as u64, (len - 1 - k) as u64);
        lemma_reversed_from_extends(w1, t.array, k + 1, len);
        t.lemma_earlier(w1, w2);
        lemma_swapped(t, w, k as u64, (len - 1 - k) as u64);
        lemma_reversed_from(t, w1, k + 1, len);
    }
}

/// A reverse turns the elements round, holes included.
pub proof fn law_reverse_turns_round(w: World, this: Value, before: Elements)
    requires
        this.object(),
        before.len() <= num::MAX_SAFE,
        reversed(w, this).1 is Ok,
        holding(this, before, w).faithful(reversed(w, this).0),
    ensures
        holding(this, before, w).holds(reversed(w, this).0) == before.reverse(),
        reversed(w, this).1->Ok_0 == this,
{
    let t = holding(this, before, w);
    let (w1, len) = length_of(w, this);
    lemma_reversed_from_extends(w1, this, 0, len->Ok_0 as int);
    t.lemma_earlier(w1, reversed(w, this).0);
    lemma_length(t, w);
    lemma_reversed_from(t, w1, 0, len->Ok_0 as int);
    assert(t.holds(reversed(w, this).0) =~= before.reverse());
}

/// A slice is an array of the elements of the span; the receiver keeps its own.
#[verifier::spinoff_prover]
#[verifier::rlimit(60)]
pub proof fn law_slice_copies_the_span(
    w: World,
    this: Value,
    args: Seq<Value>,
    before: Elements,
    start: int,
    end: int,
)
    requires
        this.object(),
        before.len() <= num::MAX_SAFE,
        args.len() == 2,
        args[0] is Num,
        names_index(args[0]->Num_0, before.len() as int, start),
        names_end(args[1], before.len() as int, end),
        sliced(w, this, args).1 is Ok,
        sliced(w, this, args).1->Ok_0 != this,
        holding(this, before, w).faithful(sliced(w, this, args).0),
    ensures
        holding(this, before, w).holds(sliced(w, this, args).0) == before,
        holding(sliced(w, this, args).1->Ok_0, Seq::empty(), w).holds(sliced(w, this, args).0)
            == before.subrange(
            start,
            if end > start {
                end
            } else {
                start
            },
        ),
{
    let t = holding(this, before, w);
    let (w1, len) = length_of(w, this);
    let l = len->Ok_0;
    let s = relative(w1, args[0], l).1->Ok_0 as int;
    let e = span_end(w1, args[1], l).1->Ok_0 as int;
    let stop = if e > s {
        e
    } else {
        s
    };
    let (w2, out) = species_created(w1, this, stop - s);
    let out = out->Ok_0;
    lemma_species_extends(w1, this, stop - s);
    let w3 = copied_span(w2, this, s, e, out, 0).0;
    lemma_copied_span_extends(w2, this, s, e, out, 0);
    assert(w3 == copied_span(w2, this, s, stop, out, 0).0);
    let w4 = sliced(w, this, args).0;
    t.lemma_earlier(w1, w4);
    lemma_length(t, w);
    num::lemma_magnitude_nonneg(args[0]->Num_0);
    if args[1] is Num {
        num::lemma_magnitude_nonneg(args[1]->Num_0);
    }
    assert(s == start && e == end);
    lemma_copied_out(t, w1, s, stop);
    lemma_from_later(out, w, w1, w4);
}

// Searching

#[verifier::spinoff_prover]
#[verifier::rlimit(60)]
proof fn lemma_index_from(t: Watched, w: World, target: Value, k: int, len: int)
    requires
        t.from <= w.asked.len(),
        0 <= k,
        len <= num::MAX_SAFE,
        index_from(w, t.array, target, k, len).1 is Ok,
        t.faithful(index_from(w, t.array, target, k, len).0),
    ensures
        extends(w, index_from(w, t.array, target, k, len).0),
        t.faithful(w),
        t.holds(index_from(w, t.array, target, k, len).0) == t.holds(w),
        ({
            let r = index_from(w, t.array, target, k, len).1->Ok_0;
            let e = t.holds(w);
            ||| r == Value::Num(num::MINUS_ONE) && forall|j: int|
                k <= j < len ==> !found_at(e, target, j)
            ||| exists|m: int|
                k <= m < len && r == Value::Num(num::number(m)) && #[trigger] found_at(e, target, m)
                    && forall|j: int| k <= j < m ==> !found_at(e, target, j)
        }),
    decreases len - k,
{
    if k < len {
        let (w1, v) = present(w, t.array, k as u64);
        if v->Ok_0 is Some && strictly_same(v->Ok_0->0, target) {
            lemma_present(t, w, k as u64);
            assert(found_at(t.holds(w), target, k));
        } else {
            lemma_index_from(t, w1, target, k + 1, len);
            lemma_present(t, w, k as u64);
            assert(!found_at(t.holds(w), target, k));
            let r = index_from(w, t.array, target, k, len).1->Ok_0;
            let e = t.holds(w);
            if !(r == Value::Num(num::MINUS_ONE) && forall|j: int|
                k + 1 <= j < len ==> !found_at(e, target, j)) {
                let m = choose|m: int|
                    k + 1 <= m < len && r == Value::Num(num::number(m)) && #[trigger] found_at(
                        e,
                        target,
                        m,
                    ) && forall|j: int| k + 1 <= j < m ==> !found_at(e, target, j);
                assert(found_at(e, target, m));
            }
        }
    }
}

/// Whether an element that strictly equals the target stands at an index.
pub open spec fn found_at(e: Elements, target: Value, k: int) -> bool {
    element(e, k) is Some && strictly_same(element(e, k)->0, target)
}

/// `indexOf` gives the first index from the start on at which the target stands, or minus one where
/// there is none.
#[verifier::spinoff_prover]
#[verifier::rlimit(60)]
pub proof fn law_index_of_is_first(
    w: World,
    this: Value,
    args: Seq<Value>,
    before: Elements,
    start: int,
)
    requires
        this.object(),
        before.len() <= num::MAX_SAFE,
        args.len() == 2,
        args[1] is Num,
        names_index(args[1]->Num_0, before.len() as int, start),
        index_found(w, this, args).1 is Ok,
        holding(this, before, w).faithful(index_found(w, this, args).0),
    ensures
        ({
            let r = index_found(w, this, args).1->Ok_0;
            ||| r == Value::Num(num::MINUS_ONE) && forall|j: int|
                start <= j < before.len() ==> !found_at(before, args[0], j)
            ||| exists|m: int|
                start <= m < before.len() && r == Value::Num(num::number(m)) && #[trigger] found_at(
                    before,
                    args[0],
                    m,
                ) && forall|j: int| start <= j < m ==> !found_at(before, args[0], j)
        }),
{
    let t = holding(this, before, w);
    let (w1, len) = length_of(w, this);
    let s = relative(w1, args[1], len->Ok_0).1->Ok_0 as int;
    lemma_index_from_extends(w1, this, args[0], s, len->Ok_0 as int);
    t.lemma_earlier(w1, index_found(w, this, args).0);
    lemma_length(t, w);
    num::lemma_magnitude_nonneg(args[1]->Num_0);
    if before.len() > 0 {
        lemma_index_from(t, w1, args[0], s, len->Ok_0 as int);
    }
}

proof fn lemma_index_from_extends(w: World, o: Value, target: Value, k: int, len: int)
    ensures
        quietly(w, index_from(w, o, target, k, len).0) || index_from(w, o, target, k, len).1 is Err,
        extends(w, index_from(w, o, target, k, len).0),
    decreases len - k,
{
    if k < len {
        let (w1, v) = present(w, o, k as u64);
        if v is Ok {
            lemma_index_from_extends(w1, o, target, k + 1, len);
        }
    }
}

#[verifier::spinoff_prover]
#[verifier::rlimit(60)]
proof fn lemma_last_index_below(t: Watched, w: World, target: Value, k: int)
    requires
        t.from <= w.asked.len(),
        k <= num::MAX_SAFE,
        last_index_below(w, t.array, target, k).1 is Ok,
        t.faithful(last_index_below(w, t.array, target, k).0),
    ensures
        extends(w, last_index_below(w, t.array, target, k).0),
        t.faithful(w),
        ({
            let r = last_index_below(w, t.array, target, k).1->Ok_0;
            let e = t.holds(w);
            ||| r == Value::Num(num::MINUS_ONE) && forall|j: int|
                0 <= j < k ==> !found_at(e, target, j)
            ||| exists|m: int|
                0 <= m < k && r == Value::Num(num::number(m)) && #[trigger] found_at(e, target, m)
                    && forall|j: int| m < j < k ==> !found_at(e, target, j)
        }),
    decreases k,
{
    if k > 0 {
        let (w1, v) = present(w, t.array, (k - 1) as u64);
        if v->Ok_0 is Some && strictly_same(v->Ok_0->0, target) {
            lemma_present(t, w, (k - 1) as u64);
            assert(found_at(t.holds(w), target, k - 1));
        } else {
            lemma_last_index_below(t, w1, target, k - 1);
            lemma_present(t, w, (k - 1) as u64);
            assert(!found_at(t.holds(w), target, k - 1));
            let r = last_index_below(w, t.array, target, k).1->Ok_0;
            let e = t.holds(w);
            if !(r == Value::Num(num::MINUS_ONE) && forall|j: int|
                0 <= j < k - 1 ==> !found_at(e, target, j)) {
                let m = choose|m: int|
                    0 <= m < k - 1 && r == Value::Num(num::number(m)) && #[trigger] found_at(
                        e,
                        target,
                        m,
                    ) && forall|j: int| m < j < k - 1 ==> !found_at(e, target, j);
                assert(found_at(e, target, m));
            }
        }
    }
}

proof fn lemma_last_index_below_extends(w: World, o: Value, target: Value, k: int)
    ensures
        extends(w, last_index_below(w, o, target, k).0),
    decreases k,
{
    if k > 0 {
        let (w1, v) = present(w, o, (k - 1) as u64);
        if v is Ok {
            lemma_last_index_below_extends(w1, o, target, k - 1);
        }
    }
}

/// `lastIndexOf` gives the last index at which the target stands, at or below the given position,
/// or minus one where there is none. A negative position counts from the end.
#[verifier::spinoff_prover]
#[verifier::rlimit(60)]
pub proof fn law_last_index_of_is_last(
    w: World,
    this: Value,
    args: Seq<Value>,
    before: Elements,
    top: int,
)
    requires
        this.object(),
        before.len() <= num::MAX_SAFE,
        args.len() >= 1,
        args.len() == 1 ==> top == before.len() - 1,
        args.len() > 1 ==> args[1] is Num && num::finite(args[1]->Num_0) && top == if num::integer_part(
            args[1]->Num_0,
        ) < 0 {
            before.len() + num::integer_part(args[1]->Num_0)
        } else {
            num::integer_part(args[1]->Num_0)
        },
        last_index_found(w, this, args).1 is Ok,
        holding(this, before, w).faithful(last_index_found(w, this, args).0),
    ensures
        ({
            let r = last_index_found(w, this, args).1->Ok_0;
            ||| r == Value::Num(num::MINUS_ONE) && forall|j: int|
                0 <= j <= top ==> !found_at(before, args[0], j)
            ||| exists|m: int|
                0 <= m <= top && r == Value::Num(num::number(m)) && #[trigger] found_at(
                    before,
                    args[0],
                    m,
                ) && forall|j: int| m < j <= top ==> !found_at(before, args[0], j)
        }),
{
    let t = holding(this, before, w);
    let (w1, len) = length_of(w, this);
    let l = len->Ok_0 as int;
    let span = if args.len() > 1 {
        backward_span(args[1]->Num_0, l)
    } else {
        l
    };
    lemma_last_index_below_extends(w1, this, args[0], span);
    t.lemma_earlier(w1, last_index_found(w, this, args).0);
    lemma_length(t, w);
    if args.len() > 1 {
        num::lemma_magnitude_nonneg(args[1]->Num_0);
    }
    if before.len() > 0 {
        lemma_last_index_below(t, w1, args[0], span);
    }
    assert forall|j: int| j >= before.len() implies !found_at(before, args[0], j) by {}
    assert forall|j: int| 0 <= j <= top && j >= span implies !found_at(before, args[0], j) by {}
}

#[verifier::spinoff_prover]
#[verifier::rlimit(60)]
proof fn lemma_included_from(t: Watched, w: World, target: Value, k: int, len: int)
    requires
        t.from <= w.asked.len(),
        0 <= k,
        len <= num::MAX_SAFE,
        included_from(w, t.array, target, k, len).1 is Ok,
        t.faithful(included_from(w, t.array, target, k, len).0),
    ensures
        extends(w, included_from(w, t.array, target, k, len).0),
        t.faithful(w),
        included_from(w, t.array, target, k, len).1->Ok_0 == Value::Bool(
            exists|j: int|
                k <= j < len && same_zero(or_undefined(#[trigger] element(t.holds(w), j)), target),
        ),
    decreases len - k,
{
    if k < len {
        let (w1, v) = w.get(t.array, Key::Index(k as u64));
        if same_zero(v->Ok_0, target) {
            lemma_value(t, w, Op::Get(t.array, Key::Index(k as u64)));
            assert(same_zero(or_undefined(element(t.holds(w), k)), target));
        } else {
            lemma_included_from(t, w1, target, k + 1, len);
            lemma_value(t, w, Op::Get(t.array, Key::Index(k as u64)));
        }
    }
}

proof fn lemma_included_from_extends(w: World, o: Value, target: Value, k: int, len: int)
    ensures
        extends(w, included_from(w, o, target, k, len).0),
    decreases len - k,
{
    if k < len {
        let (w1, v) = w.get(o, Key::Index(k as u64));
        if v is Ok {
            lemma_included_from_extends(w1, o, target, k + 1, len);
        }
    }
}

/// `includes` says whether the target is among the elements from the start on; a hole counts as
/// undefined, and NaN is found.
#[verifier::spinoff_prover]
#[verifier::rlimit(60)]
pub proof fn law_includes_is_membership(
    w: World,
    this: Value,
    args: Seq<Value>,
    before: Elements,
    start: int,
)
    requires
        this.object(),
        before.len() <= num::MAX_SAFE,
        args.len() == 2,
        args[1] is Num,
        names_index(args[1]->Num_0, before.len() as int, start),
        inclusion(w, this, args).1 is Ok,
        holding(this, before, w).faithful(inclusion(w, this, args).0),
    ensures
        inclusion(w, this, args).1->Ok_0 == Value::Bool(
            exists|j: int|
                start <= j < before.len() && same_zero(
                    or_undefined(#[trigger] element(before, j)),
                    args[0],
                ),
        ),
{
    let t = holding(this, before, w);
    let (w1, len) = length_of(w, this);
    let s = relative(w1, args[1], len->Ok_0).1->Ok_0 as int;
    lemma_included_from_extends(w1, this, args[0], s, len->Ok_0 as int);
    t.lemma_earlier(w1, inclusion(w, this, args).0);
    lemma_length(t, w);
    num::lemma_magnitude_nonneg(args[1]->Num_0);
    if before.len() > 0 {
        lemma_included_from(t, w1, args[0], s, len->Ok_0 as int);
    }
}

/// `at` reads the element at a position, counted from the end where it is negative; undefined
/// outside.
#[verifier::spinoff_prover]
#[verifier::rlimit(60)]
pub proof fn law_at_reads_the_position(
    w: World,
    this: Value,
    args: Seq<Value>,
    limit: u64,
    before: Elements,
)
    requires
        this.object(),
        before.len() <= num::MAX_SAFE,
        args.len() == 1,
        args[0] is Num,
        num::finite(args[0]->Num_0),
        element_at(w, this, args, limit).1 is Ok,
        holding(this, before, w).faithful(element_at(w, this, args, limit).0),
    ensures
        element_at(w, this, args, limit).1->Ok_0 == or_undefined(
            element(
                before,
                if num::integer_part(args[0]->Num_0) < 0 {
                    before.len() + num::integer_part(args[0]->Num_0)
                } else {
                    num::integer_part(args[0]->Num_0)
                },
            ),
        ),
{
    let t = holding(this, before, w);
    let (w1, len) = length_of(w, this);
    let k = counted_position(args[0]->Num_0, len->Ok_0 as int);
    t.lemma_earlier(w1, element_at(w, this, args, limit).0);
    lemma_length(t, w);
    if 0 <= k < len->Ok_0 {
        lemma_value(t, w1, Op::Get(this, Key::Index(k as u64)));
    }
}

pub proof fn lemma_species_strings(w: World, original: Value, len: int)
    ensures
        species_created(w, original, len).0.strings == w.strings,
{
    lemma_array_tested_strings(w, original);
}

proof fn lemma_array_tested_strings(w: World, v: Value)
    ensures
        array_tested(w, v).0.strings == w.strings,
    decreases w.left(),
{
    let (w1, pair) = w.proxy(v);
    if let Some((target, handler)) = pair {
        if handler != Value::Null {
            lemma_array_tested_strings(w1, target);
        }
    }
}

} // verus!
