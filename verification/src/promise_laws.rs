//! What the promise combinators record, and how they settle.
use vstd::prelude::*;
use crate::interp::{Answer, Key, Native, Op, Value, World};
use crate::num;
use crate::promise::{
    all_element, any_rejected, capability_made, claimed, element_attached, element_recorded,
    executor_called, finally_run, keyed_from, keyed_recorded, keyed_result, keyed_settled,
    resolved_or_rejected, settled_element, slot_read, status_made, thenable_job, Capability,
};
use crate::proxy_laws::open_data;
use crate::realm::stored;
use crate::regexp_laws::{has_stored, lemma_intern, lemma_stored, says};
use crate::trace::{
    exchanged, extends, learned, lemma_learned, lemma_stays_learned, lemma_stays_told, question,
    told, written_to,
};

verus! {

/// The text "fulfilled".
pub open spec fn word_fulfilled() -> Seq<u16> {
    seq![
        'f' as u16, 'u' as u16, 'l' as u16, 'f' as u16, 'i' as u16, 'l' as u16, 'l' as u16,
        'e' as u16, 'd' as u16,
    ]
}

/// The text "rejected".
pub open spec fn word_rejected() -> Seq<u16> {
    seq![
        'r' as u16, 'e' as u16, 'j' as u16, 'e' as u16, 'c' as u16, 't' as u16, 'e' as u16,
        'd' as u16,
    ]
}

/// An entry of `allSettled` and its like: an object with two own properties and no more, the status
/// and, where the promise was fulfilled, the value, else the reason.
pub open spec fn is_entry(a: World, b: World, o: Value, v: Value, fulfilled: bool) -> bool {
    &&& learned(a, b, Op::NewObject, Seq::empty(), Answer::Value(o))
    &&& exists|s: Value|
        {
            &&& #[trigger] has_stored(a, b, o, Key::Name("status"), s)
            &&& says(
                b,
                s,
                if fulfilled {
                    word_fulfilled()
                } else {
                    word_rejected()
                },
            )
        }
    &&& fulfilled ==> has_stored(a, b, o, Key::Name("value"), v)
    &&& !fulfilled ==> has_stored(a, b, o, Key::Name("reason"), v)
    &&& forall|j: int|
        a.asked.len() <= j < b.asked.len() && written_to((#[trigger] b.asked[j]).op) == Some(o)
            ==> stores_under(b.asked[j].op, Key::Name("status")) || stores_under(
            b.asked[j].op,
            if fulfilled {
                Key::Name("value")
            } else {
                Key::Name("reason")
            },
        )
}

/// Whether a kind of work is to store a property under a key.
pub open spec fn stores_under(op: Op, key: Key) -> bool {
    match op {
        Op::StoreProperty(_, k, _) => k == key,
        _ => false,
    }
}

/// `b` is `a` with more questions, and none of them writes to `o`.
pub open spec fn leaves(a: World, b: World, o: Value) -> bool {
    &&& extends(a, b)
    &&& forall|j: int|
        a.asked.len() <= j < b.asked.len() ==> written_to((#[trigger] b.asked[j]).op) != Some(o)
}

#[verifier::spinoff_prover]
#[verifier::rlimit(60)]
proof fn lemma_status(w: World, v: Value, fulfilled: bool)
    requires
        w.strings.len() < u64::MAX,
        !status_made(w, v, fulfilled).0.halted(),
        status_made(w, v, fulfilled).1.object(),
    ensures
        extends(w, status_made(w, v, fulfilled).0),
        is_entry(w, status_made(w, v, fulfilled).0, status_made(w, v, fulfilled).1, v, fulfilled),
{
    let (w1, o) = w.plain(Op::NewObject, Seq::empty());
    let u = if fulfilled {
        crate::promise::fulfilled_text()
    } else {
        crate::promise::rejected_text()
    };
    assert(u =~= if fulfilled {
        word_fulfilled()
    } else {
        word_rejected()
    });
    let (w2, s) = w1.intern(u);
    lemma_intern(w1, u);
    let w3 = stored(w2, o, Key::Name("status"), Value::Str(s));
    let k = if fulfilled {
        Key::Name("value")
    } else {
        Key::Name("reason")
    };
    let w4 = stored(w3, o, k, v);
    assert(w4 == status_made(w, v, fulfilled).0);
    lemma_learned(w, Op::NewObject, Seq::empty());
    lemma_stays_learned(w, w, w1, w4, Op::NewObject, Seq::empty(), Answer::Value(o));
    lemma_stored(w, w2, w4, o, Key::Name("status"), Value::Str(s));
    lemma_stored(w, w3, w4, o, k, v);
    assert forall|j: int|
        w.asked.len() <= j < w4.asked.len() && written_to((#[trigger] w4.asked[j]).op) == Some(
            o,
        ) implies stores_under(w4.asked[j].op, Key::Name("status")) || stores_under(
        w4.asked[j].op,
        k,
    ) by {}
    assert(has_stored(w, w4, o, Key::Name("status"), Value::Str(s)));
}

#[verifier::spinoff_prover]
#[verifier::rlimit(60)]
proof fn lemma_entry_kept(
    a: World,
    b: World,
    c: World,
    d: World,
    o: Value,
    v: Value,
    fulfilled: bool,
)
    requires
        leaves(a, b, o),
        is_entry(b, c, o, v, fulfilled),
        extends(b, c),
        leaves(c, d, o),
    ensures
        is_entry(a, d, o, v, fulfilled),
{
    lemma_stays_learned(a, b, c, d, Op::NewObject, Seq::empty(), Answer::Value(o));
    let s = choose|s: Value|
        {
            &&& #[trigger] has_stored(b, c, o, Key::Name("status"), s)
            &&& says(
                c,
                s,
                if fulfilled {
                    word_fulfilled()
                } else {
                    word_rejected()
                },
            )
        };
    let k = if fulfilled {
        Key::Name("value")
    } else {
        Key::Name("reason")
    };
    lemma_stays_told(
        a,
        b,
        c,
        d,
        Op::StoreProperty(o, Key::Name("status"), open_data(s)),
        Seq::empty(),
    );
    lemma_stays_told(a, b, c, d, Op::StoreProperty(o, k, open_data(v)), Seq::empty());
    assert(has_stored(a, d, o, Key::Name("status"), s));
    assert forall|j: int|
        a.asked.len() <= j < d.asked.len() && written_to((#[trigger] d.asked[j]).op) == Some(
            o,
        ) implies stores_under(d.asked[j].op, Key::Name("status")) || stores_under(
        d.asked[j].op,
        k,
    ) by {
        if j < b.asked.len() {
            assert(c.asked[j] == b.asked[j]);
            assert(d.asked[j] == c.asked[j]);
            assert(written_to(b.asked[j].op) != Some(o));
        } else if j < c.asked.len() {
            assert(d.asked[j] == c.asked[j]);
        }
    }
}

/// The next answer about the record of an element says that it was not settled before.
pub open spec fn first_time(w: World, already: Value) -> bool {
    &&& already.object()
    &&& w.asked.len() < w.answers.len()
    &&& w.answers[w.asked.len() as int] is Value
    &&& w.answers[w.asked.len() as int] != Answer::Value(Value::Bool(true))
}

proof fn lemma_claimed(w: World, already: Value)
    requires
        first_time(w, already),
    ensures
        claimed(w, already).1,
        extends(w, claimed(w, already).0),
        claimed(w, already).0.asked == w.asked.push(
            question(Op::ReadSlot(already, "called"), Seq::empty()),
        ).push(question(Op::WriteSlot(already, "called", Value::Bool(true)), Seq::empty())),
        claimed(w, already).0.strings == w.strings,
{
}

/// A slot was read between two places.
pub open spec fn slot_was(a: World, b: World, o: Value, name: &'static str, v: Value) -> bool {
    learned(a, b, Op::ReadSlot(o, name), Seq::empty(), Answer::Value(v))
}

/// A slot was written between two places.
pub open spec fn slot_becomes(a: World, b: World, o: Value, name: &'static str, v: Value) -> bool {
    told(a, b, Op::WriteSlot(o, name, v), Seq::empty())
}

/// A payload is stored under the index of its element, one element fewer is outstanding, and the
/// last of them resolves with the results.
pub open spec fn recorded_at(
    a: World,
    b: World,
    state: Value,
    results: Value,
    k: int,
    payload: Value,
    resolve: Value,
    left: int,
) -> bool {
    &&& slot_was(a, b, state, "results", results)
    &&& has_stored(a, b, results, Key::Index(k as u64), payload)
    &&& slot_was(a, b, state, "remaining", Value::Num(num::number(left)))
    &&& slot_becomes(a, b, state, "remaining", Value::Num(num::number(left - 1)))
    &&& told(a, b, Op::Call(resolve, Value::Undefined), seq![results]) || left > 1
    &&& left > 1 ==> forall|j: int|
        a.asked.len() <= j < b.asked.len() ==> !((#[trigger] b.asked[j]).op is Call)
}

/// What the answers say of the state of a combinator: the array of results, and how many elements
/// are outstanding. They come at these places.
pub open spec fn state_answers(w: World, at: int, results: Value, left: int) -> bool {
    &&& results.object()
    &&& 1 <= left <= num::COUNT_LIMIT
    &&& at + 3 < w.answers.len()
    &&& w.answers[at] == Answer::Value(results)
    &&& w.answers[at + 2] == Answer::Value(Value::Num(num::number(left)))
}

#[verifier::spinoff_prover]
#[verifier::rlimit(60)]
proof fn lemma_element_recorded(
    w: World,
    args: Seq<Value>,
    payload: Value,
    results: Value,
    k: int,
    left: int,
)
    requires
        args.len() >= 4,
        state_answers(w, w.asked.len() as int, results, left),
        args[1] == Value::Num(num::number(k)),
        0 <= k <= num::COUNT_LIMIT,
    ensures
        ({
            let w1 = element_recorded(w, args, payload).0;
            &&& extends(w, w1)
            &&& recorded_at(w, w1, args[0], results, k, payload, args[3], left)
            &&& forall|x: Value| x != results ==> #[trigger] leaves(w, w1, x)
        }),
{
    num::law_numbers_hold_their_integer(k);
    num::law_numbers_hold_their_integer(left);
    let n = w.asked.len() as int;
    let state = args[0];
    let read = Op::ReadSlot(state, "results");
    let (w1, r) = w.plain(read, Seq::empty());
    assert(r == results);
    let w2 = stored(w1, results, Key::Index(k as u64), payload);
    assert(crate::promise::element_index(args[1]) == k);
    let count = Op::ReadSlot(state, "remaining");
    let (w3, v) = w2.plain(count, Seq::empty());
    assert(w2.asked.len() == n + 2);
    assert(v == Value::Num(num::number(left)));
    let next = Op::WriteSlot(state, "remaining", Value::Num(num::number(left - 1)));
    assert(num::position(left - 1) == num::number(left - 1));
    let w4 = w3.plain(next, Seq::empty()).0;
    let call = Op::Call(args[3], Value::Undefined);
    let w6 = element_recorded(w, args, payload).0;
    let w5 = if left == 1 {
        w4.call(args[3], Value::Undefined, seq![results]).0
    } else {
        w4
    };
    assert(w6 == w5);
    lemma_learned(w, read, Seq::empty());
    lemma_stays_learned(w, w, w1, w6, read, Seq::empty(), Answer::Value(results));
    lemma_stored(w, w1, w6, results, Key::Index(k as u64), payload);
    lemma_learned(w2, count, Seq::empty());
    lemma_stays_learned(w, w2, w3, w6, count, Seq::empty(), Answer::Value(v));
    lemma_learned(w3, next, Seq::empty());
    lemma_stays_told(w, w3, w4, w6, next, Seq::empty());
    if left == 1 {
        assert(w6.asked[w4.asked.len() as int] == question(call, seq![results]));
    }
    assert forall|x: Value| x != results implies #[trigger] leaves(w, w6, x) by {}
}

/// `allSettled`: the first settlement of an element stores an entry under the element's index. The
/// entry has exactly the properties `status` and, where it was fulfilled, `value`, else `reason`.
#[verifier::spinoff_prover]
#[verifier::rlimit(60)]
pub proof fn law_settled_elements_get_an_entry(
    w: World,
    args: Seq<Value>,
    fulfilled: bool,
    entry: Value,
    results: Value,
    k: int,
    left: int,
)
    requires
        args.len() == 5,
        first_time(w, args[2]),
        w.strings.len() < u64::MAX,
        w.asked.len() + 5 < w.answers.len(),
        w.answers[w.asked.len() + 2int] == Answer::Value(entry),
        entry.object(),
        entry != results,
        state_answers(w, w.asked.len() + 5int, results, left),
        args[1] == Value::Num(num::number(k)),
        0 <= k <= num::COUNT_LIMIT,
    ensures
        ({
            let w1 = settled_element(w, args, fulfilled).0;
            &&& is_entry(w, w1, entry, args[4], fulfilled)
            &&& recorded_at(w, w1, args[0], results, k, entry, args[3], left)
        }),
{
    lemma_claimed(w, args[2]);
    let (w1, first) = claimed(w, args[2]);
    let (w2, s) = status_made(w1, args[4], fulfilled);
    assert(s == entry);
    assert(w2.asked.len() == w.asked.len() + 5);
    lemma_status(w1, args[4], fulfilled);
    lemma_element_recorded(w2, args, s, results, k, left);
    let w3 = element_recorded(w2, args, s).0;
    assert(w3 == settled_element(w, args, fulfilled).0);
    assert(leaves(w, w1, entry));
    lemma_entry_kept(w, w1, w2, w3, entry, args[4], fulfilled);
    lemma_recorded_kept(w, w2, w3, args[0], results, k, entry, args[3], left);
}

/// What was recorded is recorded from an earlier place on, if nothing was called in between.
#[verifier::spinoff_prover]
#[verifier::rlimit(60)]
proof fn lemma_recorded_kept(
    a: World,
    b: World,
    c: World,
    state: Value,
    results: Value,
    k: int,
    payload: Value,
    resolve: Value,
    left: int,
)
    requires
        extends(a, b),
        extends(b, c),
        recorded_at(b, c, state, results, k, payload, resolve, left),
        forall|j: int| a.asked.len() <= j < b.asked.len() ==> !((#[trigger] b.asked[j]).op is Call),
    ensures
        recorded_at(a, c, state, results, k, payload, resolve, left),
{
    lemma_stays_learned(
        a,
        b,
        c,
        c,
        Op::ReadSlot(state, "results"),
        Seq::empty(),
        Answer::Value(results),
    );
    lemma_stays_told(
        a,
        b,
        c,
        c,
        Op::StoreProperty(results, Key::Index(k as u64), open_data(payload)),
        Seq::empty(),
    );
    lemma_stays_learned(
        a,
        b,
        c,
        c,
        Op::ReadSlot(state, "remaining"),
        Seq::empty(),
        Answer::Value(Value::Num(num::number(left))),
    );
    lemma_stays_told(
        a,
        b,
        c,
        c,
        Op::WriteSlot(state, "remaining", Value::Num(num::number(left - 1))),
        Seq::empty(),
    );
    if told(b, c, Op::Call(resolve, Value::Undefined), seq![results]) {
        lemma_stays_told(a, b, c, c, Op::Call(resolve, Value::Undefined), seq![results]);
    }
    assert forall|j: int| a.asked.len() <= j < c.asked.len() && left > 1 implies !((
    #[trigger] c.asked[j]).op is Call) by {
        if j < b.asked.len() {
            assert(c.asked[j] == b.asked[j]);
        }
    }
}

/// `all`: the first fulfilment of an element stores its value, as it is, under the element's index,
/// and the last one resolves with the array of values.
pub proof fn law_fulfilled_elements_are_recorded(
    w: World,
    args: Seq<Value>,
    results: Value,
    k: int,
    left: int,
)
    requires
        args.len() == 5,
        first_time(w, args[2]),
        w.asked.len() + 2 < w.answers.len(),
        state_answers(w, w.asked.len() + 2int, results, left),
        args[1] == Value::Num(num::number(k)),
        0 <= k <= num::COUNT_LIMIT,
    ensures
        recorded_at(w, all_element(w, args).0, args[0], results, k, args[4], args[3], left),
{
    lemma_claimed(w, args[2]);
    let w1 = claimed(w, args[2]).0;
    lemma_element_recorded(w1, args, args[4], results, k, left);
    lemma_recorded_kept(w, w1, all_element(w, args).0, args[0], results, k, args[4], args[3], left);
}

/// `any`: the first rejection of an element stores its reason under the element's index, and the
/// last one rejects with an aggregate of the errors; before that nothing is rejected.
#[verifier::spinoff_prover]
#[verifier::rlimit(60)]
pub proof fn law_rejections_add_up(
    w: World,
    args: Seq<Value>,
    errors: Value,
    k: int,
    left: int,
    agg: Value,
)
    requires
        args.len() == 5,
        first_time(w, args[2]),
        args[1] == Value::Num(num::number(k)),
        0 <= k <= num::COUNT_LIMIT,
        1 <= left <= num::COUNT_LIMIT,
        w.asked.len() + 6 < w.answers.len(),
        w.answers[w.asked.len() + 2int] == Answer::Value(errors),
        w.answers[w.asked.len() + 3int] is Value,
        w.answers[w.asked.len() + 4int] == Answer::Value(Value::Num(num::number(left))),
        w.answers[w.asked.len() + 6int] == Answer::Value(agg),
    ensures
        ({
            let w1 = any_rejected(w, args).0;
            &&& slot_was(w, w1, args[0], "errors", errors)
            &&& told(w, w1, Op::Put(errors, Key::Index(k as u64), args[4]), Seq::empty())
            &&& slot_was(w, w1, args[0], "remaining", Value::Num(num::number(left)))
            &&& slot_becomes(w, w1, args[0], "remaining", Value::Num(num::number(left - 1)))
            &&& left == 1 ==> learned(
                w,
                w1,
                Op::NewAggregateError(errors),
                Seq::empty(),
                Answer::Value(agg),
            ) && told(w, w1, Op::Call(args[3], Value::Undefined), seq![agg])
            &&& left > 1 ==> forall|j: int|
                w.asked.len() <= j < w1.asked.len() ==> !((#[trigger] w1.asked[j]).op is Call)
        }),
{
    num::law_numbers_hold_their_integer(k);
    num::law_numbers_hold_their_integer(left);
    lemma_claimed(w, args[2]);
    let state = args[0];
    let w1 = claimed(w, args[2]).0;
    let read = Op::ReadSlot(state, "errors");
    let w2 = w1.plain(read, Seq::empty()).0;
    let put = Op::Put(errors, Key::Index(k as u64), args[4]);
    let w3 = w2.value(put, Seq::empty()).0;
    let count = Op::ReadSlot(state, "remaining");
    let (w4, v) = w3.plain(count, Seq::empty());
    let next = Op::WriteSlot(state, "remaining", Value::Num(num::number(left - 1)));
    assert(num::position(left - 1) == num::number(left - 1));
    let w5 = w4.plain(next, Seq::empty()).0;
    let make = Op::NewAggregateError(errors);
    let w6 = w5.value(make, Seq::empty()).0;
    let call = Op::Call(args[3], Value::Undefined);
    let w7 = w6.call(args[3], Value::Undefined, seq![agg]).0;
    let wf = any_rejected(w, args).0;
    assert(wf == if left == 1 {
        w7
    } else {
        w5
    });
    lemma_learned(w1, read, Seq::empty());
    lemma_stays_learned(w, w1, w2, wf, read, Seq::empty(), Answer::Value(errors));
    lemma_learned(w2, put, Seq::empty());
    lemma_stays_told(w, w2, w3, wf, put, Seq::empty());
    lemma_learned(w3, count, Seq::empty());
    lemma_stays_learned(w, w3, w4, wf, count, Seq::empty(), Answer::Value(v));
    lemma_learned(w4, next, Seq::empty());
    lemma_stays_told(w, w4, w5, wf, next, Seq::empty());
    if left == 1 {
        lemma_learned(w5, make, Seq::empty());
        lemma_stays_learned(w, w5, w6, wf, make, Seq::empty(), Answer::Value(agg));
        assert(wf.asked[w6.asked.len() as int] == question(call, seq![agg]));
    }
}

// Keyed combinators

/// The recording of a keyed element: as in an array of results, and the last one resolves with the
/// object of the values under their keys.
pub open spec fn keyed_recorded_at(
    a: World,
    b: World,
    state: Value,
    values: Value,
    k: int,
    payload: Value,
    left: int,
) -> bool {
    &&& slot_was(a, b, state, "values", values)
    &&& has_stored(a, b, values, Key::Index(k as u64), payload)
    &&& slot_was(a, b, state, "remaining", Value::Num(num::number(left)))
    &&& slot_becomes(a, b, state, "remaining", Value::Num(num::number(left - 1)))
}

#[verifier::spinoff_prover]
#[verifier::rlimit(60)]
proof fn lemma_keyed_recorded(
    w: World,
    args: Seq<Value>,
    payload: Value,
    values: Value,
    k: int,
    left: int,
)
    requires
        args.len() == 5,
        first_time(w, args[2]),
        state_answers(w, w.asked.len() + 2int, values, left),
        args[1] == Value::Num(num::number(k)),
        0 <= k <= num::COUNT_LIMIT,
    ensures
        ({
            let (w1, r) = keyed_recorded(w, args, payload);
            &&& extends(w, w1)
            &&& keyed_recorded_at(w, w1, args[0], values, k, payload, left)
            &&& left > 1 ==> r == Ok::<Value, Value>(Value::Undefined) && forall|j: int|
                w.asked.len() <= j < w1.asked.len() ==> !((#[trigger] w1.asked[j]).op is Call)
            &&& left > 1 ==> forall|x: Value| x != values ==> #[trigger] leaves(w, w1, x)
        }),
{
    num::law_numbers_hold_their_integer(k);
    num::law_numbers_hold_their_integer(left);
    lemma_claimed(w, args[2]);
    let state = args[0];
    let w1 = claimed(w, args[2]).0;
    let read = Op::ReadSlot(state, "values");
    let w2 = w1.plain(read, Seq::empty()).0;
    let w3 = stored(w2, values, Key::Index(k as u64), payload);
    let count = Op::ReadSlot(state, "remaining");
    let (w4, v) = w3.plain(count, Seq::empty());
    let next = Op::WriteSlot(state, "remaining", Value::Num(num::number(left - 1)));
    assert(num::position(left - 1) == num::number(left - 1));
    let w5 = w4.plain(next, Seq::empty()).0;
    let wf = keyed_recorded(w, args, payload).0;
    if left == 1 {
        lemma_keyed_result_extends(w5, state);
    }
    assert(extends(w5, wf));
    lemma_learned(w1, read, Seq::empty());
    lemma_stays_learned(w, w1, w2, wf, read, Seq::empty(), Answer::Value(values));
    lemma_stored(w, w2, wf, values, Key::Index(k as u64), payload);
    lemma_learned(w3, count, Seq::empty());
    lemma_stays_learned(w, w3, w4, wf, count, Seq::empty(), Answer::Value(v));
    lemma_learned(w4, next, Seq::empty());
    lemma_stays_told(w, w4, w5, wf, next, Seq::empty());
    if left > 1 {
        assert forall|x: Value| x != values implies #[trigger] leaves(w, wf, x) by {}
    }
}

proof fn lemma_keyed_result_extends(w: World, state: Value)
    ensures
        extends(w, keyed_result(w, state).0),
{
    let (w1, keys) = slot_read(w, state, "keys");
    let (w2, values) = slot_read(w1, state, "values");
    let (w3, n) = w2.get(keys, Key::Name("length"));
    if n is Ok {
        let (w4, out) = w3.plain(Op::NewWithPrototype(Value::Null), Seq::empty());
        lemma_keyed_from_extends(w4, out, keys, values, crate::promise::count_in(n->Ok_0), 0);
    }
}

proof fn lemma_keyed_from_extends(
    w: World,
    out: Value,
    keys: Value,
    values: Value,
    len: int,
    k: int,
)
    ensures
        extends(w, keyed_from(w, out, keys, values, len, k).0),
    decreases len - k,
{
    if 0 <= k < len {
        let (w1, kv) = w.get(keys, Key::Index(k as u64));
        if kv is Ok {
            let (w2, key) = w1.key(kv->Ok_0);
            if key is Ok {
                let (w3, v) = w2.get(values, Key::Index(k as u64));
                if v is Ok {
                    let w4 = stored(w3, out, Key::Of(key->Ok_0), v->Ok_0);
                    lemma_keyed_from_extends(w4, out, keys, values, len, k + 1);
                }
            }
        }
    }
}

/// `allKeyed`: the first fulfilment of an element stores its value under the element's index;
/// nothing is called while elements are outstanding.
pub proof fn law_keyed_elements_are_recorded(
    w: World,
    args: Seq<Value>,
    values: Value,
    k: int,
    left: int,
)
    requires
        args.len() == 5,
        first_time(w, args[2]),
        state_answers(w, w.asked.len() + 2int, values, left),
        args[1] == Value::Num(num::number(k)),
        0 <= k <= num::COUNT_LIMIT,
    ensures
        ({
            let w1 = keyed_recorded(w, args, args[4]).0;
            &&& keyed_recorded_at(w, w1, args[0], values, k, args[4], left)
            &&& left > 1 ==> forall|j: int|
                w.asked.len() <= j < w1.asked.len() ==> !((#[trigger] w1.asked[j]).op is Call)
        }),
{
    lemma_keyed_recorded(w, args, args[4], values, k, left);
}

/// `allSettledKeyed`: the entry of an element has exactly the properties `status` and, where it was
/// fulfilled, `value`, else `reason`; it is stored under the element's index.
#[verifier::spinoff_prover]
#[verifier::rlimit(60)]
pub proof fn law_keyed_settled_elements_get_an_entry(
    w: World,
    args: Seq<Value>,
    fulfilled: bool,
    entry: Value,
    values: Value,
    k: int,
    left: int,
)
    requires
        args.len() == 5,
        w.strings.len() < u64::MAX,
        w.asked.len() + 3 < w.answers.len(),
        w.answers[w.asked.len() as int] == Answer::Value(entry),
        entry.object(),
        entry != values,
        args[2].object(),
        w.answers[w.asked.len() + 3int] is Value,
        w.answers[w.asked.len() + 3int] != Answer::Value(Value::Bool(true)),
        state_answers(w, w.asked.len() + 5int, values, left),
        left > 1,
        args[1] == Value::Num(num::number(k)),
        0 <= k <= num::COUNT_LIMIT,
    ensures
        ({
            let w1 = keyed_settled(w, args, fulfilled).0;
            &&& is_entry(w, w1, entry, args[4], fulfilled)
            &&& keyed_recorded_at(w, w1, args[0], values, k, entry, left)
        }),
{
    let (w1, s) = status_made(w, args[4], fulfilled);
    assert(s == entry);
    assert(w1.asked.len() == w.asked.len() + 3);
    lemma_status(w, args[4], fulfilled);
    lemma_keyed_recorded(w1, args, s, values, k, left);
    let w2 = keyed_recorded(w1, args, s).0;
    assert(leaves(w, w, entry));
    lemma_entry_kept(w, w, w1, w2, entry, args[4], fulfilled);
    let state = args[0];
    lemma_stays_learned(
        w,
        w1,
        w2,
        w2,
        Op::ReadSlot(state, "values"),
        Seq::empty(),
        Answer::Value(values),
    );
    lemma_stays_told(
        w,
        w1,
        w2,
        w2,
        Op::StoreProperty(values, Key::Index(k as u64), open_data(entry)),
        Seq::empty(),
    );
    lemma_stays_learned(
        w,
        w1,
        w2,
        w2,
        Op::ReadSlot(state, "remaining"),
        Seq::empty(),
        Answer::Value(Value::Num(num::number(left))),
    );
    lemma_stays_told(
        w,
        w1,
        w2,
        w2,
        Op::WriteSlot(state, "remaining", Value::Num(num::number(left - 1))),
        Seq::empty(),
    );
}

/// A value stands in the result under the key that stands at the same index.
pub open spec fn paired(a: World, b: World, out: Value, keys: Value, values: Value, k: int) -> bool {
    exists|key: Value, v: Value|
        {
            &&& #[trigger] has_stored(a, b, out, Key::Of(key), v)
            &&& learned(a, b, Op::Get(values, Key::Index(k as u64)), Seq::empty(), Answer::Value(v))
            &&& key is Str || key is Sym ==> learned(
                a,
                b,
                Op::Get(keys, Key::Index(k as u64)),
                Seq::empty(),
                Answer::Value(key),
            ) || exists|kv: Value| #[trigger]
                learned(a, b, Op::ToKey(kv), Seq::empty(), Answer::Value(key))
        }
}

#[verifier::spinoff_prover]
#[verifier::rlimit(60)]
proof fn lemma_keyed_from(
    a: World,
    w: World,
    out: Value,
    keys: Value,
    values: Value,
    len: int,
    k: int,
)
    requires
        extends(a, w),
        0 <= k,
        keyed_from(w, out, keys, values, len, k).1 is Ok,
        !keyed_from(w, out, keys, values, len, k).0.halted(),
    ensures
        keyed_from(w, out, keys, values, len, k).1 == Ok::<Value, Value>(out),
        forall|j: int|
            k <= j < len ==> #[trigger] paired(
                a,
                keyed_from(w, out, keys, values, len, k).0,
                out,
                keys,
                values,
                j,
            ),
    decreases len - k,
{
    if k < len {
        let wf = keyed_from(w, out, keys, values, len, k).0;
        let getk = Op::Get(keys, Key::Index(k as u64));
        let getv = Op::Get(values, Key::Index(k as u64));
        let (w1, kv) = w.get(keys, Key::Index(k as u64));
        let (w2, key) = w1.key(kv->Ok_0);
        let (w3, v) = w2.get(values, Key::Index(k as u64));
        let w4 = stored(w3, out, Key::Of(key->Ok_0), v->Ok_0);
        lemma_keyed_from_extends(w4, out, keys, values, len, k + 1);
        lemma_learned(w, getk, Seq::empty());
        lemma_stays_learned(a, w, w1, wf, getk, Seq::empty(), Answer::Value(kv->Ok_0));
        lemma_learned(w2, getv, Seq::empty());
        lemma_stays_learned(a, w2, w3, wf, getv, Seq::empty(), Answer::Value(v->Ok_0));
        lemma_stored(a, w3, wf, out, Key::Of(key->Ok_0), v->Ok_0);
        if !(kv->Ok_0 is Str || kv->Ok_0 is Sym) {
            let op = Op::ToKey(kv->Ok_0);
            lemma_learned(w1, op, Seq::empty());
            lemma_stays_learned(a, w1, w2, wf, op, Seq::empty(), Answer::Value(key->Ok_0));
        }
        assert(has_stored(a, wf, out, Key::Of(key->Ok_0), v->Ok_0));
        assert(paired(a, wf, out, keys, values, k));
        lemma_keyed_from(a, w4, out, keys, values, len, k + 1);
    }
}

/// The result of a keyed combinator is a fresh object without a prototype that holds, under each of
/// the keys, the value that was recorded at the same index.
#[verifier::spinoff_prover]
#[verifier::rlimit(60)]
pub proof fn law_keyed_results_pair_keys_with_values(
    w: World,
    state: Value,
    keys: Value,
    values: Value,
    len: int,
    out: Value,
)
    requires
        0 <= len <= num::COUNT_LIMIT,
        out.object(),
        w.asked.len() + 3 < w.answers.len(),
        w.answers[w.asked.len() as int] == Answer::Value(keys),
        w.answers[w.asked.len() + 1int] == Answer::Value(values),
        w.answers[w.asked.len() + 2int] == Answer::Value(Value::Num(num::number(len))),
        w.answers[w.asked.len() + 3int] == Answer::Value(out),
        keyed_result(w, state).1 is Ok,
        !keyed_result(w, state).0.halted(),
    ensures
        ({
            let (w1, r) = keyed_result(w, state);
            &&& r == Ok::<Value, Value>(out)
            &&& exchanged(
                w1,
                w.asked.len() as int,
                Op::ReadSlot(state, "keys"),
                Seq::empty(),
                Answer::Value(keys),
            )
            &&& exchanged(
                w1,
                w.asked.len() + 1int,
                Op::ReadSlot(state, "values"),
                Seq::empty(),
                Answer::Value(values),
            )
            &&& exchanged(
                w1,
                w.asked.len() + 3int,
                Op::NewWithPrototype(Value::Null),
                Seq::empty(),
                Answer::Value(out),
            )
            &&& forall|j: int| 0 <= j < len ==> #[trigger] paired(w, w1, out, keys, values, j)
        }),
{
    num::law_numbers_hold_their_integer(len);
    let n = w.asked.len() as int;
    let w1 = slot_read(w, state, "keys").0;
    let w2 = slot_read(w1, state, "values").0;
    let w3 = w2.get(keys, Key::Name("length")).0;
    let (w4, o) = w3.plain(Op::NewWithPrototype(Value::Null), Seq::empty());
    assert(o == out);
    lemma_keyed_from(w, w4, out, keys, values, len, 0);
    lemma_keyed_from_extends(w4, out, keys, values, len, 0);
    let wf = keyed_result(w, state).0;
    assert(wf.asked[n] == w4.asked[n]);
    assert(wf.asked[n + 1] == w4.asked[n + 1]);
    assert(wf.asked[n + 3] == w4.asked[n + 3]);
}

/// Attaching an element: its value is read under its key and handed to `C.resolve`, and the promise
/// that comes back gets two reactions that carry the state, the index of the element, and the record
/// of its settlement, fresh and not yet settled. One element more is outstanding. For `allKeyed` a
/// rejection rejects the whole.
pub proof fn law_elements_are_attached(
    w: World,
    ctor: Value,
    resolve: Value,
    input: Value,
    key: Value,
    k: int,
    state: Value,
    c: Capability,
    settled: bool,
    v: Value,
    left: int,
    p: Value,
    already: Value,
    on_fulfilled: Value,
    on_rejected: Value,
    then: Value,
)
    requires
        0 <= k <= num::COUNT_LIMIT,
        0 <= left < num::COUNT_LIMIT,
        w.asked.len() + 9 < w.answers.len(),
        w.answers[w.asked.len() as int] == Answer::Value(v),
        w.answers[w.asked.len() + 1int] == Answer::Value(Value::Num(num::number(left))),
        w.answers[w.asked.len() + 3int] == Answer::Value(p),
        w.answers[w.asked.len() + 4int] == Answer::Value(already),
        w.answers[w.asked.len() + 6int] == Answer::Value(on_fulfilled),
        settled ==> w.answers[w.asked.len() + 7int] == Answer::Value(on_rejected)
            && w.answers[w.asked.len() + 8int] == Answer::Value(then),
        !settled ==> w.answers[w.asked.len() + 7int] == Answer::Value(then) && on_rejected
            == c.reject,
    ensures
        ({
            let w1 = element_attached(w, ctor, resolve, input, key, k, state, c, settled).0;
            let n = w.asked.len() as int;
            let bound = seq![state, Value::Num(num::number(k)), already, c.resolve];
            &&& w1.asked[n] == question(Op::Get(input, Key::Of(key)), Seq::empty())
            &&& w1.asked[n + 1] == question(Op::ReadSlot(state, "remaining"), Seq::empty())
            &&& w1.asked[n + 2] == question(
                Op::WriteSlot(state, "remaining", Value::Num(num::number(left + 1))),
                Seq::empty(),
            )
            &&& w1.asked[n + 3] == question(Op::Call(resolve, ctor), seq![v])
            &&& w1.asked[n + 4] == question(Op::NewObject, Seq::empty())
            &&& w1.asked[n + 5] == question(
                Op::WriteSlot(already, "called", Value::Bool(false)),
                Seq::empty(),
            )
            &&& w1.asked[n + 6] == question(
                Op::NewBound(
                    if settled {
                        Native::KeyedFulfilled
                    } else {
                        Native::KeyedElement
                    },
                    1,
                ),
                bound,
            )
            &&& settled ==> w1.asked[n + 7] == question(
                Op::NewBound(Native::KeyedRejected, 1),
                bound,
            )
            &&& w1.asked.last() == question(Op::Call(then, p), seq![on_fulfilled, on_rejected])
        }),
{
    num::law_numbers_hold_their_integer(left);
    assert(num::position(k) == num::number(k));
    assert(num::position(left + 1) == num::number(left + 1));
}

// Capabilities and jobs

/// The executor of a capability keeps the two functions that it is called with, once: a second call
/// throws and keeps the first ones.
#[verifier::spinoff_prover]
#[verifier::rlimit(60)]
pub proof fn law_executors_keep_the_first_functions(w: World, cap: Value, resolve: Value, reject: Value)
    requires
        w.asked.len() + 3 < w.answers.len(),
        w.answers[w.asked.len() as int] is Value,
        w.answers[w.asked.len() + 1int] is Value,
    ensures
        ({
            let (w1, r) = executor_called(w, seq![cap, resolve, reject]);
            let n = w.asked.len() as int;
            let fresh = w.answers[n] == Answer::Value(Value::Undefined) && w.answers[n + 1]
                == Answer::Value(Value::Undefined);
            &&& fresh ==> r is Ok && slot_becomes(w, w1, cap, "resolve", resolve) && slot_becomes(
                w,
                w1,
                cap,
                "reject",
                reject,
            )
            &&& !fresh ==> r is Err && forall|j: int|
                n <= j < w1.asked.len() ==> !((#[trigger] w1.asked[j]).op is WriteSlot)
        }),
{
    let args = seq![cap, resolve, reject];
    let (w1, a) = slot_read(w, cap, "resolve");
    let (w2, b) = slot_read(w1, cap, "reject");
    let (wf, r) = executor_called(w, args);
    if a == Value::Undefined && b == Value::Undefined {
        let set = Op::WriteSlot(cap, "resolve", resolve);
        let set2 = Op::WriteSlot(cap, "reject", reject);
        let w3 = w2.plain(set, Seq::empty()).0;
        lemma_learned(w2, set, Seq::empty());
        lemma_learned(w3, set2, Seq::empty());
        lemma_stays_told(w, w2, w3, wf, set, Seq::empty());
        lemma_stays_told(w, w3, wf, wf, set2, Seq::empty());
    }
}

/// A capability is the promise that the constructor made, with the functions that its executor was
/// called with; both can be called.
pub proof fn law_capabilities_hold_what_the_executor_got(
    w: World,
    ctor: Value,
    cap: Value,
    executor: Value,
    promise: Value,
    resolve: Value,
    reject: Value,
)
    requires
        ctor.callable(),
        w.asked.len() + 4 < w.answers.len(),
        w.answers[w.asked.len() as int] == Answer::Value(cap),
        w.answers[w.asked.len() + 1int] == Answer::Value(executor),
        w.answers[w.asked.len() + 2int] == Answer::Value(promise),
        w.answers[w.asked.len() + 3int] == Answer::Value(resolve),
        w.answers[w.asked.len() + 4int] == Answer::Value(reject),
    ensures
        ({
            let (w1, r) = capability_made(w, ctor);
            let n = w.asked.len() as int;
            &&& match r {
                Ok(c) => {
                    &&& c.promise == promise && c.resolve == resolve && c.reject == reject
                    &&& resolve.callable() && reject.callable()
                },
                Err(_) => !(resolve.callable() && reject.callable()),
            }
            &&& w1.asked[n] == question(Op::NewObject, Seq::empty())
            &&& w1.asked[n + 1] == question(
                Op::NewBound(Native::CapabilityExecutor, 2),
                seq![cap],
            )
            &&& w1.asked[n + 2] == question(Op::Construct(ctor, ctor), seq![executor])
            &&& w1.asked[n + 3] == question(Op::ReadSlot(cap, "resolve"), Seq::empty())
            &&& w1.asked[n + 4] == question(Op::ReadSlot(cap, "reject"), Seq::empty())
        }),
{
}

/// A thenable job calls `then` on the thenable with the two functions; where that throws, the
/// second is called with what was thrown, else neither.
pub proof fn law_thenable_jobs_call_then(
    w: World,
    then: Value,
    thenable: Value,
    resolve: Value,
    reject: Value,
)
    requires
        w.asked.len() < w.answers.len(),
    ensures
        ({
            let w1 = thenable_job(w, seq![then, thenable, resolve, reject]);
            let q = question(Op::Call(then, thenable), seq![resolve, reject]);
            match w.answers[w.asked.len() as int] {
                Answer::Value(_) => w1.asked == w.asked.push(q),
                Answer::Throw(e) => w1.asked == w.asked.push(q).push(
                    question(Op::Call(reject, Value::Undefined), seq![e]),
                ),
                _ => true,
            }
        }),
{
}

/// A combinator that is done resolves its promise; where that throws it rejects it instead.
pub proof fn law_failed_resolutions_reject(w: World, c: Capability, v: Value)
    requires
        w.asked.len() < w.answers.len(),
    ensures
        ({
            let w1 = resolved_or_rejected(w, c, v);
            let q = question(Op::Call(c.resolve, Value::Undefined), seq![v]);
            match w.answers[w.asked.len() as int] {
                Answer::Value(_) => w1.asked == w.asked.push(q),
                Answer::Throw(e) => w1.asked == w.asked.push(q).push(
                    question(Op::Call(c.reject, Value::Undefined), seq![e]),
                ),
                _ => true,
            }
        }),
{
}

/// `finally` calls its function without arguments, resolves what comes back through `C`, and passes
/// the settlement on unchanged: the next promise in line gets a function with the first settlement
/// bound, one that gives it or one that throws it. What the function throws is passed on at once.
pub proof fn law_finally_passes_the_settlement_on(
    w: World,
    on_finally: Value,
    c: Value,
    settlement: Value,
    pass: Native,
    result: Value,
    resolve: Value,
    p: Value,
    thunk: Value,
    then: Value,
)
    requires
        w.asked.len() + 5 < w.answers.len(),
        w.answers[w.asked.len() as int] == Answer::Value(result),
        w.answers[w.asked.len() + 1int] == Answer::Value(resolve),
        w.answers[w.asked.len() + 2int] == Answer::Value(p),
        w.answers[w.asked.len() + 3int] == Answer::Value(thunk),
        w.answers[w.asked.len() + 4int] == Answer::Value(then),
    ensures
        ({
            let (w1, r) = finally_run(w, seq![on_finally, c, settlement], pass);
            let n = w.asked.len() as int;
            &&& w1.asked[n] == question(Op::Call(on_finally, Value::Undefined), Seq::empty())
            &&& w1.asked[n + 1] == question(Op::Get(c, Key::Name("resolve")), Seq::empty())
            &&& w1.asked[n + 2] == question(Op::Call(resolve, c), seq![result])
            &&& w1.asked[n + 3] == question(Op::NewBound(pass, 0), seq![settlement])
            &&& w1.asked[n + 4] == question(Op::Get(p, Key::Name("then")), Seq::empty())
            &&& w1.asked[n + 5] == question(Op::Call(then, p), seq![thunk])
            &&& w1.asked.len() == n + 6
            &&& w.answers[n + 5] matches Answer::Value(v) ==> r == Ok::<Value, Value>(v)
            &&& w.answers[n + 5] matches Answer::Throw(e) ==> r == Err::<Value, Value>(e)
        }),
{
}

} // verus!
