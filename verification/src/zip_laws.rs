//! What `Iterator.zip` and `Iterator.concat` make of their inputs.
use vstd::prelude::*;
use crate::feeds::{lemma_stepped_extends, Feed};
use crate::interp::{Answer, Key, Op, Value, World};
use crate::iterator::stepped;
use crate::realm::stored;
use crate::regexp_laws::{has_stored, lemma_stored};
use crate::trace::{extends, learned, lemma_learned, lemma_stays_learned, question};
use crate::zip::{
    concat_advanced, concat_stepped, done_read, keyed_stored, strict_ended, zip_advanced, zip_mode,
    zip_result, zip_round, zip_stepped, Concat, Zip, ZipMode,
};

verus! {

/// The inputs of a zip are feeds, each with its own iterator.
pub open spec fn fed(z: Zip, feeds: Seq<Feed>) -> bool {
    &&& z.wf()
    &&& feeds.len() == z.iters.len()
    &&& z.iters.no_duplicates()
    &&& forall|i: int|
        0 <= i < feeds.len() ==> {
            &&& (#[trigger] feeds[i]).wf()
            &&& feeds[i].source == z.iters[i]
            &&& feeds[i].next == z.nexts[i]
        }
}

/// Every open input has given so many items: one more than `k` before input `j`.
pub open spec fn level(w: World, z: Zip, feeds: Seq<Feed>, k: nat, j: int) -> bool {
    forall|i: int|
        0 <= i < feeds.len() && !z.closed[i] ==> {
            &&& (#[trigger] feeds[i]).from <= w.asked.len()
            &&& feeds[i].taken(w) == if i < j {
                k + 1
            } else {
                k
            }
            &&& k <= feeds[i].items.len()
        }
}

/// What input `i` contributes to row `k`: its item, or its padding where it has no more.
pub open spec fn cell(z: Zip, feeds: Seq<Feed>, k: nat, i: int) -> Value {
    if !z.closed[i] && k < feeds[i].items.len() {
        feeds[i].items[k as int]
    } else {
        z.pad[i]
    }
}

/// Every transcript of an input is faithful.
pub open spec fn all_faithful(feeds: Seq<Feed>, w: World) -> bool {
    forall|i: int| 0 <= i < feeds.len() ==> (#[trigger] feeds[i]).faithful(w)
}

/// A step of another iterator takes nothing from a feed.
proof fn lemma_other(feed: Feed, w: World, source: Value, next: Value)
    requires
        source != feed.source,
        feed.from <= w.asked.len(),
        stepped(w, source, next).1 is Ok,
    ensures
        feed.taken(stepped(w, source, next).0) == feed.taken(w),
{
    let (w1, res) = w.call(next, source, Seq::empty());
    feed.lemma_step(w, Op::Call(next, source), Seq::empty());
    let (w2, done) = w1.get(res->Ok_0, Key::Name("done"));
    feed.lemma_step(w1, Op::Get(res->Ok_0, Key::Name("done")), Seq::empty());
    if !w2.truthy(done->Ok_0) {
        feed.lemma_step(w2, Op::Get(res->Ok_0, Key::Name("value")), Seq::empty());
    }
}

/// A strict zip whose first input has ended gives no row.
proof fn lemma_strict_ended(w: World, z: Zip, k: int)
    ensures
        strict_ended(w, z, k).2 matches Ok(r) ==> r is None,
    decreases z.iters.len() - k,
{
    if 0 <= k < z.iters.len() {
        let (w1, d) = done_read(w, z.iters[k], z.nexts[k]);
        if d is Ok && d->Ok_0 {
            lemma_strict_ended(w1, z.marked(k), k + 1);
        }
    }
}

#[verifier::spinoff_prover]
#[verifier::rlimit(60)]
proof fn lemma_round_extends(w: World, z: Zip, j: int, values: Seq<Value>)
    ensures
        zip_round(w, z, j, values).2 matches Ok(Some(_)) ==> extends(
            w,
            zip_round(w, z, j, values).0,
        ),
    decreases z.iters.len() - j,
{
    if 0 <= j < z.iters.len() {
        if z.closed[j] {
            lemma_round_extends(w, z, j + 1, values.push(z.pad[j]));
        } else {
            let (w1, step) = stepped(w, z.iters[j], z.nexts[j]);
            lemma_stepped_extends(w, z.iters[j], z.nexts[j]);
            if let Ok(Some(v)) = step {
                lemma_round_extends(w1, z, j + 1, values.push(v));
            } else if step is Ok && z.mode == ZipMode::Longest {
                lemma_round_extends(w1, z.marked(j), j + 1, values.push(z.pad[j]));
            } else if step is Ok {
                lemma_strict_ended(w1, z.marked(0), 1);
            }
        }
    }
}

#[verifier::spinoff_prover]
#[verifier::rlimit(60)]
proof fn lemma_round(
    w: World,
    z0: Zip,
    z: Zip,
    j: int,
    values: Seq<Value>,
    feeds: Seq<Feed>,
    k: nat,
)
    requires
        fed(z0, feeds),
        fed(z, feeds),
        z.pad == z0.pad,
        z.mode == z0.mode,
        0 <= j <= z.iters.len(),
        values.len() == j,
        forall|i: int| 0 <= i < j ==> #[trigger] values[i] == cell(z0, feeds, k, i),
        forall|i: int| j <= i < z.closed.len() ==> #[trigger] z.closed[i] == z0.closed[i],
        level(w, z, feeds, k, j),
        zip_round(w, z, j, values).2 matches Ok(Some(_)),
        all_faithful(feeds, zip_round(w, z, j, values).0),
    ensures
        ({
            let v = zip_round(w, z, j, values).2->Ok_0->0;
            &&& v.len() == z.iters.len()
            &&& forall|i: int| 0 <= i < v.len() ==> #[trigger] v[i] == cell(z0, feeds, k, i)
            &&& z.mode != ZipMode::Longest ==> forall|i: int|
                j <= i < z.iters.len() && !z0.closed[i] ==> k < (#[trigger] feeds[i]).items.len()
        }),
    decreases z.iters.len() - j,
{
    if j < z.iters.len() {
        let wf = zip_round(w, z, j, values).0;
        if z.closed[j] {
            assert(values.push(z.pad[j])[j] == cell(z0, feeds, k, j));
            lemma_round(w, z0, z, j + 1, values.push(z.pad[j]), feeds, k);
        } else {
            let (w1, step) = stepped(w, z.iters[j], z.nexts[j]);
            lemma_stepped_extends(w, z.iters[j], z.nexts[j]);
            let feed = feeds[j];
            let (z1, x) = if step->Ok_0 is Some {
                (z, step->Ok_0->0)
            } else {
                (z.marked(j), z.pad[j])
            };
            lemma_strict_ended(w1, z.marked(0), 1);
            lemma_round_extends(w1, z1, j + 1, values.push(x));
            feed.lemma_earlier(w1, wf);
            feed.lemma_stepped(w);
            assert forall|i: int| 0 <= i < feeds.len() && !z1.closed[i] implies {
                &&& (#[trigger] feeds[i]).from <= w1.asked.len()
                &&& feeds[i].taken(w1) == if i < j + 1 {
                    k + 1
                } else {
                    k
                }
                &&& k <= feeds[i].items.len()
            } by {
                assert(!z.closed[i]);
                if i != j {
                    lemma_other(feeds[i], w, z.iters[j], z.nexts[j]);
                }
            }
            assert(x == cell(z0, feeds, k, j));
            lemma_round(w1, z0, z1, j + 1, values.push(x), feeds, k);
        }
    }
}

/// Row `k` of a zip holds the item at `k` of each input, in the order of the inputs. An input that has
/// no more items is stood in for by its padding, and then only in `longest` mode; in the other modes a
/// row comes only where each input has an item for it.
pub proof fn law_rows_hold_the_items(w: World, z: Zip, feeds: Seq<Feed>, k: nat)
    requires
        fed(z, feeds),
        level(w, z, feeds, k, 0),
        zip_stepped(w, z).2 matches Ok(Some(_)),
        all_faithful(feeds, zip_stepped(w, z).0),
    ensures
        ({
            let v = zip_stepped(w, z).2->Ok_0->0;
            &&& v.len() == z.iters.len()
            &&& forall|i: int| 0 <= i < v.len() ==> #[trigger] v[i] == cell(z, feeds, k, i)
            &&& z.mode != ZipMode::Longest ==> forall|i: int|
                0 <= i < z.iters.len() && !z.closed[i] ==> k < (#[trigger] feeds[i]).items.len()
        }),
{
    lemma_round(w, z, z, 0, Seq::empty(), feeds, k);
}

proof fn lemma_keyed_stored_extends(w: World, o: Value, keys: Seq<Value>, values: Seq<Value>, j: int)
    ensures
        extends(w, keyed_stored(w, o, keys, values, j)),
    decreases values.len() - j,
{
    if 0 <= j < values.len() && j < keys.len() {
        lemma_keyed_stored_extends(
            stored(w, o, Key::Of(keys[j]), values[j]),
            o,
            keys,
            values,
            j + 1,
        );
    }
}

proof fn lemma_keyed_stored(
    a: World,
    w: World,
    o: Value,
    keys: Seq<Value>,
    values: Seq<Value>,
    j: int,
)
    requires
        extends(a, w),
        0 <= j <= values.len(),
        keys.len() == values.len(),
        !keyed_stored(w, o, keys, values, j).halted(),
    ensures
        forall|i: int|
            j <= i < values.len() ==> has_stored(
                a,
                keyed_stored(w, o, keys, values, j),
                o,
                Key::Of(keys[i]),
                #[trigger] values[i],
            ),
    decreases values.len() - j,
{
    if j < values.len() {
        let w1 = stored(w, o, Key::Of(keys[j]), values[j]);
        lemma_keyed_stored_extends(w1, o, keys, values, j + 1);
        lemma_stored(a, w, keyed_stored(w, o, keys, values, j), o, Key::Of(keys[j]), values[j]);
        lemma_keyed_stored(a, w1, o, keys, values, j + 1);
    }
}

/// A row is handed out as an array of its values, or, in a keyed zip, as a fresh object without a
/// prototype that holds each value under the key of its input.
#[verifier::spinoff_prover]
#[verifier::rlimit(60)]
pub proof fn law_rows_are_handed_out(w: World, z: Zip, values: Seq<Value>)
    requires
        z.wf(),
        values.len() == z.iters.len(),
        !zip_result(w, z, values).0.halted(),
        zip_result(w, z, values).1.object(),
    ensures
        ({
            let (w1, r) = zip_result(w, z, values);
            &&& !z.keyed ==> learned(w, w1, Op::NewArray, values, Answer::Value(r))
            &&& z.keyed ==> learned(
                w,
                w1,
                Op::NewWithPrototype(Value::Null),
                Seq::empty(),
                Answer::Value(r),
            ) && forall|i: int|
                0 <= i < values.len() ==> has_stored(
                    w,
                    w1,
                    r,
                    Key::Of(z.keys[i]),
                    #[trigger] values[i],
                )
        }),
{
    let (wf, r) = zip_result(w, z, values);
    if z.keyed {
        let op = Op::NewWithPrototype(Value::Null);
        let (w1, o) = w.plain(op, Seq::empty());
        lemma_keyed_stored_extends(w1, o, z.keys, values, 0);
        lemma_learned(w, op, Seq::empty());
        lemma_stays_learned(w, w, w1, wf, op, Seq::empty(), Answer::Value(o));
        lemma_keyed_stored(w, w1, o, z.keys, values, 0);
    } else {
        lemma_learned(w, Op::NewArray, values);
    }
}

/// `next` of a zip hands a row out in a result that is not done, and ends where there is no row.
pub proof fn law_zip_next_wraps_the_row(w: World, z: Zip)
    requires
        !z.running,
        !z.finished,
    ensures
        ({
            let entered = Zip { started: true, running: true, ..z };
            let (w1, z1, row) = zip_stepped(w, entered);
            let (w2, z2, r) = zip_advanced(w, z);
            match row {
                Err(e) => r == Err::<Value, Value>(e) && z2.finished,
                Ok(None) => z2.finished && (!w1.halted() ==> w2.asked == w1.asked.push(
                    question(Op::NewIterResult(Value::Undefined, true), Seq::empty()),
                )),
                Ok(Some(values)) => {
                    let (w3, v) = zip_result(w1, z1, values);
                    z2.finished == z1.finished && (!w3.halted() ==> w2.asked == w3.asked.push(
                        question(Op::NewIterResult(v, false), Seq::empty()),
                    ))
                },
            }
        }),
{
}

/// `concat` gives what its open iterator gives. Where that is done, or none is open, it opens the next
/// item with the method read for it, and ends behind the last one.
pub proof fn law_concat_drains_item_by_item(w: World, c: Concat)
    requires
        c.wf(),
    ensures
        c.current != Value::Undefined ==> {
            let (w1, step) = stepped(w, c.current, c.current_next);
            match step {
                Ok(Some(v)) => concat_stepped(w, c) == (w1, c, Ok::<Option<Value>, Value>(Some(v))),
                Ok(None) => concat_stepped(w, c) == concat_stepped(
                    w1,
                    Concat { current: Value::Undefined, ..c },
                ),
                Err(e) => concat_stepped(w, c).2 == Err::<Option<Value>, Value>(e),
            }
        },
        c.current == Value::Undefined && c.index == c.items.len() ==> concat_stepped(w, c) == (
            w,
            c,
            Ok::<Option<Value>, Value>(None),
        ),
        c.current == Value::Undefined && c.index < c.items.len() ==> {
            let (w1, it) = w.call(c.methods[c.index], c.items[c.index], Seq::empty());
            match it {
                Err(e) => concat_stepped(w, c).2 == Err::<Option<Value>, Value>(e),
                Ok(it) => {
                    let (w2, next) = w1.get(it, Key::Name("next"));
                    &&& it.object() && next is Ok ==> concat_stepped(w, c) == concat_stepped(
                        w2,
                        Concat { current: it, current_next: next->Ok_0, index: c.index + 1, ..c },
                    )
                    &&& !it.object() ==> concat_stepped(w, c).2 is Err
                },
            }
        },
{
    reveal_with_fuel(concat_stepped, 2);
}

/// `next` of a concat hands out what a step gives, and ends where it gives nothing.
pub proof fn law_concat_next_wraps_the_step(w: World, c: Concat)
    requires
        !c.running,
        !c.done,
    ensures
        ({
            let (w1, c1, step) = concat_stepped(w, Concat { started: true, running: true, ..c });
            let (w2, c2, r) = concat_advanced(w, c);
            match step {
                Err(e) => r == Err::<Value, Value>(e) && c2.done,
                Ok(None) => c2.done && (!w1.halted() ==> w2.asked == w1.asked.push(
                    question(Op::NewIterResult(Value::Undefined, true), Seq::empty()),
                )),
                Ok(Some(v)) => c2.done == c1.done && (!w1.halted() ==> w2.asked == w1.asked.push(
                    question(Op::NewIterResult(v, false), Seq::empty()),
                )),
            }
        }),
{
}

/// The modes of a zip go by their names; without options, or without a name, it stops with the
/// shortest input.
pub proof fn law_modes_go_by_their_names(w: World, options: Value, v: Value)
    requires
        options.object(),
        w.asked.len() < w.answers.len(),
        w.answers[w.asked.len() as int] == Answer::Value(v),
    ensures
        zip_mode(w, Value::Undefined).1 == Ok::<ZipMode, Value>(ZipMode::Shortest),
        v == Value::Undefined ==> zip_mode(w, options).1 == Ok::<ZipMode, Value>(ZipMode::Shortest),
        v is Str && w.units(v->Str_0) == seq![
            'l' as u16, 'o' as u16, 'n' as u16, 'g' as u16, 'e' as u16, 's' as u16, 't' as u16,
        ] ==> zip_mode(w, options).1 == Ok::<ZipMode, Value>(ZipMode::Longest),
        v is Str && w.units(v->Str_0) == seq![
            's' as u16, 't' as u16, 'r' as u16, 'i' as u16, 'c' as u16, 't' as u16,
        ] ==> zip_mode(w, options).1 == Ok::<ZipMode, Value>(ZipMode::Strict),
        v is Str && w.units(v->Str_0) == seq![
            's' as u16, 'h' as u16, 'o' as u16, 'r' as u16, 't' as u16, 'e' as u16, 's' as u16,
            't' as u16,
        ] ==> zip_mode(w, options).1 == Ok::<ZipMode, Value>(ZipMode::Shortest),
        !(v is Str) && v != Value::Undefined ==> zip_mode(w, options).1 is Err,
{
    let longest = seq![
        'l' as u16, 'o' as u16, 'n' as u16, 'g' as u16, 'e' as u16, 's' as u16, 't' as u16,
    ];
    let strict = seq![
        's' as u16, 't' as u16, 'r' as u16, 'i' as u16, 'c' as u16, 't' as u16,
    ];
    let shortest = seq![
        's' as u16, 'h' as u16, 'o' as u16, 'r' as u16, 't' as u16, 'e' as u16, 's' as u16,
        't' as u16,
    ];
    assert(longest =~= seq![0x6cu16, 0x6f, 0x6e, 0x67, 0x65, 0x73, 0x74]);
    assert(strict =~= seq![0x73u16, 0x74, 0x72, 0x69, 0x63, 0x74]);
    assert(shortest =~= seq![0x73u16, 0x68, 0x6f, 0x72, 0x74, 0x65, 0x73, 0x74]);
    assert(longest.len() == 7 && strict.len() == 6 && shortest.len() == 8);
}

} // verus!
