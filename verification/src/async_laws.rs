//! How `Array.fromAsync` and generators go from step to step.
use vstd::prelude::*;
use crate::feeds::counter;
use crate::from_async::{ran, FromAsyncArrayLike, FromAsyncIter, FromAsyncStage, Suspend};
use crate::generator::{async_reacted, generator_driven};
use crate::interp::{Answer, Brand, Key, Op, Resume, Value, World};
use crate::num;
use crate::trace::question;

verus! {

/// The question, put behind what was asked.
pub open spec fn asking(w: World, op: Op, list: Seq<Value>) -> World {
    World { asked: w.asked.push(question(op, list)), ..w }
}

/// An awaited element of an array-like source is handed to the mapper with its index, where there is
/// one, and what that gives is awaited in turn; without one it is stored at its index, as a mapped
/// one is. Then the next element is read and awaited. A rejection ends it all with the reason.
pub proof fn law_elements_are_stored_one_by_one(
    w: World,
    s: FromAsyncArrayLike,
    v: Value,
    e: Value,
    x: Value,
)
    requires
        s.index < s.length <= num::MAX_SAFE,
        w.asked.len() + 1 < w.answers.len(),
        w.answers[w.asked.len() as int] is Value,
        w.answers[w.asked.len() + 1int] == Answer::Value(x),
    ensures
        ({
            let value = FromAsyncStage::ArrayLikeValue(s);
            let mapped = FromAsyncStage::ArrayLikeMapped(s);
            let next = FromAsyncArrayLike { index: (s.index + 1) as u64, ..s };
            let store = asking(w, Op::CreateData(s.array, Key::Index(s.index), v), Seq::empty());
            let done = ran(w, mapped, Resume::Next(v));
            &&& !s.mapper.callable() ==> ran(w, value, Resume::Next(v)) == done
            &&& s.mapper.callable() ==> ran(w, value, Resume::Next(v)) == (
                asking(w, Op::Call(s.mapper, s.this_arg), seq![v, counter(s.index as int)]),
                mapped,
                Suspend::Await(w.answers[w.asked.len() as int]->Value_0),
            )
            &&& next.index < s.length ==> done == (
                asking(store, Op::Get(s.source, Key::Index(next.index)), Seq::empty()),
                FromAsyncStage::ArrayLikeValue(next),
                Suspend::Await(x),
            )
            &&& next.index == s.length ==> done == (
                asking(
                    store,
                    Op::Put(s.array, Key::Name("length"), Value::Num(num::number(s.length as int))),
                    Seq::empty(),
                ),
                FromAsyncStage::Done,
                Suspend::Done(s.array),
            )
            &&& ran(w, value, Resume::Throw(e)) == (w, FromAsyncStage::Done, Suspend::Throw(e))
            &&& ran(w, mapped, Resume::Throw(e)) == (w, FromAsyncStage::Done, Suspend::Throw(e))
        }),
{
}

/// An awaited result of an asynchronous iterator: where it is done, the array gets its length and is
/// the outcome. Otherwise its value is mapped and awaited, or stored at the index, and the next result
/// is asked for. A mapped value that is awaited is stored in the same way.
pub proof fn law_iterated_values_are_stored_one_by_one(
    w: World,
    s: FromAsyncIter,
    result: Value,
    done: Value,
    v: Value,
)
    requires
        !s.from_sync,
        s.index + 1 < num::MAX_SAFE,
        result.object(),
        w.asked.len() + 3 < w.answers.len(),
        w.answers[w.asked.len() as int] == Answer::Value(done),
        w.answers[w.asked.len() + 1int] == Answer::Value(v),
        w.answers[w.asked.len() + 2int] is Value,
        w.answers[w.asked.len() + 3int] is Value,
    ensures
        ({
            let n = w.asked.len() as int;
            let stage = FromAsyncStage::IteratorResult(s);
            let next = FromAsyncIter { index: (s.index + 1) as u64, ..s };
            let w1 = asking(w, Op::Get(result, Key::Name("done")), Seq::empty());
            let w2 = asking(w1, Op::Get(result, Key::Name("value")), Seq::empty());
            let r = ran(w, stage, Resume::Next(result));
            &&& w.truthy(done) ==> r == (
                asking(
                    w1,
                    Op::Put(s.array, Key::Name("length"), Value::Num(num::number(s.index as int))),
                    Seq::empty(),
                ),
                FromAsyncStage::Done,
                Suspend::Done(s.array),
            )
            &&& !w.truthy(done) && s.mapper.callable() ==> r == (
                asking(w2, Op::Call(s.mapper, s.this_arg), seq![v, counter(s.index as int)]),
                FromAsyncStage::IteratorMapped(s),
                Suspend::Await(w.answers[n + 2]->Value_0),
            )
            &&& !w.truthy(done) && !s.mapper.callable() ==> r == (
                asking(
                    asking(w2, Op::CreateData(s.array, Key::Index(s.index), v), Seq::empty()),
                    Op::Call(s.next, s.iterator),
                    Seq::empty(),
                ),
                FromAsyncStage::IteratorResult(next),
                Suspend::Await(w.answers[n + 3]->Value_0),
            )
        }),
{
    assert(w.asked.push(question(Op::Get(result, Key::Name("done")), Seq::empty())).len()
        == w.asked.len() + 1);
}

/// A mapped value that was awaited is stored at the index, and the next result is asked for.
pub proof fn law_mapped_values_are_stored(w: World, s: FromAsyncIter, v: Value)
    requires
        !s.from_sync,
        s.index + 1 < num::MAX_SAFE,
        w.asked.len() + 1 < w.answers.len(),
        w.answers[w.asked.len() as int] is Value,
        w.answers[w.asked.len() + 1int] is Value,
    ensures
        ran(w, FromAsyncStage::IteratorMapped(s), Resume::Next(v)) == (
            asking(
                asking(w, Op::CreateData(s.array, Key::Index(s.index), v), Seq::empty()),
                Op::Call(s.next, s.iterator),
                Seq::empty(),
            ),
            FromAsyncStage::IteratorResult(FromAsyncIter { index: (s.index + 1) as u64, ..s }),
            Suspend::Await(w.answers[w.asked.len() + 1int]->Value_0),
        ),
{
}

/// A generator that is driven is resumed with the signal. What it yields comes in a result that is not
/// done, what it returns in one that is, and what it throws is thrown. One that has finished gives a
/// done result, with the value of a `return`, or throws what it is told to throw.
pub proof fn law_generators_are_driven(
    w: World,
    this: Value,
    signal: Resume,
    kind: int,
    v: Value,
)
    requires
        this.object(),
        w.asked.len() + 2 < w.answers.len(),
        w.answers[w.asked.len() as int] == Answer::Value(Value::Bool(true)),
        w.answers[w.asked.len() + 1int] == Answer::Value(Value::Bool(false)),
        0 <= kind <= 3,
        w.answers[w.asked.len() + 2int] == Answer::List(seq![counter(kind), v]),
    ensures
        ({
            let (w1, r) = generator_driven(w, this, signal);
            let w3 = asking(
                asking(
                    asking(w, Op::HasBrand(this, Brand::GeneratorData), Seq::empty()),
                    Op::IsFinished(this),
                    Seq::empty(),
                ),
                Op::ResumeGenerator(this, signal),
                Seq::empty(),
            );
            &&& kind == 0 ==> w1 == asking(w3, Op::NewIterResult(v, false), Seq::empty())
            &&& kind == 1 && v.object() ==> w1 == w3 && r == Ok::<Value, Value>(v)
            &&& kind == 2 ==> w1 == asking(w3, Op::NewIterResult(v, true), Seq::empty())
            &&& kind == 3 ==> w1 == w3 && r == Err::<Value, Value>(v)
        }),
{
    num::law_numbers_hold_their_integer(kind);
    let l = seq![counter(kind), v];
    assert(l[0] == counter(kind) && l[1] == v);
    num::law_integers_round_trip(kind, num::number(kind));
}

/// A finished generator runs no more.
pub proof fn law_finished_generators_rest(w: World, this: Value, v: Value)
    requires
        this.object(),
        w.asked.len() + 1 < w.answers.len(),
        w.answers[w.asked.len() as int] == Answer::Value(Value::Bool(true)),
        w.answers[w.asked.len() + 1int] == Answer::Value(Value::Bool(true)),
    ensures
        ({
            let w2 = asking(
                asking(w, Op::HasBrand(this, Brand::GeneratorData), Seq::empty()),
                Op::IsFinished(this),
                Seq::empty(),
            );
            &&& generator_driven(w, this, Resume::Next(v)).0 == asking(
                w2,
                Op::NewIterResult(Value::Undefined, true),
                Seq::empty(),
            )
            &&& generator_driven(w, this, Resume::Return(v)).0 == asking(
                w2,
                Op::NewIterResult(v, true),
                Seq::empty(),
            )
            &&& generator_driven(w, this, Resume::Throw(v)) == (w2, Err::<Value, Value>(v))
        }),
{
}

/// The promise that an async function awaits goes on with it: with the value where it was fulfilled,
/// with a throw of the reason where it was rejected.
pub proof fn law_awaits_resume_with_the_settlement(w: World, f: Value, v: Value)
    requires
        f.object(),
        !w.halted(),
    ensures
        async_reacted(w, seq![f, v], true) == asking(
            w,
            Op::DriveAsync(f, Resume::Next(v)),
            Seq::empty(),
        ),
        async_reacted(w, seq![f, v], false) == asking(
            w,
            Op::DriveAsync(f, Resume::Throw(v)),
            Seq::empty(),
        ),
{
    assert(seq![f, v][0] == f && seq![f, v][1] == v);
}

} // verus!
