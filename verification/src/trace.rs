//! What a transcript says of the objects it speaks of.
//!
//! A law about an operation on an array, say, speaks of what the array holds before and after. An
//! ordinary array is followed through a transcript here: a write changes what it holds, and a read
//! is answered from what it holds.
use vstd::prelude::*;
use crate::interp::{Answer, Key, Op, Question, Value, World};
use crate::num;

verus! {

/// `b` is `a` with more questions asked and more strings entered.
pub open spec fn extends(a: World, b: World) -> bool {
    &&& a.answers == b.answers
    &&& a.asked.len() <= b.asked.len()
    &&& forall|j: int| 0 <= j < a.asked.len() ==> #[trigger] b.asked[j] == a.asked[j]
    &&& a.strings.len() <= b.strings.len()
    &&& forall|j: int| 0 <= j < a.strings.len() ==> #[trigger] b.strings[j] == a.strings[j]
}

/// A question of which nothing but the work and the listed values is told.
pub open spec fn question(op: Op, list: Seq<Value>) -> Question {
    Question { op, list, state: None }
}

/// The question at place `j` of the transcript, and the answer it got.
pub open spec fn exchanged(w: World, j: int, op: Op, list: Seq<Value>, a: Answer) -> bool {
    &&& 0 <= j < w.asked.len()
    &&& j < w.answers.len()
    &&& w.asked[j] == question(op, list)
    &&& w.answers[j] == a
}

/// Between `a` and `b` a question was asked, and got the answer.
pub open spec fn learned(a: World, b: World, op: Op, list: Seq<Value>, x: Answer) -> bool {
    exists|j: int| a.asked.len() <= j && #[trigger] exchanged(b, j, op, list, x)
}

/// Between `a` and `b` the engine was told to do something.
pub open spec fn told(a: World, b: World, op: Op, list: Seq<Value>) -> bool {
    exists|j: int|
        a.asked.len() <= j < b.asked.len() && #[trigger] b.asked[j] == question(op, list)
}

/// A question that is asked and answered at once.
pub proof fn lemma_learned(a: World, op: Op, list: Seq<Value>)
    requires
        a.asked.len() < a.answers.len(),
    ensures
        extends(a, a.ask(op, list).0),
        exchanged(
            a.ask(op, list).0,
            a.asked.len() as int,
            op,
            list,
            a.answers[a.asked.len() as int],
        ),
        learned(a, a.ask(op, list).0, op, list, a.answers[a.asked.len() as int]),
        told(a, a.ask(op, list).0, op, list),
{
    let b = a.ask(op, list).0;
    assert(b.asked[a.asked.len() as int] == question(op, list));
    assert(exchanged(b, a.asked.len() as int, op, list, a.answers[a.asked.len() as int]));
}

/// What was learned on the way stays learned.
pub proof fn lemma_stays_learned(a: World, b: World, c: World, d: World, op: Op, list: Seq<Value>, x: Answer)
    requires
        extends(a, b),
        learned(b, c, op, list, x),
        extends(c, d),
    ensures
        learned(a, d, op, list, x),
{
    let j = choose|j: int| b.asked.len() <= j && #[trigger] exchanged(c, j, op, list, x);
    assert(d.asked[j] == c.asked[j]);
    assert(exchanged(d, j, op, list, x));
}

/// What was told on the way stays told.
pub proof fn lemma_stays_told(a: World, b: World, c: World, d: World, op: Op, list: Seq<Value>)
    requires
        extends(a, b),
        told(b, c, op, list),
        extends(c, d),
    ensures
        told(a, d, op, list),
{
    let j = choose|j: int|
        b.asked.len() <= j < c.asked.len() && #[trigger] c.asked[j] == question(op, list);
    assert(d.asked[j] == c.asked[j]);
}

/// Elements by index; none for a hole.
pub type Elements = Seq<Option<Value>>;

/// The elements of an array without holes.
pub open spec fn filled_with(s: Seq<Value>) -> Elements {
    Seq::new(s.len(), |k: int| Some(s[k]))
}

/// What stands at an index, which may lie outside.
pub open spec fn element(e: Elements, k: int) -> Option<Value> {
    if 0 <= k < e.len() {
        e[k]
    } else {
        None
    }
}

/// The elements cut off, or filled up with holes, at a length.
pub open spec fn resized(e: Elements, n: int) -> Elements {
    Seq::new(
        if n < 0 {
            0
        } else {
            n as nat
        },
        |k: int| element(e, k),
    )
}

/// The elements with a value stored at an index, which grow to hold it.
pub open spec fn stored(e: Elements, k: int, v: Value) -> Elements {
    let n = if k < e.len() {
        e.len()
    } else {
        (k + 1) as nat
    };
    Seq::new(
        n,
        |j: int|
            if j == k {
                Some(v)
            } else {
                element(e, j)
            },
    )
}

/// The elements with a hole at an index.
pub open spec fn hollowed(e: Elements, k: int) -> Elements {
    if 0 <= k < e.len() {
        e.update(k, None)
    } else {
        e
    }
}

/// What a question does to the elements of array `o`.
pub open spec fn effect(o: Value, e: Elements, q: Question) -> Elements {
    match q.op {
        Op::Put(p, Key::Index(k), v) => if p == o {
            stored(e, k as int, v)
        } else {
            e
        },
        Op::CreateData(p, Key::Index(k), v) => if p == o {
            stored(e, k as int, v)
        } else {
            e
        },
        Op::SetFor(p, Key::Index(k), v, _) => if p == o {
            stored(e, k as int, v)
        } else {
            e
        },
        Op::Remove(p, Key::Index(k)) => if p == o {
            hollowed(e, k as int)
        } else {
            e
        },
        Op::Put(p, key, Value::Num(n)) => if p == o && key == Key::Name("length") {
            resized(e, num::magnitude(n))
        } else {
            e
        },
        Op::StoreProperty(p, key, d) => if p == o && key == Key::Name("length") && d.value is Num {
            resized(e, num::magnitude(d.value->Num_0))
        } else {
            e
        },
        _ => e,
    }
}

/// The answer that array `o` gives to a question while it holds `e`.
pub open spec fn fits(o: Value, e: Elements, q: Question, a: Answer) -> bool {
    match q.op {
        Op::Get(p, Key::Index(k)) => p == o ==> a == Answer::Value(
            match element(e, k as int) {
                Some(v) => v,
                None => Value::Undefined,
            },
        ),
        Op::Has(p, Key::Index(k)) => p == o ==> a == Answer::Value(
            Value::Bool(element(e, k as int) is Some),
        ),
        Op::Get(p, key) => p == o && key == Key::Name("length") ==> a == Answer::Value(
            Value::Num(num::number(e.len() as int)),
        ),
        _ => true,
    }
}

/// The object that a kind of work changes.
pub open spec fn written_to(op: Op) -> Option<Value> {
    match op {
        Op::Put(p, _, _) => Some(p),
        Op::CreateData(p, _, _) => Some(p),
        Op::SetFor(p, _, _, _) => Some(p),
        Op::Remove(p, _) => Some(p),
        Op::StoreProperty(p, _, _) => Some(p),
        _ => None,
    }
}

/// `b` is `a` with more questions, none of which changes what `x` holds.
pub open spec fn spares(a: World, b: World, x: Value) -> bool {
    &&& extends(a, b)
    &&& forall|j: int|
        a.asked.len() <= j < b.asked.len() ==> written_to((#[trigger] b.asked[j]).op) != Some(x)
}

/// `b` is `a` with more questions, which change no object but `o`.
pub open spec fn writes_only(a: World, b: World, o: Value) -> bool {
    &&& extends(a, b)
    &&& forall|j: int|
        a.asked.len() <= j < b.asked.len() ==> written_to((#[trigger] b.asked[j]).op) is None
            || written_to(b.asked[j].op) == Some(o)
}

/// `b` is `a` with more questions, none of which changes what an object holds.
pub open spec fn quietly(a: World, b: World) -> bool {
    &&& extends(a, b)
    &&& forall|j: int| a.asked.len() <= j < b.asked.len() ==> written_to((#[trigger] b.asked[j]).op) is None
}

/// An array, what it holds when the transcript has reached a place, and that place.
pub struct Watched {
    pub array: Value,
    pub start: Elements,
    pub from: nat,
}

impl Watched {
    /// What the array holds once the first `n` questions have been asked.
    pub open spec fn after(self, asked: Seq<Question>, n: int) -> Elements
        decreases n,
    {
        if n <= self.from {
            self.start
        } else {
            effect(self.array, self.after(asked, n - 1), asked[n - 1])
        }
    }

    /// What the array holds at the end of a transcript.
    pub open spec fn holds(self, w: World) -> Elements {
        self.after(w.asked, w.asked.len() as int)
    }

    /// Every question was answered from what the array held at that time.
    pub open spec fn faithful(self, w: World) -> bool {
        forall|j: int|
            self.from <= j < w.asked.len() && j < w.answers.len() ==> fits(
                self.array,
                self.after(w.asked, j),
                #[trigger] w.asked[j],
                w.answers[j],
            )
    }

    pub proof fn lemma_after_agrees(self, a: Seq<Question>, b: Seq<Question>, n: int)
        requires
            n <= a.len(),
            n <= b.len(),
            forall|j: int| 0 <= j < n ==> #[trigger] a[j] == b[j],
        ensures
            self.after(a, n) == self.after(b, n),
        decreases n,
    {
        if n > self.from {
            self.lemma_after_agrees(a, b, n - 1);
            assert(a[n - 1] == b[n - 1]);
        }
    }

    /// A faithful transcript was faithful before.
    pub proof fn lemma_earlier(self, a: World, b: World)
        requires
            extends(a, b),
            self.faithful(b),
        ensures
            self.faithful(a),
    {
        assert forall|j: int|
            self.from <= j < a.asked.len() && j < a.answers.len() implies fits(
            self.array,
            self.after(a.asked, j),
            #[trigger] a.asked[j],
            a.answers[j],
        ) by {
            assert(b.asked[j] == a.asked[j]);
            self.lemma_after_agrees(a.asked, b.asked, j);
        }
    }

    /// What an array holds stays while nothing is written to it.
    pub proof fn lemma_quiet(self, a: World, b: World)
        requires
            self.from <= a.asked.len(),
            spares(a, b, self.array),
        ensures
            self.holds(b) == self.holds(a),
    {
        self.lemma_quiet_up_to(a, b, b.asked.len() as int);
    }

    proof fn lemma_quiet_up_to(self, a: World, b: World, n: int)
        requires
            self.from <= a.asked.len() <= n <= b.asked.len(),
            spares(a, b, self.array),
        ensures
            self.after(b.asked, n) == self.holds(a),
        decreases n,
    {
        if n > a.asked.len() {
            self.lemma_quiet_up_to(a, b, n - 1);
            assert(written_to(b.asked[n - 1].op) != Some(self.array));
        } else {
            self.lemma_after_agrees(a.asked, b.asked, n);
        }
    }

    /// One question more.
    pub proof fn lemma_step(self, a: World, op: Op, list: Seq<Value>)
        requires
            self.from <= a.asked.len() < a.answers.len(),
        ensures
            extends(a, a.ask(op, list).0),
            self.holds(a.ask(op, list).0) == effect(self.array, self.holds(a), question(op, list)),
            self.faithful(a.ask(op, list).0) ==> self.faithful(a) && fits(
                self.array,
                self.holds(a),
                question(op, list),
                a.answers[a.asked.len() as int],
            ),
    {
        let b = a.ask(op, list).0;
        assert(b.asked == a.asked.push(question(op, list)));
        self.lemma_after_agrees(a.asked, b.asked, a.asked.len() as int);
        assert(b.asked[a.asked.len() as int] == question(op, list));
        if self.faithful(b) {
            self.lemma_earlier(a, b);
        }
    }
}

} // verus!
