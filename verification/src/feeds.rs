//! Iterators that give the elements of a list, and functions that give the same value for the same
//! arguments, as a transcript shows them.
use vstd::prelude::*;
use crate::interp::{Answer, Key, Op, Question, Value, World};
use crate::iterator::stepped;
use crate::num;
use crate::trace::{extends, question};

verus! {

/// An iterator that gives the listed items, one with each call of its `next`, and then is done.
pub struct Feed {
    pub source: Value,
    pub next: Value,
    pub items: Seq<Value>,
    /// The result object of each call, in order; the last one says that the iterator is done.
    pub results: Seq<Value>,
    /// The place in the transcript from which on it is followed.
    pub from: nat,
}

impl Feed {
    /// Each call has its own result object.
    pub open spec fn wf(self) -> bool {
        &&& self.source.object()
        &&& self.next.callable()
        &&& self.results.len() == self.items.len() + 1
        &&& forall|k: int| 0 <= k < self.results.len() ==> (#[trigger] self.results[k]).object()
        &&& self.results.no_duplicates()
        &&& self.items.len() < num::COUNT_LIMIT
    }

    /// How many times `next` was called among the first `n` questions.
    pub open spec fn drawn(self, asked: Seq<Question>, n: int) -> nat
        decreases n,
    {
        if n <= self.from {
            0
        } else if asked[n - 1].op == Op::Call(self.next, self.source) {
            self.drawn(asked, n - 1) + 1
        } else {
            self.drawn(asked, n - 1)
        }
    }

    /// How many times `next` was called so far.
    pub open spec fn taken(self, w: World) -> nat {
        self.drawn(w.asked, w.asked.len() as int)
    }

    /// The answer that the iterator and its result objects give.
    pub open spec fn fits(self, k: nat, q: Question, a: Answer) -> bool {
        &&& q.op == Op::Call(self.next, self.source) && k < self.results.len() ==> a
            == Answer::Value(self.results[k as int])
        &&& forall|j: int|
            0 <= j < self.results.len() && q.op == Op::Get(
                #[trigger] self.results[j],
                Key::Name("done"),
            ) ==> a == Answer::Value(Value::Bool(j >= self.items.len()))
        &&& forall|j: int|
            0 <= j < self.items.len() && q.op == Op::Get(
                #[trigger] self.results[j],
                Key::Name("value"),
            ) ==> a == Answer::Value(self.items[j])
    }

    /// The transcript shows the iterator at work.
    pub open spec fn faithful(self, w: World) -> bool {
        forall|j: int|
            self.from <= j < w.asked.len() && j < w.answers.len() ==> self.fits(
                self.drawn(w.asked, j),
                #[trigger] w.asked[j],
                w.answers[j],
            )
    }

    pub proof fn lemma_drawn_agrees(self, a: Seq<Question>, b: Seq<Question>, n: int)
        requires
            n <= a.len(),
            n <= b.len(),
            forall|j: int| 0 <= j < n ==> #[trigger] a[j] == b[j],
        ensures
            self.drawn(a, n) == self.drawn(b, n),
        decreases n,
    {
        if n > self.from {
            self.lemma_drawn_agrees(a, b, n - 1);
            assert(a[n - 1] == b[n - 1]);
        }
    }

    pub proof fn lemma_earlier(self, a: World, b: World)
        requires
            extends(a, b),
            self.faithful(b),
        ensures
            self.faithful(a),
    {
        assert forall|j: int|
            self.from <= j < a.asked.len() && j < a.answers.len() implies self.fits(
            self.drawn(a.asked, j),
            #[trigger] a.asked[j],
            a.answers[j],
        ) by {
            assert(b.asked[j] == a.asked[j]);
            self.lemma_drawn_agrees(a.asked, b.asked, j);
        }
    }

    /// One question more.
    pub proof fn lemma_step(self, a: World, op: Op, list: Seq<Value>)
        requires
            self.from <= a.asked.len() < a.answers.len(),
        ensures
            extends(a, a.ask(op, list).0),
            self.taken(a.ask(op, list).0) == self.taken(a) + if op == Op::Call(
                self.next,
                self.source,
            ) {
                1nat
            } else {
                0nat
            },
            self.faithful(a.ask(op, list).0) ==> self.faithful(a) && self.fits(
                self.taken(a),
                question(op, list),
                a.answers[a.asked.len() as int],
            ),
    {
        let b = a.ask(op, list).0;
        assert(b.asked == a.asked.push(question(op, list)));
        self.lemma_drawn_agrees(a.asked, b.asked, a.asked.len() as int);
        assert(b.asked[a.asked.len() as int] == question(op, list));
        if self.faithful(b) {
            self.lemma_earlier(a, b);
        }
    }

    /// A step of the iterator gives the next item, or nothing behind the last.
    pub proof fn lemma_stepped(self, w: World)
        requires
            self.wf(),
            self.from <= w.asked.len(),
            self.taken(w) <= self.items.len(),
            stepped(w, self.source, self.next).1 is Ok,
            self.faithful(stepped(w, self.source, self.next).0),
        ensures
            extends(w, stepped(w, self.source, self.next).0),
            stepped(w, self.source, self.next).0.strings == w.strings,
            self.faithful(w),
            stepped(w, self.source, self.next).1->Ok_0 == if self.taken(w) < self.items.len() {
                Some(self.items[self.taken(w) as int])
            } else {
                None
            },
            self.taken(stepped(w, self.source, self.next).0) == self.taken(w) + 1,
            stepped(w, self.source, self.next).0.asked.len() > w.asked.len(),
    {
        let k = self.taken(w) as int;
        let call = Op::Call(self.next, self.source);
        let (w1, res) = w.call(self.next, self.source, Seq::empty());
        let r = res->Ok_0;
        let (w2, done) = w1.get(r, Key::Name("done"));
        let wf = stepped(w, self.source, self.next).0;
        self.lemma_step(w, call, Seq::empty());
        self.lemma_step(w1, Op::Get(r, Key::Name("done")), Seq::empty());
        if w2.truthy(done->Ok_0) {
            self.lemma_earlier(w1, wf);
        } else {
            self.lemma_step(w2, Op::Get(r, Key::Name("value")), Seq::empty());
            self.lemma_earlier(w2, wf);
            self.lemma_earlier(w1, wf);
        }
        assert(r == self.results[k]);
    }
}

/// Questions are only added by a step.
pub proof fn lemma_stepped_extends(w: World, source: Value, next: Value)
    ensures
        extends(w, stepped(w, source, next).0),
        stepped(w, source, next).0.strings == w.strings,
        stepped(w, source, next).1 is Ok ==> stepped(w, source, next).0.asked.len() > w.asked.len(),
{
}

/// A function of the engine that, called on one receiver, gives the same value for the same
/// arguments.
pub struct Steady {
    pub f: Value,
    pub this: Value,
    pub gives: spec_fn(Seq<Value>) -> Value,
}

impl Steady {
    /// Every call of the function that was answered gave its value.
    pub open spec fn faithful(self, w: World) -> bool {
        forall|j: int|
            0 <= j < w.asked.len() && j < w.answers.len() ==> ((#[trigger] w.asked[j]).op == Op::Call(
                self.f,
                self.this,
            ) ==> w.answers[j] == Answer::Value((self.gives)(w.asked[j].list)))
    }

    pub proof fn lemma_earlier(self, a: World, b: World)
        requires
            extends(a, b),
            self.faithful(b),
        ensures
            self.faithful(a),
    {
        assert forall|j: int|
            0 <= j < a.asked.len() && j < a.answers.len() && (#[trigger] a.asked[j]).op == Op::Call(
                self.f,
                self.this,
            ) implies a.answers[j] == Answer::Value((self.gives)(a.asked[j].list)) by {
            assert(b.asked[j] == a.asked[j]);
        }
    }

    pub proof fn lemma_call(self, w: World, list: Seq<Value>)
        requires
            w.call(self.f, self.this, list).1 is Ok,
            self.faithful(w.call(self.f, self.this, list).0),
        ensures
            extends(w, w.call(self.f, self.this, list).0),
            w.call(self.f, self.this, list).1->Ok_0 == (self.gives)(list),
    {
        let b = w.call(self.f, self.this, list).0;
        assert(b.asked[w.asked.len() as int] == question(Op::Call(self.f, self.this), list));
    }
}

/// The Number that a count is handed out as.
pub open spec fn counter(k: int) -> Value {
    Value::Num(num::number(k))
}

} // verus!
