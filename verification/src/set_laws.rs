//! What the tests and walks of `Set` and `Map` say of their members.
use vstd::prelude::*;
use crate::collections::Slots;
use crate::equality::canonical_key;
use crate::feeds::{Feed, Steady};
use crate::interp::{Answer, Op, Question, SlotRead, Value, World};
use crate::set_methods::{
    added, ends_on, kept_from, key_stepped, keyed, other_has, visited, walked, KeyAction,
};
use crate::trace::{extends, lemma_learned, lemma_stays_told, question, told};

verus! {

/// A Map or Set as the engine answers for it: its slots by position, none for a deleted entry, and
/// whether it holds a key.
pub struct Members {
    pub coll: Value,
    pub slots: Slots,
    pub holds: spec_fn(Value) -> bool,
}

impl Members {
    /// The answers that the collection gives.
    pub open spec fn fits(self, q: Question, a: Answer) -> bool {
        match q.op {
            Op::SlotAt(c, p) => c == self.coll ==> if p >= self.slots.len() {
                a == Answer::Value(Value::Undefined)
            } else {
                a == Answer::List(
                    match self.slots[p as int] {
                        Some(e) => seq![e.0, e.1],
                        None => Seq::empty(),
                    },
                )
            },
            Op::HoldsKey(c, k) => c == self.coll ==> a == Answer::Value(Value::Bool((self.holds)(k))),
            _ => true,
        }
    }

    /// Every question about the collection was answered so.
    pub open spec fn faithful(self, w: World) -> bool {
        forall|j: int|
            0 <= j < w.asked.len() && j < w.answers.len() ==> self.fits(
                #[trigger] w.asked[j],
                w.answers[j],
            )
    }

    pub proof fn lemma_earlier(self, a: World, b: World)
        requires
            extends(a, b),
            self.faithful(b),
        ensures
            self.faithful(a),
    {
        assert forall|j: int| 0 <= j < a.asked.len() && j < a.answers.len() implies self.fits(
            #[trigger] a.asked[j],
            a.answers[j],
        ) by {
            assert(b.asked[j] == a.asked[j]);
        }
    }

    /// What a slot reads as, where the question was answered.
    pub proof fn lemma_slot(self, w: World, p: u64)
        requires
            w.asked.len() < w.answers.len(),
            self.faithful(w.slot(self.coll, p).0),
        ensures
            extends(w, w.slot(self.coll, p).0),
            w.slot(self.coll, p).1 == if p >= self.slots.len() {
                SlotRead::End
            } else {
                match self.slots[p as int] {
                    Some(e) => SlotRead::Live(e.0, e.1),
                    None => SlotRead::Deleted,
                }
            },
    {
        let op = Op::SlotAt(self.coll, p);
        let b = w.ask(op, Seq::empty()).0;
        assert(b.asked[w.asked.len() as int] == question(op, Seq::empty()));
        if p < self.slots.len() {
            if let Some(e) = self.slots[p as int] {
                assert(seq![e.0, e.1].len() == 2);
            }
        }
    }

    pub proof fn lemma_holds(self, w: World, k: Value)
        requires
            w.asked.len() < w.answers.len(),
            self.faithful(w.yes(Op::HoldsKey(self.coll, k)).0),
        ensures
            extends(w, w.yes(Op::HoldsKey(self.coll, k)).0),
            w.yes(Op::HoldsKey(self.coll, k)).1 == (self.holds)(k),
    {
        let op = Op::HoldsKey(self.coll, k);
        let b = w.ask(op, Seq::empty()).0;
        assert(b.asked[w.asked.len() as int] == question(op, Seq::empty()));
    }
}

/// The key of a live slot.
pub open spec fn key_of(s: Option<(Value, Value)>) -> Value {
    match s {
        Some(e) => e.0,
        None => Value::Undefined,
    }
}

/// The value of a live slot.
pub open spec fn value_of(s: Option<(Value, Value)>) -> Value {
    match s {
        Some(e) => e.1,
        None => Value::Undefined,
    }
}

/// Whether the other collection has a key, by its `has`.
pub open spec fn had(w: World, test: Steady, k: Value) -> bool {
    w.truthy((test.gives)(seq![k]))
}

/// The live keys from `p` on that the other has, added behind what there is.
pub open spec fn shared_from(w: World, m: Members, test: Steady, p: int, acc: Slots) -> Slots
    decreases m.slots.len() - p,
{
    if p < 0 || p >= m.slots.len() {
        acc
    } else {
        match m.slots[p] {
            Some(e) => shared_from(
                w,
                m,
                test,
                p + 1,
                if had(w, test, e.0) {
                    added(acc, e.0)
                } else {
                    acc
                },
            ),
            None => shared_from(w, m, test, p + 1, acc),
        }
    }
}

proof fn lemma_shared_same(w: World, w1: World, m: Members, test: Steady, p: int, acc: Slots)
    requires
        w.strings == w1.strings,
    ensures
        shared_from(w, m, test, p, acc) == shared_from(w1, m, test, p, acc),
    decreases m.slots.len() - p,
{
    if 0 <= p < m.slots.len() {
        match m.slots[p] {
            Some(e) => lemma_shared_same(
                w,
                w1,
                m,
                test,
                p + 1,
                if had(w, test, e.0) {
                    added(acc, e.0)
                } else {
                    acc
                },
            ),
            None => lemma_shared_same(w, w1, m, test, p + 1, acc),
        }
    }
}

proof fn lemma_walked_extends(
    w: World,
    this: Value,
    test: Value,
    other: Value,
    p: int,
    acc: Slots,
    stop: Option<bool>,
)
    ensures
        extends(w, walked(w, this, test, other, p, acc, stop).0),
    decreases w.left(),
{
    let (w1, slot) = w.slot(this, p as u64);
    match slot {
        SlotRead::End => {},
        SlotRead::Deleted => {
            if p < u64::MAX {
                lemma_walked_extends(w1, this, test, other, p + 1, acc, stop);
            }
        },
        SlotRead::Live(k, _) => {
            let (w2, b) = other_has(w1, test, other, k);
            if b is Ok && !ends_on(stop, b->Ok_0) && p < u64::MAX {
                let acc = if b->Ok_0 {
                    added(acc, k)
                } else {
                    acc
                };
                lemma_walked_extends(w2, this, test, other, p + 1, acc, stop);
            }
        },
    }
}

/// Whether the slot at a position is live with a key that the other has, or has not.
pub open spec fn answers_as(w: World, m: Members, test: Steady, p: int, b: bool) -> bool {
    0 <= p < m.slots.len() && m.slots[p] is Some && had(w, test, key_of(m.slots[p])) == b
}

/// Walking the members of a set through the `has` of another: without a stop, the members that the
/// other has are collected in their order. With one, the walk gives nothing exactly where a member
/// gets that answer; so a subset is one of which the other has every member, and a disjoint set one
/// of which it has none.
#[verifier::spinoff_prover]
#[verifier::rlimit(60)]
pub proof fn law_walks_ask_for_every_member(
    w: World,
    m: Members,
    test: Steady,
    p: int,
    acc: Slots,
    stop: Option<bool>,
)
    requires
        0 <= p <= m.slots.len() < u64::MAX,
        walked(w, m.coll, test.f, test.this, p, acc, stop).1 is Ok,
        !walked(w, m.coll, test.f, test.this, p, acc, stop).0.halted(),
        m.faithful(walked(w, m.coll, test.f, test.this, p, acc, stop).0),
        test.faithful(walked(w, m.coll, test.f, test.this, p, acc, stop).0),
    ensures
        ({
            let r = walked(w, m.coll, test.f, test.this, p, acc, stop).1->Ok_0;
            match stop {
                None => r == Some(shared_from(w, m, test, p, acc)),
                Some(b) => (r is None) == exists|q: int| p <= q && #[trigger] answers_as(w, m, test, q, b),
            }
        }),
    decreases w.left(),
{
    let wf = walked(w, m.coll, test.f, test.this, p, acc, stop).0;
    let (w1, slot) = w.slot(m.coll, p as u64);
    lemma_walked_extends(w, m.coll, test.f, test.this, p, acc, stop);
    assert(w.asked.len() < w.answers.len());
    match slot {
        SlotRead::End => {
            m.lemma_slot(w, p as u64);
        },
        SlotRead::Deleted => {
            lemma_walked_extends(w1, m.coll, test.f, test.this, p + 1, acc, stop);
            m.lemma_earlier(w1, wf);
            m.lemma_slot(w, p as u64);
            law_walks_ask_for_every_member(w1, m, test, p + 1, acc, stop);
            lemma_shared_same(w, w1, m, test, p + 1, acc);
            if let Some(b) = stop {
                lemma_same_answers(w, w1, m, test, p, b);
            }
        },
        SlotRead::Live(k, v) => {
            let (w2, b) = other_has(w1, test.f, test.this, k);
            let acc1 = if b->Ok_0 {
                added(acc, k)
            } else {
                acc
            };
            if !ends_on(stop, b->Ok_0) {
                lemma_walked_extends(w2, m.coll, test.f, test.this, p + 1, acc1, stop);
            }
            m.lemma_earlier(w1, wf);
            test.lemma_earlier(w2, wf);
            test.lemma_call(w1, seq![k]);
            m.lemma_slot(w, p as u64);
            assert(b->Ok_0 == had(w, test, k));
            if !ends_on(stop, b->Ok_0) {
                law_walks_ask_for_every_member(w2, m, test, p + 1, acc1, stop);
                lemma_shared_same(w, w2, m, test, p + 1, acc1);
                if let Some(x) = stop {
                    lemma_same_answers(w, w2, m, test, p, x);
                }
            } else {
                assert(answers_as(w, m, test, p, stop->0));
            }
        },
    }
}

proof fn lemma_same_answers(w: World, w1: World, m: Members, test: Steady, p: int, b: bool)
    requires
        w.strings == w1.strings,
        !answers_as(w, m, test, p, b),
    ensures
        (exists|q: int| p <= q && #[trigger] answers_as(w, m, test, q, b)) == (exists|q: int|
            p + 1 <= q && #[trigger] answers_as(w1, m, test, q, b)),
{
    assert forall|q: int| answers_as(w, m, test, q, b) == answers_as(w1, m, test, q, b) by {}
    if exists|q: int| p <= q && #[trigger] answers_as(w, m, test, q, b) {
        let q = choose|q: int| p <= q && #[trigger] answers_as(w, m, test, q, b);
        assert(answers_as(w1, m, test, q, b));
    }
    if exists|q: int| p + 1 <= q && #[trigger] answers_as(w1, m, test, q, b) {
        let q = choose|q: int| p + 1 <= q && #[trigger] answers_as(w1, m, test, q, b);
        assert(answers_as(w, m, test, q, b));
    }
}

// Keys of the other

proof fn lemma_key_stepped(feed: Feed, w: World)
    requires
        feed.wf(),
        feed.from <= w.asked.len(),
        feed.taken(w) <= feed.items.len(),
        key_stepped(w, feed.source, feed.next).1 is Ok,
        feed.faithful(key_stepped(w, feed.source, feed.next).0),
    ensures
        extends(w, key_stepped(w, feed.source, feed.next).0),
        key_stepped(w, feed.source, feed.next).1->Ok_0 == if feed.taken(w) < feed.items.len() {
            Some(canonical_key(feed.items[feed.taken(w) as int]))
        } else {
            None
        },
        feed.taken(key_stepped(w, feed.source, feed.next).0) == feed.taken(w) + 1,
{
    assert(crate::iterator::stepped(w, feed.source, feed.next).0 == key_stepped(
        w,
        feed.source,
        feed.next,
    ).0);
    feed.lemma_stepped(w);
}

proof fn lemma_keyed_extends(
    w: World,
    this: Value,
    iter: Value,
    next: Value,
    acc: Slots,
    action: KeyAction,
)
    ensures
        action == KeyAction::EndAbsent || action == KeyAction::EndHeld ==> extends(
            w,
            keyed(w, this, iter, next, acc, action).0,
        ),
    decreases w.left(),
{
    let (w1, step) = key_stepped(w, iter, next);
    if let Ok(Some(k)) = step {
        if action == KeyAction::EndAbsent || action == KeyAction::EndHeld {
            let (w2, held) = w1.yes(Op::HoldsKey(this, k));
            if held == (action == KeyAction::EndAbsent) {
                lemma_keyed_extends(w2, this, iter, next, acc, action);
            }
        }
    }
}

/// Going through the keys of another set: the walk that ends at a key that is not held gives nothing
/// exactly where there is such a key, and the one that ends at a key that is held exactly where there
/// is one of those; so a superset holds every key, and a disjoint set none. Keys count with minus zero
/// as zero.
#[verifier::spinoff_prover]
#[verifier::rlimit(60)]
pub proof fn law_keys_of_the_other_are_looked_up(
    w: World,
    m: Members,
    feed: Feed,
    acc: Slots,
    ends_held: bool,
)
    requires
        feed.wf(),
        feed.from <= w.asked.len(),
        feed.taken(w) <= feed.items.len(),
        ({
            let action = if ends_held {
                KeyAction::EndHeld
            } else {
                KeyAction::EndAbsent
            };
            let (wf, r) = keyed(w, m.coll, feed.source, feed.next, acc, action);
            r is Ok && !wf.halted() && m.faithful(wf) && feed.faithful(wf)
        }),
    ensures
        ({
            let action = if ends_held {
                KeyAction::EndHeld
            } else {
                KeyAction::EndAbsent
            };
            let r = keyed(w, m.coll, feed.source, feed.next, acc, action).1->Ok_0;
            (r is None) == exists|j: int|
                feed.taken(w) <= j < feed.items.len() && (m.holds)(
                    canonical_key(#[trigger] feed.items[j]),
                ) == ends_held
        }),
    decreases w.left(),
{
    let action = if ends_held {
        KeyAction::EndHeld
    } else {
        KeyAction::EndAbsent
    };
    let wf = keyed(w, m.coll, feed.source, feed.next, acc, action).0;
    let (w1, step) = key_stepped(w, feed.source, feed.next);
    let k = feed.taken(w) as int;
    if let Some(x) = step->Ok_0 {
        let op = Op::HoldsKey(m.coll, x);
        let (w2, held) = w1.yes(op);
        if held == !ends_held {
            lemma_keyed_extends(w2, m.coll, feed.source, feed.next, acc, action);
        }
        assert(extends(w2, wf));
        m.lemma_earlier(w2, wf);
        feed.lemma_earlier(w2, wf);
        feed.lemma_earlier(w1, wf);
        m.lemma_holds(w1, x);
        feed.lemma_step(w1, op, Seq::empty());
        lemma_key_stepped(feed, w);
        if held == !ends_held {
            law_keys_of_the_other_are_looked_up(w2, m, feed, acc, ends_held);
        } else {
            assert((m.holds)(canonical_key(feed.items[k])) == ends_held);
        }
    } else {
        lemma_key_stepped(feed, w);
    }
}

// difference

/// The keys from `j` on that the other has not, added behind what there is.
pub open spec fn lacking_from(w: World, test: Steady, keys: Seq<Value>, j: int, acc: Slots) -> Slots
    decreases keys.len() - j,
{
    if j < 0 || j >= keys.len() {
        acc
    } else {
        lacking_from(
            w,
            test,
            keys,
            j + 1,
            if had(w, test, keys[j]) {
                acc
            } else {
                added(acc, keys[j])
            },
        )
    }
}

proof fn lemma_kept_extends(w: World, test: Value, other: Value, keys: Seq<Value>, j: int, acc: Slots)
    ensures
        extends(w, kept_from(w, test, other, keys, j, acc).0),
    decreases keys.len() - j,
{
    if 0 <= j < keys.len() {
        let (w1, b) = other_has(w, test, other, keys[j]);
        if b is Ok {
            lemma_kept_extends(
                w1,
                test,
                other,
                keys,
                j + 1,
                if b->Ok_0 {
                    acc
                } else {
                    added(acc, keys[j])
                },
            );
        }
    }
}

proof fn lemma_lacking_same(w: World, w1: World, test: Steady, keys: Seq<Value>, j: int, acc: Slots)
    requires
        w.strings == w1.strings,
    ensures
        lacking_from(w, test, keys, j, acc) == lacking_from(w1, test, keys, j, acc),
    decreases keys.len() - j,
{
    if 0 <= j < keys.len() {
        lemma_lacking_same(
            w,
            w1,
            test,
            keys,
            j + 1,
            if had(w, test, keys[j]) {
                acc
            } else {
                added(acc, keys[j])
            },
        );
    }
}

/// A difference keeps the members that the other has not, in their order.
#[verifier::spinoff_prover]
#[verifier::rlimit(60)]
pub proof fn law_differences_keep_what_the_other_lacks(
    w: World,
    test: Steady,
    keys: Seq<Value>,
    j: int,
    acc: Slots,
)
    requires
        0 <= j <= keys.len(),
        kept_from(w, test.f, test.this, keys, j, acc).1 is Ok,
        test.faithful(kept_from(w, test.f, test.this, keys, j, acc).0),
    ensures
        kept_from(w, test.f, test.this, keys, j, acc).1->Ok_0 == lacking_from(w, test, keys, j, acc),
    decreases keys.len() - j,
{
    if j < keys.len() {
        let wf = kept_from(w, test.f, test.this, keys, j, acc).0;
        let (w1, b) = other_has(w, test.f, test.this, keys[j]);
        let acc1 = if b->Ok_0 {
            acc
        } else {
            added(acc, keys[j])
        };
        lemma_kept_extends(w1, test.f, test.this, keys, j + 1, acc1);
        test.lemma_earlier(w1, wf);
        test.lemma_call(w, seq![keys[j]]);
        law_differences_keep_what_the_other_lacks(w1, test, keys, j + 1, acc1);
        lemma_lacking_same(w, w1, test, keys, j + 1, acc1);
    }
}

// forEach

proof fn lemma_visited_extends(w: World, this: Value, cb: Value, cb_this: Value, p: int)
    ensures
        extends(w, visited(w, this, cb, cb_this, p).0),
    decreases w.left(),
{
    let (w1, slot) = w.slot(this, p as u64);
    match slot {
        SlotRead::End => {},
        SlotRead::Deleted => {
            if p < u64::MAX {
                lemma_visited_extends(w1, this, cb, cb_this, p + 1);
            }
        },
        SlotRead::Live(k, v) => {
            let (w2, r) = w1.call(cb, cb_this, seq![v, k, this]);
            if r is Ok && p < u64::MAX {
                lemma_visited_extends(w2, this, cb, cb_this, p + 1);
            }
        },
    }
}

/// `forEach` calls the function with the value, the key and the collection of each live entry, and
/// gives undefined.
#[verifier::spinoff_prover]
#[verifier::rlimit(60)]
pub proof fn law_for_each_visits_the_entries(
    a: World,
    w: World,
    m: Members,
    cb: Value,
    cb_this: Value,
    p: int,
)
    requires
        extends(a, w),
        0 <= p <= m.slots.len() < u64::MAX,
        visited(w, m.coll, cb, cb_this, p).1 is Ok,
        !visited(w, m.coll, cb, cb_this, p).0.halted(),
        m.faithful(visited(w, m.coll, cb, cb_this, p).0),
    ensures
        visited(w, m.coll, cb, cb_this, p).1->Ok_0 == Value::Undefined,
        forall|q: int|
            p <= q < m.slots.len() && (#[trigger] m.slots[q]) is Some ==> told(
                a,
                visited(w, m.coll, cb, cb_this, p).0,
                Op::Call(cb, cb_this),
                seq![value_of(m.slots[q]), key_of(m.slots[q]), m.coll],
            ),
    decreases w.left(),
{
    let wf = visited(w, m.coll, cb, cb_this, p).0;
    let (w1, slot) = w.slot(m.coll, p as u64);
    lemma_visited_extends(w, m.coll, cb, cb_this, p);
    match slot {
        SlotRead::End => {
            m.lemma_slot(w, p as u64);
        },
        SlotRead::Deleted => {
            lemma_visited_extends(w1, m.coll, cb, cb_this, p + 1);
            m.lemma_earlier(w1, wf);
            m.lemma_slot(w, p as u64);
            law_for_each_visits_the_entries(a, w1, m, cb, cb_this, p + 1);
        },
        SlotRead::Live(k, v) => {
            let list = seq![v, k, m.coll];
            let (w2, r) = w1.call(cb, cb_this, list);
            lemma_visited_extends(w2, m.coll, cb, cb_this, p + 1);
            m.lemma_earlier(w1, wf);
            m.lemma_slot(w, p as u64);
            lemma_learned(w1, Op::Call(cb, cb_this), list);
            lemma_stays_told(a, w1, w2, wf, Op::Call(cb, cb_this), list);
            law_for_each_visits_the_entries(a, w2, m, cb, cb_this, p + 1);
        },
    }
}

} // verus!
