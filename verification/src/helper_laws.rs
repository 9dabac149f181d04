//! What the lazy iterator helpers make of the elements of their source.
use vstd::prelude::*;
use crate::feeds::{counter, lemma_stepped_extends, Feed, Steady};
use crate::interp::{Answer, Op, Value, World};
use crate::iter_helper::{Helper, HelperKind, HelperState};
use crate::iterator::{stepped, Bound};
use crate::num;
use crate::trace::{extends, learned, lemma_learned, lemma_stays_learned, question, told};

verus! {

impl Helper {
    /// What the next `n` steps yield.
    pub open spec fn outputs(self, w: World, n: nat) -> Seq<Value>
        decreases n,
    {
        if n == 0 {
            Seq::empty()
        } else {
            let (w1, h, r) = self.step(w);
            match r {
                Ok(Some(v)) => seq![v] + h.outputs(w1, (n - 1) as nat),
                _ => Seq::empty(),
            }
        }
    }

    /// The helper ends within `n` steps, and none of them throws.
    pub open spec fn ends_in(self, w: World, n: nat) -> bool
        decreases n,
    {
        n > 0 && {
            let (w1, h, r) = self.step(w);
            match r {
                Ok(Some(_)) => h.ends_in(w1, (n - 1) as nat),
                Ok(None) => true,
                Err(_) => false,
            }
        }
    }

    /// The transcript after `n` steps.
    pub open spec fn world_after(self, w: World, n: nat) -> World
        decreases n,
    {
        if n == 0 {
            w
        } else {
            let (w1, h, r) = self.step(w);
            match r {
                Ok(Some(_)) => h.world_after(w1, (n - 1) as nat),
                _ => w1,
            }
        }
    }

    /// The helper draws from the feed, and has counted what it drew.
    pub open spec fn draws_from(self, feed: Feed, w: World) -> bool {
        &&& self.wf()
        &&& feed.wf()
        &&& self.state.source == feed.source
        &&& self.state.next == feed.next
        &&& feed.from <= w.asked.len()
        &&& feed.taken(w) <= feed.items.len()
    }
}

/// A step only adds questions.
proof fn lemma_step_extends(h: Helper, w: World)
    requires
        h.step(w).2 is Ok,
    ensures
        extends(w, h.step(w).0),
{
    match h.state.kind {
        HelperKind::Mapping => lemma_stepped_extends(w, h.state.source, h.state.next),
        HelperKind::Filter => lemma_filter_extends(h, w),
        HelperKind::Take => lemma_stepped_extends(w, h.state.source, h.state.next),
        HelperKind::Drop => lemma_drop_extends(h, w, 0),
        HelperKind::FlatMap => lemma_flat_extends(h, w),
        HelperKind::Chunks => lemma_chunk_extends(h, w, Seq::empty()),
        HelperKind::Windows => lemma_window_extends(h, w, h.buffer),
    }
}

proof fn lemma_filter_extends(h: Helper, w: World)
    ensures
        extends(w, h.filter_step(w).0),
    decreases w.left(),
{
    let s = h.state;
    let (w1, step) = stepped(w, s.source, s.next);
    lemma_stepped_extends(w, s.source, s.next);
    if let Ok(Some(v)) = step {
        let (w2, r) = w1.call(s.f, Value::Undefined, seq![v, Value::Num(num::number(s.count as int))]);
        if r is Ok && !w2.truthy(r->Ok_0) {
            lemma_filter_extends(h.counting(), w2);
        }
    }
}

proof fn lemma_drop_extends(h: Helper, w: World, n: int)
    ensures
        extends(w, h.drop_step(w, n).0),
    decreases w.left(),
{
    let s = h.state;
    let (w1, step) = stepped(w, s.source, s.next);
    lemma_stepped_extends(w, s.source, s.next);
    if !s.skipped && s.limit.above(n) {
        if let Ok(Some(_)) = step {
            lemma_drop_extends(h, w1, num::counted(n));
        }
    }
}

proof fn lemma_chunk_extends(h: Helper, w: World, chunk: Seq<Value>)
    ensures
        extends(w, h.chunk_step(w, chunk).0),
    decreases w.left(),
{
    let (w1, step) = stepped(w, h.state.source, h.state.next);
    lemma_stepped_extends(w, h.state.source, h.state.next);
    if let Ok(Some(v)) = step {
        if chunk.len() + 1 != h.state.size {
            lemma_chunk_extends(h, w1, chunk.push(v));
        }
    }
}

proof fn lemma_window_extends(h: Helper, w: World, window: Seq<Value>)
    ensures
        extends(w, h.window_step(w, window).0),
    decreases w.left(),
{
    let (w1, step) = stepped(w, h.state.source, h.state.next);
    lemma_stepped_extends(w, h.state.source, h.state.next);
    if let Ok(Some(v)) = step {
        if h.slide(window, v).len() != h.state.size {
            lemma_window_extends(h, w1, h.slide(window, v));
        }
    }
}

#[verifier::spinoff_prover]
#[verifier::rlimit(60)]
proof fn lemma_flat_extends(h: Helper, w: World)
    ensures
        extends(w, h.flat_step(w).0),
    decreases w.left(),
{
    let s = h.state;
    if s.inner.object() {
        let (w1, step) = stepped(w, s.inner, s.inner_next);
        lemma_stepped_extends(w, s.inner, s.inner_next);
        if let Ok(None) = step {
            lemma_flat_extends(h.with_inner(Value::Undefined, s.inner_next), w1);
        }
    } else {
        let (w1, step) = stepped(w, s.source, s.next);
        lemma_stepped_extends(w, s.source, s.next);
        if let Ok(Some(v)) = step {
            let (w2, r) = w1.call(
                s.f,
                Value::Undefined,
                seq![v, Value::Num(num::number(s.count as int))],
            );
            if let Ok(mapped) = r {
                let (w3, opened) = crate::iter_helper::inner_opened(w2, mapped);
                if let Ok((it, n)) = opened {
                    lemma_flat_extends(h.counting().with_inner(it, n), w3);
                }
            }
        }
    }
}

proof fn lemma_steps_extend(h: Helper, w: World, n: nat)
    requires
        h.ends_in(w, n),
    ensures
        extends(w, h.world_after(w, n)),
    decreases n,
{
    lemma_step_extends(h, w);
    let (w1, h1, r) = h.step(w);
    if r->Ok_0 is Some {
        lemma_steps_extend(h1, w1, (n - 1) as nat);
    }
}

// map

/// The items from `k` on, each as the function maps it; the function is handed the item and its
/// place.
pub open spec fn mapped_from(items: Seq<Value>, k: int, g: Steady) -> Seq<Value> {
    Seq::new((items.len() - k) as nat, |j: int| (g.gives)(seq![items[k + j], counter(k + j)]))
}

/// A `map` helper yields what its function makes of each element of the source, in order.
#[verifier::spinoff_prover]
#[verifier::rlimit(60)]
pub proof fn law_map_yields_the_images(h: Helper, w: World, n: nat, feed: Feed, g: Steady)
    requires
        h.state.kind == HelperKind::Mapping,
        h.state.f == g.f,
        g.this == Value::Undefined,
        h.draws_from(feed, w),
        h.state.count == feed.taken(w),
        h.ends_in(w, n),
        feed.faithful(h.world_after(w, n)),
        g.faithful(h.world_after(w, n)),
    ensures
        h.outputs(w, n) == mapped_from(feed.items, feed.taken(w) as int, g),
    decreases n,
{
    let k = feed.taken(w) as int;
    let (w2, h1, r) = h.step(w);
    let wf = h.world_after(w, n);
    if r->Ok_0 is Some {
        lemma_steps_extend(h1, w2, (n - 1) as nat);
    }
    let s = h.state;
    let (w1, step) = stepped(w, s.source, s.next);
    lemma_stepped_extends(w, s.source, s.next);
    assert(extends(w1, wf));
    feed.lemma_earlier(w1, wf);
    feed.lemma_stepped(w);
    if let Some(v) = step->Ok_0 {
        let op = Op::Call(s.f, Value::Undefined);
        feed.lemma_earlier(w2, wf);
        g.lemma_earlier(w2, wf);
        feed.lemma_step(w1, op, seq![v, counter(k)]);
        g.lemma_call(w1, seq![v, counter(k)]);
        law_map_yields_the_images(h1, w2, (n - 1) as nat, feed, g);
        assert(seq![r->Ok_0->0] + mapped_from(feed.items, k + 1, g) =~= mapped_from(
            feed.items,
            k,
            g,
        ));
    } else {
        assert(mapped_from(feed.items, k, g) =~= Seq::empty());
    }
}

// filter

/// The items from `k` on for which the predicate's answer counts as true.
pub open spec fn kept_from(w: World, items: Seq<Value>, k: int, p: Steady) -> Seq<Value>
    decreases items.len() - k,
{
    if k < 0 || k >= items.len() {
        Seq::empty()
    } else if w.truthy((p.gives)(seq![items[k], counter(k)])) {
        seq![items[k]] + kept_from(w, items, k + 1, p)
    } else {
        kept_from(w, items, k + 1, p)
    }
}

proof fn lemma_kept_same(w: World, w1: World, items: Seq<Value>, k: int, p: Steady)
    requires
        w.strings == w1.strings,
    ensures
        kept_from(w, items, k, p) == kept_from(w1, items, k, p),
    decreases items.len() - k,
{
    if 0 <= k < items.len() {
        lemma_kept_same(w, w1, items, k + 1, p);
    }
}

/// One step of `filter`: it yields the first element whose test succeeds, behind elements whose
/// tests failed.
#[verifier::spinoff_prover]
#[verifier::rlimit(60)]
proof fn lemma_filter(h: Helper, w: World, feed: Feed, p: Steady)
    requires
        h.state.f == p.f,
        p.this == Value::Undefined,
        h.draws_from(feed, w),
        h.state.count == feed.taken(w),
        h.filter_step(w).2 is Ok,
        feed.faithful(h.filter_step(w).0),
        p.faithful(h.filter_step(w).0),
    ensures
        ({
            let (w1, h1, r) = h.filter_step(w);
            let k = feed.taken(w) as int;
            &&& w1.strings == w.strings
            &&& match r->Ok_0 {
                Some(v) => {
                    &&& h1.draws_from(feed, w1)
                    &&& h1.state.count == feed.taken(w1)
                    &&& h1.state == (HelperState { count: h1.state.count, ..h.state })
                    &&& kept_from(w, feed.items, k, p) == seq![v] + kept_from(
                        w,
                        feed.items,
                        feed.taken(w1) as int,
                        p,
                    )
                },
                None => kept_from(w, feed.items, k, p) == Seq::<Value>::empty(),
            }
        }),
    decreases w.left(),
{
    let k = feed.taken(w) as int;
    let s = h.state;
    let (wf, h1, r) = h.filter_step(w);
    let (w1, step) = stepped(w, s.source, s.next);
    lemma_stepped_extends(w, s.source, s.next);
    if let Some(v) = step->Ok_0 {
        let (w2, a) = w1.call(s.f, Value::Undefined, seq![v, counter(k)]);
        let op = Op::Call(s.f, Value::Undefined);
        if w2.truthy(a->Ok_0) {
            feed.lemma_step(w1, op, seq![v, counter(k)]);
            p.lemma_call(w1, seq![v, counter(k)]);
            feed.lemma_stepped(w);
        } else {
            lemma_filter_extends(h.counting(), w2);
            feed.lemma_earlier(w2, wf);
            p.lemma_earlier(w2, wf);
            feed.lemma_step(w1, op, seq![v, counter(k)]);
            p.lemma_call(w1, seq![v, counter(k)]);
            feed.lemma_stepped(w);
            lemma_filter(h.counting(), w2, feed, p);
            lemma_kept_same(w, w2, feed.items, k + 1, p);
            if r->Ok_0 is Some {
                lemma_kept_same(w, w2, feed.items, feed.taken(wf) as int, p);
            }
        }
    } else {
        feed.lemma_stepped(w);
    }
}

/// A `filter` helper yields the elements of the source for which the predicate gives what counts as
/// true, in order, and no others. The predicate is handed the element and its place.
#[verifier::spinoff_prover]
#[verifier::rlimit(60)]
pub proof fn law_filter_keeps_what_passes(h: Helper, w: World, n: nat, feed: Feed, p: Steady)
    requires
        h.state.kind == HelperKind::Filter,
        h.state.f == p.f,
        p.this == Value::Undefined,
        h.draws_from(feed, w),
        h.state.count == feed.taken(w),
        h.ends_in(w, n),
        feed.faithful(h.world_after(w, n)),
        p.faithful(h.world_after(w, n)),
    ensures
        h.outputs(w, n) == kept_from(w, feed.items, feed.taken(w) as int, p),
    decreases n,
{
    let (w1, h1, r) = h.step(w);
    let wf = h.world_after(w, n);
    if r->Ok_0 is Some {
        lemma_steps_extend(h1, w1, (n - 1) as nat);
        feed.lemma_earlier(w1, wf);
        p.lemma_earlier(w1, wf);
    }
    lemma_filter(h, w, feed, p);
    if r->Ok_0 is Some {
        law_filter_keeps_what_passes(h1, w1, (n - 1) as nat, feed, p);
        lemma_kept_same(w, w1, feed.items, feed.taken(w1) as int, p);
    }
}

// take and drop

/// The least of the bound and a length.
pub open spec fn at_most(b: Bound, n: int) -> int {
    match b {
        Bound::Finite(b) => if b < n {
            b as int
        } else {
            n
        },
        Bound::Infinite => n,
    }
}

/// A `take` helper yields the first elements of the source, as many as its limit allows.
#[verifier::spinoff_prover]
#[verifier::rlimit(60)]
pub proof fn law_take_yields_the_first(h: Helper, w: World, n: nat, feed: Feed)
    requires
        h.state.kind == HelperKind::Take,
        h.draws_from(feed, w),
        h.state.count == feed.taken(w),
        h.ends_in(w, n),
        feed.faithful(h.world_after(w, n)),
    ensures
        feed.taken(w) <= at_most(h.state.limit, feed.items.len() as int) ==> h.outputs(w, n)
            == feed.items.subrange(
            feed.taken(w) as int,
            at_most(h.state.limit, feed.items.len() as int),
        ),
    decreases n,
{
    let k = feed.taken(w) as int;
    let m = at_most(h.state.limit, feed.items.len() as int);
    let (w1, h1, r) = h.step(w);
    let wf = h.world_after(w, n);
    if r->Ok_0 is Some {
        lemma_steps_extend(h1, w1, (n - 1) as nat);
        feed.lemma_earlier(w1, wf);
    }
    if h.state.limit.above(h.state.count as int) {
        feed.lemma_stepped(w);
        if r->Ok_0 is Some {
            law_take_yields_the_first(h1, w1, (n - 1) as nat, feed);
            assert(k < m);
            assert(seq![feed.items[k]] + feed.items.subrange(k + 1, m) =~= feed.items.subrange(
                k,
                m,
            ));
        } else {
            assert(feed.items.subrange(k, m) =~= Seq::empty());
        }
    } else if k <= m {
        assert(feed.items.subrange(k, m) =~= Seq::empty());
    }
}

#[verifier::spinoff_prover]
#[verifier::rlimit(60)]
proof fn lemma_drop(h: Helper, w: World, n: int, feed: Feed)
    requires
        h.draws_from(feed, w),
        0 <= n <= num::COUNT_LIMIT,
        !h.state.skipped ==> n == feed.taken(w),
        h.drop_step(w, n).2 is Ok,
        feed.faithful(h.drop_step(w, n).0),
    ensures
        ({
            let (w1, h1, r) = h.drop_step(w, n);
            let k = feed.taken(w) as int;
            let first = if h.state.skipped || !h.state.limit.above(k) {
                k
            } else {
                at_most(h.state.limit, feed.items.len() as int)
            };
            match r->Ok_0 {
                Some(v) => {
                    &&& first < feed.items.len()
                    &&& v == feed.items[first]
                    &&& feed.taken(w1) == first + 1
                    &&& h1.draws_from(feed, w1)
                    &&& h1.state == (HelperState { skipped: true, ..h.state })
                },
                None => first == feed.items.len(),
            }
        }),
    decreases w.left(),
{
    let s = h.state;
    let (w1, step) = stepped(w, s.source, s.next);
    lemma_stepped_extends(w, s.source, s.next);
    let wf = h.drop_step(w, n).0;
    if !s.skipped && s.limit.above(n) {
        if step->Ok_0 is Some {
            lemma_drop_extends(h, w1, num::counted(n));
            feed.lemma_earlier(w1, wf);
            feed.lemma_stepped(w);
            lemma_drop(h, w1, num::counted(n), feed);
        } else {
            feed.lemma_stepped(w);
        }
    } else {
        feed.lemma_stepped(w);
    }
}

/// A `drop` helper leaves out the first elements of the source, as many as its limit says, and
/// yields the rest.
#[verifier::spinoff_prover]
#[verifier::rlimit(60)]
pub proof fn law_drop_leaves_out_the_first(h: Helper, w: World, n: nat, feed: Feed)
    requires
        h.state.kind == HelperKind::Drop,
        h.draws_from(feed, w),
        !h.state.skipped ==> feed.taken(w) == 0,
        h.ends_in(w, n),
        feed.faithful(h.world_after(w, n)),
    ensures
        h.outputs(w, n) == feed.items.skip(
            if h.state.skipped {
                feed.taken(w) as int
            } else {
                at_most(h.state.limit, feed.items.len() as int)
            },
        ),
    decreases n,
{
    let (w1, h1, r) = h.step(w);
    let wf = h.world_after(w, n);
    if r->Ok_0 is Some {
        lemma_steps_extend(h1, w1, (n - 1) as nat);
        feed.lemma_earlier(w1, wf);
    }
    lemma_drop(h, w, 0, feed);
    let first = if h.state.skipped {
        feed.taken(w) as int
    } else {
        at_most(h.state.limit, feed.items.len() as int)
    };
    if r->Ok_0 is Some {
        law_drop_leaves_out_the_first(h1, w1, (n - 1) as nat, feed);
        assert(seq![feed.items[first]] + feed.items.skip(first + 1) =~= feed.items.skip(first));
    } else {
        assert(feed.items.skip(first) =~= Seq::empty());
    }
}

// windows

/// The last items among the first `k`, as many as a window holds.
pub open spec fn recent(items: Seq<Value>, k: int, size: int) -> Seq<Value> {
    items.subrange(
        if k < size {
            0
        } else {
            k - size
        },
        k,
    )
}

#[verifier::spinoff_prover]
#[verifier::rlimit(100)]
proof fn lemma_window(h: Helper, w: World, window: Seq<Value>, feed: Feed)
    requires
        h.draws_from(feed, w),
        feed.taken(w) <= feed.items.len(),
        window == recent(feed.items, feed.taken(w) as int, h.state.size as int),
        h.window_step(w, window).2 is Ok,
        !h.window_step(w, window).0.halted(),
        feed.faithful(h.window_step(w, window).0),
    ensures
        ({
            let (w1, h1, r) = h.window_step(w, window);
            let (k, n, size) = (
                feed.taken(w) as int,
                feed.items.len() as int,
                h.state.size as int,
            );
            match r->Ok_0 {
                Some(a) => if k < n && size <= n {
                    let m = if k + 1 < size {
                        size
                    } else {
                        k + 1
                    };
                    &&& told(w, w1, Op::NewArray, feed.items.subrange(m - size, m))
                    &&& a.object() ==> learned(
                        w,
                        w1,
                        Op::NewArray,
                        feed.items.subrange(m - size, m),
                        Answer::Value(a),
                    )
                    &&& feed.taken(w1) == m
                    &&& h1.buffer == recent(feed.items, m, size)
                    &&& h1.state == h.state
                } else {
                    &&& h.state.allow_partial && 0 < n < size
                    &&& told(w, w1, Op::NewArray, feed.items)
                    &&& h1.state.source_done
                },
                None => {
                    &&& k == n || n < size
                    &&& !(h.state.allow_partial && 0 < n < size)
                    &&& h1.state.source_done
                },
            }
        }),
    decreases w.left(),
{
    let s = h.state;
    let k = feed.taken(w) as int;
    let size = s.size as int;
    let (wf, h1, r) = h.window_step(w, window);
    let (w1, step) = stepped(w, s.source, s.next);
    lemma_stepped_extends(w, s.source, s.next);
    match step->Ok_0 {
        None => {
            if s.allow_partial && 0 < window.len() < s.size {
                feed.lemma_step(w1, Op::NewArray, window);
                feed.lemma_stepped(w);
                assert(window =~= feed.items);
                lemma_learned(w1, Op::NewArray, window);
                crate::trace::lemma_stays_told(w, w1, wf, wf, Op::NewArray, window);
            } else {
                feed.lemma_stepped(w);
            }
        },
        Some(v) => {
            let slid = h.slide(window, v);
            if slid.len() == s.size {
                feed.lemma_step(w1, Op::NewArray, slid);
                feed.lemma_stepped(w);
                assert(slid =~= recent(feed.items, k + 1, size));
                lemma_learned(w1, Op::NewArray, slid);
                crate::trace::lemma_stays_told(w, w1, wf, wf, Op::NewArray, slid);
                lemma_stays_learned(
                    w,
                    w1,
                    wf,
                    wf,
                    Op::NewArray,
                    slid,
                    wf.answers[w1.asked.len() as int],
                );
                assert(k + 1 >= size);
            } else {
                lemma_window_extends(h, w1, slid);
                feed.lemma_earlier(w1, wf);
                feed.lemma_stepped(w);
                assert(slid =~= recent(feed.items, k + 1, size));
                lemma_window(h, w1, slid, feed);
                let m = if k + 1 < size {
                    size
                } else {
                    k + 1
                };
                if r->Ok_0 is Some {
                    if size <= feed.items.len() {
                        crate::trace::lemma_stays_told(
                            w,
                            w1,
                            wf,
                            wf,
                            Op::NewArray,
                            feed.items.subrange(m - size, m),
                        );
                        if r->Ok_0->0.object() {
                            lemma_stays_learned(
                                w,
                                w1,
                                wf,
                                wf,
                                Op::NewArray,
                                feed.items.subrange(m - size, m),
                                Answer::Value(r->Ok_0->0),
                            );
                        }
                    } else {
                        crate::trace::lemma_stays_told(w, w1, wf, wf, Op::NewArray, feed.items);
                    }
                }
            }
        },
    }
}

/// A step of a `windows` helper yields an array of the next run of elements of the source, each run
/// one element behind the one before it. A source that is shorter than a window gives one short
/// window where that is allowed, and none otherwise.
pub proof fn law_windows_slide_over_the_source(h: Helper, w: World, feed: Feed)
    requires
        h.state.kind == HelperKind::Windows,
        !h.state.source_done,
        h.draws_from(feed, w),
        h.buffer == recent(feed.items, feed.taken(w) as int, h.state.size as int),
        h.step(w).2 is Ok,
        !h.step(w).0.halted(),
        feed.faithful(h.step(w).0),
    ensures
        ({
            let (w1, h1, r) = h.step(w);
            let (k, n, size) = (
                feed.taken(w) as int,
                feed.items.len() as int,
                h.state.size as int,
            );
            match r->Ok_0 {
                Some(a) => if k < n && size <= n {
                    let m = if k + 1 < size {
                        size
                    } else {
                        k + 1
                    };
                    &&& told(w, w1, Op::NewArray, feed.items.subrange(m - size, m))
                    &&& a.object() ==> learned(
                        w,
                        w1,
                        Op::NewArray,
                        feed.items.subrange(m - size, m),
                        Answer::Value(a),
                    )
                    &&& feed.taken(w1) == m
                    &&& h1.buffer == recent(feed.items, m, size)
                } else {
                    &&& h.state.allow_partial && 0 < n < size
                    &&& told(w, w1, Op::NewArray, feed.items)
                    &&& h1.state.source_done
                },
                None => (k == n || n < size) && !(h.state.allow_partial && 0 < n < size),
            }
        }),
{
    lemma_window(h, w, h.buffer, feed);
}

// flatMap

/// A step of `flatMap` yields what the open inner iterator gives. Where that is done, or none is
/// open, the next element of the source is mapped, the function being handed the element and its
/// place, and the iterator of what came back is opened; where the source is done, so is the helper.
/// A throw of the inner iterator or of the function closes the source.
#[verifier::spinoff_prover]
#[verifier::rlimit(60)]
pub proof fn law_flat_map_drains_inner_iterators(h: Helper, w: World)
    requires
        h.state.kind == HelperKind::FlatMap,
    ensures
        h.state.inner.object() ==> {
            let (w1, step) = stepped(w, h.state.inner, h.state.inner_next);
            match step {
                Ok(Some(v)) => h.step(w) == (w1, h, Ok::<Option<Value>, Value>(Some(v))),
                Ok(None) => h.step(w) == Helper {
                    state: HelperState { inner: Value::Undefined, ..h.state },
                    ..h
                }.step(w1),
                Err(e) => h.step(w).2 == Err::<Option<Value>, Value>(e) && (!w1.halted() ==> told(
                    w,
                    h.step(w).0,
                    Op::Close(h.state.source),
                    Seq::empty(),
                )),
            }
        },
        !h.state.inner.object() ==> {
            let (w1, step) = stepped(w, h.state.source, h.state.next);
            match step {
                Ok(None) => h.step(w).2 == Ok::<Option<Value>, Value>(None),
                Err(e) => h.step(w).2 == Err::<Option<Value>, Value>(e),
                Ok(Some(v)) => {
                    let (w2, r) = w1.call(
                        h.state.f,
                        Value::Undefined,
                        seq![v, counter(h.state.count as int)],
                    );
                    match r {
                        Err(e) => h.step(w).2 == Err::<Option<Value>, Value>(e) && (!w2.halted()
                            ==> told(w, h.step(w).0, Op::Close(h.state.source), Seq::empty())),
                        Ok(m) => {
                            let (w3, opened) = crate::iter_helper::inner_opened(w2, m);
                            match opened {
                                Err(e) => h.step(w).2 == Err::<Option<Value>, Value>(e),
                                Ok((it, next)) => h.step(w) == Helper {
                                    state: HelperState {
                                        inner: it,
                                        inner_next: next,
                                        count: num::counted(h.state.count as int) as u64,
                                        ..h.state
                                    },
                                    ..h
                                }.step(w3),
                            }
                        },
                    }
                },
            }
        },
{
    let s = h.state;
    if s.inner.object() {
        let (w1, step) = stepped(w, s.inner, s.inner_next);
        lemma_stepped_extends(w, s.inner, s.inner_next);
        if step is Err && !w1.halted() {
            let wf = h.step(w).0;
            assert(wf.asked[w1.asked.len() as int] == question(Op::Close(s.source), Seq::empty()));
        }
    } else {
        let (w1, step) = stepped(w, s.source, s.next);
        lemma_stepped_extends(w, s.source, s.next);
        if let Ok(Some(v)) = step {
            let (w2, r) = w1.call(s.f, Value::Undefined, seq![v, counter(s.count as int)]);
            if r is Err && !w2.halted() {
                let wf = h.step(w).0;
                assert(wf.asked[w2.asked.len() as int] == question(
                    Op::Close(s.source),
                    Seq::empty(),
                ));
            }
        }
    }
}

// next

/// `next` hands out what a step yields in a result object that is not done; a step that yields
/// nothing gives one that is done, and completes the helper.
#[verifier::spinoff_prover]
#[verifier::rlimit(60)]
pub proof fn law_next_wraps_the_step(h: Helper, w: World)
    requires
        !h.state.running,
        !h.state.done,
    ensures
        ({
            let entered = Helper {
                state: HelperState { started: true, running: true, ..h.state },
                ..h
            };
            let (w1, h1, step) = entered.step(w);
            let (w2, h2, r) = h.advance(w);
            match step {
                Err(e) => r == Err::<Value, Value>(e) && h2.state.done,
                Ok(None) => {
                    &&& h2.state.done
                    &&& !w1.halted() ==> told(
                        w1,
                        w2,
                        Op::NewIterResult(Value::Undefined, true),
                        Seq::empty(),
                    )
                },
                Ok(Some(v)) => {
                    &&& h2.state.done == h1.state.done
                    &&& !w1.halted() ==> told(w1, w2, Op::NewIterResult(v, false), Seq::empty())
                },
            }
        }),
{
    let entered = Helper {
        state: HelperState { started: true, running: true, ..h.state },
        ..h
    };
    assert(entered == h.entered());
    let (w1, h1, step) = entered.step(w);
    let (w2, h2, r) = h.advance(w);
    if step is Ok && !w1.halted() {
        let n = w1.asked.len() as int;
        if step->Ok_0 is Some {
            assert(w2.asked[n] == question(
                Op::NewIterResult(step->Ok_0->0, false),
                Seq::empty(),
            ));
        } else {
            assert(w2.asked[n] == question(
                Op::NewIterResult(Value::Undefined, true),
                Seq::empty(),
            ));
        }
    }
}

/// A fresh helper carries the source, the `next` that it has, the function or the limit, and has
/// drawn nothing. A function that cannot be called and a limit that is no count are refused, and the
/// source is closed.
pub proof fn law_fresh_helpers_carry_their_arguments(
    w: World,
    source: Value,
    kind: HelperKind,
    f: Value,
    next: Value,
)
    requires
        source.object(),
        w.asked.len() < w.answers.len(),
        w.answers[w.asked.len() as int] == Answer::Value(next),
        kind == HelperKind::Mapping || kind == HelperKind::Filter || kind == HelperKind::FlatMap
            || (kind == HelperKind::Take || kind == HelperKind::Drop) && f is Num,
    ensures
        ({
            let (w1, r) = crate::iter_helper::helper_made(w, source, kind, f);
            let counts = kind == HelperKind::Take || kind == HelperKind::Drop;
            let n = f->Num_0;
            match r {
                Ok(s) => {
                    &&& s.source == source && s.kind == kind && s.f == f && s.next == next
                    &&& s.count == 0 && !s.skipped && !s.done && !s.running && !s.source_done
                    &&& !s.inner.object()
                    &&& !counts ==> f.callable()
                    &&& counts && num::finite(n) ==> s.limit == Bound::Finite(
                        num::integer_part(n) as u64,
                    ) && 0 <= num::integer_part(n) <= num::MAX_SAFE
                    &&& counts && num::infinite(n) ==> s.limit == Bound::Infinite && !num::negative(n)
                    &&& counts ==> !num::nan(n)
                    &&& w1.asked == w.asked.push(
                        question(Op::Get(source, crate::interp::Key::Name("next")), Seq::empty()),
                    )
                },
                Err(_) => {
                    &&& !counts ==> !f.callable()
                    &&& counts ==> num::nan(n) || (num::infinite(n) && num::negative(n)) || (
                    num::finite(n) && (num::integer_part(n) < 0 || num::integer_part(n)
                        > num::MAX_SAFE))
                    &&& w1.asked[w.asked.len() as int] == question(Op::Close(source), Seq::empty())
                },
            }
        }),
{
    if f is Num {
        num::lemma_magnitude_nonneg(f->Num_0);
    }
}

// chunks and windows

/// The size of a chunk is an integral Number from one up to the largest array length; anything else is
/// refused, and the source is closed.
pub proof fn law_chunk_sizes_are_counts(w: World, source: Value, v: Value)
    ensures
        ({
            let (w1, r) = crate::iter_helper::chunk_size(w, source, v);
            let fits = v is Num && num::integral(v->Num_0) && 1 <= num::integer_part(v->Num_0)
                <= 0xffff_ffff;
            &&& fits ==> w1 == w && r == Ok::<u64, Value>(num::integer_part(v->Num_0) as u64)
            &&& !fits ==> r is Err
            &&& !fits && !w.halted() ==> w1.asked[w.asked.len() as int] == question(
                Op::Close(source),
                Seq::empty(),
            )
        }),
{
}

/// A short last window is yielded only where the second argument is the word for it.
pub proof fn law_short_windows_are_asked_for(w: World, source: Value, s: u64)
    ensures
        crate::iter_helper::undersized_mode(w, source, Some(Value::Undefined)) == (
            w,
            Ok::<bool, Value>(false),
        ),
        w.units(s) == seq![
            'a' as u16, 'l' as u16, 'l' as u16, 'o' as u16, 'w' as u16, '-' as u16, 'p' as u16,
            'a' as u16, 'r' as u16, 't' as u16, 'i' as u16, 'a' as u16, 'l' as u16,
        ] ==> crate::iter_helper::undersized_mode(w, source, Some(Value::Str(s))) == (
            w,
            Ok::<bool, Value>(true),
        ),
        w.units(s) == seq![
            'o' as u16, 'n' as u16, 'l' as u16, 'y' as u16, '-' as u16, 'f' as u16, 'u' as u16,
            'l' as u16, 'l' as u16,
        ] ==> crate::iter_helper::undersized_mode(w, source, Some(Value::Str(s))) == (
            w,
            Ok::<bool, Value>(false),
        ),
{
    let allow = seq![
        'a' as u16, 'l' as u16, 'l' as u16, 'o' as u16, 'w' as u16, '-' as u16, 'p' as u16,
        'a' as u16, 'r' as u16, 't' as u16, 'i' as u16, 'a' as u16, 'l' as u16,
    ];
    let full = seq![
        'o' as u16, 'n' as u16, 'l' as u16, 'y' as u16, '-' as u16, 'f' as u16, 'u' as u16,
        'l' as u16, 'l' as u16,
    ];
    assert(allow =~= crate::iter_helper::partial_allowed());
    assert(full =~= crate::iter_helper::only_full());
    assert(allow[0] != full[0]);
}

} // verus!
