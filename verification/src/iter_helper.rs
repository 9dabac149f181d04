//! Lazy iterator helpers: `map`, `filter`, `take`, `drop`, `flatMap`, `chunks` and `windows`.
use vstd::prelude::*;
use crate::interp::{ErrorKind, Interp, Key, Op, Outcome, Value, World};
use crate::iterator::{iterator_checked, require_iterator_object, step_iter_with, stepped, Bound};
use crate::num;

verus! {

#[derive(Clone, Copy, PartialEq, Eq, Structural, Debug)]
pub enum HelperKind {
    Mapping,
    Filter,
    Take,
    Drop,
    FlatMap,
    Chunks,
    Windows,
}

/// The internal slots of a helper.
#[derive(Clone, Copy, PartialEq, Eq, Structural, Debug)]
pub struct HelperState {
    /// The underlying iterator and its `next`, read once at creation.
    pub source: Value,
    pub next: Value,
    pub kind: HelperKind,
    /// The mapper or predicate.
    pub f: Value,
    /// The limit of `take` and `drop`.
    pub limit: Bound,
    /// `drop` has skipped its elements.
    pub skipped: bool,
    pub count: u64,
    /// The size of a chunk or window.
    pub size: u64,
    /// `windows` may end with one short window.
    pub allow_partial: bool,
    pub source_done: bool,
    /// The helper has completed.
    pub done: bool,
    /// `next` or `return` is executing.
    pub running: bool,
    /// `next` has been called.
    pub started: bool,
    /// The open inner iterator of `flatMap`, and its `next`.
    pub inner: Value,
    pub inner_next: Value,
}

/// A helper and the last window it yielded.
pub struct IterHelper {
    pub state: HelperState,
    pub buffer: Vec<Value>,
}

/// A helper as contracts speak of it.
pub struct Helper {
    pub state: HelperState,
    pub buffer: Seq<Value>,
}

impl View for IterHelper {
    type V = Helper;

    open spec fn view(&self) -> Helper {
        Helper { state: self.state, buffer: self.buffer@ }
    }
}

impl Helper {
    /// The count of a helper is one a double can hold exactly, and a chunk holds something.
    pub open spec fn wf(self) -> bool {
        &&& self.state.count <= num::COUNT_LIMIT
        &&& 1 <= self.state.size <= 0xffff_ffff
    }
}

/// A fresh helper.
pub open spec fn fresh_state(source: Value, next: Value, kind: HelperKind, f: Value) -> HelperState {
    HelperState {
        source,
        next,
        kind,
        f,
        limit: Bound::Finite(0),
        skipped: false,
        count: 0,
        size: 1,
        allow_partial: false,
        source_done: false,
        done: false,
        running: false,
        started: false,
        inner: Value::Undefined,
        inner_next: Value::Undefined,
    }
}

fn new_state(source: Value, next: Value, kind: HelperKind, f: Value) -> (r: HelperState)
    ensures
        r == fresh_state(source, next, kind, f),
{
    HelperState {
        source,
        next,
        kind,
        f,
        limit: Bound::Finite(0),
        skipped: false,
        count: 0,
        size: 1,
        allow_partial: false,
        source_done: false,
        done: false,
        running: false,
        started: false,
        inner: Value::Undefined,
        inner_next: Value::Undefined,
    }
}

/// The limit of `take` and `drop`: a Number that is not NaN, not negative after truncation, and
/// infinite or a safe integer.
pub open spec fn limit_bound(w: World, source: Value, v: Value) -> Outcome<Bound> {
    let (w, n) = w.number(v);
    match n {
        Err(e) => w.close_and_throw(source, e),
        Ok(n) => if num::nan(n) || (num::infinite(n) && num::negative(n)) || (num::finite(n) && (
        num::integer_part(n) < 0 || num::integer_part(n) > num::MAX_SAFE)) {
            w.close_and_fail(source, ErrorKind::Range, "limit must be a non-negative number")
        } else if num::infinite(n) {
            (w, Ok(Bound::Infinite))
        } else {
            (w, Ok(Bound::Finite(num::magnitude(n) as u64)))
        },
    }
}

fn read_limit(i: &mut Interp, source: Value, v: Value) -> (r: Result<Bound, Value>)
    ensures
        (final(i)@, r) == limit_bound(old(i)@, source, v),
{
    let n: u64 = match i.to_number(v) {
        Ok(n) => n,
        Err(e) => {
            i.iterator_close(source);
            return Err(e);
        },
    };
    let bad = if num::is_nan(n) {
        true
    } else if num::is_infinite(n) {
        num::is_negative(n)
    } else {
        let k: i64 = num::as_i64(n);
        k < 0 || k > num::MAX_SAFE as i64
    };
    proof {
        num::lemma_magnitude_nonneg(n);
    }
    if bad {
        i.iterator_close(source);
        return i.fail(ErrorKind::Range, "limit must be a non-negative number");
    }
    if num::is_infinite(n) {
        Ok(Bound::Infinite)
    } else {
        Ok(Bound::Finite(num::magnitude_u64(n)))
    }
}

pub open spec fn takes_function(kind: HelperKind) -> bool {
    kind == HelperKind::Mapping || kind == HelperKind::Filter || kind == HelperKind::FlatMap
}

pub open spec fn takes_limit(kind: HelperKind) -> bool {
    kind == HelperKind::Take || kind == HelperKind::Drop
}

/// A lazy helper over `source`: the argument is checked before `next` is read, and a failed check
/// closes the source.
pub open spec fn helper_made(w: World, source: Value, kind: HelperKind, f: Value) -> Outcome<
    HelperState,
> {
    if !source.object() {
        w.throw(ErrorKind::Type, "Iterator helper called on a non-object")
    } else if takes_function(kind) && !f.callable() {
        w.close_and_fail(source, ErrorKind::Type, "Iterator helper argument is not callable")
    } else {
        let (w, limit) = if takes_limit(kind) {
            limit_bound(w, source, f)
        } else {
            (w, Ok(Bound::Finite(0)))
        };
        match limit {
            Err(e) => (w, Err(e)),
            Ok(limit) => {
                let (w, next) = w.get(source, Key::Name("next"));
                match next {
                    Err(e) => (w, Err(e)),
                    Ok(next) => (
                        w,
                        Ok(HelperState { limit, ..fresh_state(source, next, kind, f) }),
                    ),
                }
            },
        }
    }
}

/// Build a lazy iterator-helper (map/filter/take/drop/flatMap) wrapping `source`.
pub fn make_iter_helper(i: &mut Interp, source: Value, kind: HelperKind, f: Value) -> (r: Result<
    IterHelper,
    Value,
>)
    requires
        takes_function(kind) || takes_limit(kind),
    ensures
        final(i)@ == helper_made(old(i)@, source, kind, f).0,
        match r {
            Ok(h) => helper_made(old(i)@, source, kind, f).1 == Ok::<HelperState, Value>(h.state)
                && h.buffer@ == Seq::<Value>::empty() && h@.wf(),
            Err(e) => helper_made(old(i)@, source, kind, f).1 == Err::<HelperState, Value>(e),
        },
{
    // GetIteratorDirect requires an Object receiver (checked before the callable/limit checks).
    if !source.is_object() {
        return i.type_error("Iterator helper called on a non-object");
    }
    let wants_function = match kind {
        HelperKind::Mapping => true,
        HelperKind::Filter => true,
        HelperKind::FlatMap => true,
        _ => false,
    };
    if wants_function && !f.is_callable() {
        // A non-callable mapper/predicate still closes the underlying iterator.
        i.iterator_close(source);
        return i.type_error("Iterator helper argument is not callable");
    }
    // ECMA-262 §27.1.3.3.2 / §27.1.3.3.11: validate the limit before GetIteratorDirect
    // reads `next`. Argument conversion and every validation failure close the provisional
    // Iterator Record, while +Infinity remains valid.
    let limit: Bound = match kind {
        HelperKind::Take => read_limit(i, source, f)?,
        HelperKind::Drop => read_limit(i, source, f)?,
        _ => Bound::Finite(0),
    };
    // GetIteratorDirect: read the source's `next` method exactly once, now.
    let next = i.get_member(source, Key::Name("next"))?;
    let mut state: HelperState = new_state(source, next, kind, f);
    state.limit = limit;
    let buffer: Vec<Value> = Vec::new();
    assert(buffer@ =~= Seq::<Value>::empty());
    Ok(IterHelper { state, buffer })
}

/// The words that `windows` takes for its second argument.
pub open spec fn only_full() -> Seq<u16> {
    seq![
        0x6fu16, 0x6e, 0x6c, 0x79, 0x2d, 0x66, 0x75, 0x6c, 0x6c,
    ]
}

pub open spec fn partial_allowed() -> Seq<u16> {
    seq![
        0x61u16, 0x6c, 0x6c, 0x6f, 0x77, 0x2d, 0x70, 0x61, 0x72, 0x74, 0x69, 0x61, 0x6c,
    ]
}

/// The size of a chunk: an integral Number between 1 and 2 to the 32nd less 1, not coerced.
pub open spec fn chunk_size(w: World, source: Value, v: Value) -> Outcome<u64> {
    match v {
        Value::Num(n) => if !num::integral(n) {
            w.close_and_fail(source, ErrorKind::Type, "chunk size must be an integral number")
        } else if 1 <= num::integer_part(n) <= 0xffff_ffff {
            (w, Ok(num::integer_part(n) as u64))
        } else {
            w.close_and_fail(source, ErrorKind::Range, "chunk size is outside the permitted range")
        },
        _ => w.close_and_fail(source, ErrorKind::Type, "chunk size must be an integral number"),
    }
}

/// Whether a short last window is wanted; only `windows` has the argument.
pub open spec fn undersized_mode(w: World, source: Value, v: Option<Value>) -> Outcome<bool> {
    match v {
        None => (w, Ok(false)),
        Some(Value::Undefined) => (w, Ok(false)),
        Some(Value::Str(s)) => if w.units(s) == only_full() {
            (w, Ok(false))
        } else if w.units(s) == partial_allowed() {
            (w, Ok(true))
        } else {
            w.close_and_fail(source, ErrorKind::Type, "invalid undersized mode")
        },
        Some(_) => w.close_and_fail(source, ErrorKind::Type, "invalid undersized mode"),
    }
}

/// A `chunks` helper, or a `windows` helper where there is an undersized argument.
pub open spec fn chunking_made(
    w: World,
    source: Value,
    size: Value,
    undersized: Option<Value>,
) -> Outcome<HelperState> {
    let (w, c) = iterator_checked(w, source);
    match c {
        Err(e) => (w, Err(e)),
        Ok(_) => {
            let (w, size) = chunk_size(w, source, size);
            match size {
                Err(e) => (w, Err(e)),
                Ok(size) => {
                    let (w, mode) = undersized_mode(w, source, undersized);
                    match mode {
                        Err(e) => (w, Err(e)),
                        Ok(mode) => {
                            let (w, next) = w.get(source, Key::Name("next"));
                            match next {
                                Err(e) => (w, Err(e)),
                                Ok(next) => {
                                    let kind = if undersized is Some {
                                        HelperKind::Windows
                                    } else {
                                        HelperKind::Chunks
                                    };
                                    (
                                        w,
                                        Ok(
                                            HelperState {
                                                size,
                                                allow_partial: mode,
                                                ..fresh_state(source, next, kind, Value::Undefined)
                                            },
                                        ),
                                    )
                                },
                            }
                        },
                    }
                },
            }
        },
    }
}

fn read_chunk_size(i: &mut Interp, source: Value, v: Value) -> (r: Result<u64, Value>)
    ensures
        (final(i)@, r) == chunk_size(old(i)@, source, v),
{
    match v {
        Value::Num(n) => {
            if !num::is_integral(n) {
                i.iterator_close(source);
                return i.type_error("chunk size must be an integral number");
            }
            let k: i64 = num::as_i64(n);
            if 1 <= k && k <= 0xffff_ffff {
                Ok(k as u64)
            } else {
                i.iterator_close(source);
                i.fail(ErrorKind::Range, "chunk size is outside the permitted range")
            }
        },
        _ => {
            i.iterator_close(source);
            i.type_error("chunk size must be an integral number")
        },
    }
}

fn read_undersized(i: &mut Interp, source: Value, v: Option<Value>) -> (r: Result<bool, Value>)
    ensures
        (final(i)@, r) == undersized_mode(old(i)@, source, v),
{
    match v {
        None => return Ok(false),
        Some(Value::Undefined) => return Ok(false),
        Some(Value::Str(s)) => {
            let u: Vec<u16> = i.units(s);
            let full: Vec<u16> = vec![0x6fu16, 0x6e, 0x6c, 0x79, 0x2d, 0x66, 0x75, 0x6c, 0x6c];
            assert(full@ =~= only_full());
            if crate::interp::same_units(&u, &full) {
                return Ok(false);
            }
            let partial: Vec<u16> = vec![
                0x61u16, 0x6c, 0x6c, 0x6f, 0x77, 0x2d, 0x70, 0x61, 0x72, 0x74, 0x69, 0x61, 0x6c,
            ];
            assert(partial@ =~= partial_allowed());
            if crate::interp::same_units(&u, &partial) {
                return Ok(true);
            }
        },
        Some(_) => {},
    }
    i.iterator_close(source);
    i.type_error("invalid undersized mode")
}

/// Build the lazy helper specified by the TC39 stage-3 Iterator Chunking proposal.
/// Validation is intentionally non-coercing and precedes GetIteratorDirect's observable `next`
/// lookup. `undersized` is present only for `windows`.
pub fn make_chunking_helper(
    i: &mut Interp,
    source: Value,
    size: Value,
    undersized: Option<Value>,
) -> (r: Result<IterHelper, Value>)
    ensures
        final(i)@ == chunking_made(old(i)@, source, size, undersized).0,
        match r {
            Ok(h) => chunking_made(old(i)@, source, size, undersized).1 == Ok::<HelperState, Value>(
                h.state,
            ) && h.buffer@ == Seq::<Value>::empty() && h@.wf(),
            Err(e) => chunking_made(old(i)@, source, size, undersized).1 == Err::<
                HelperState,
                Value,
            >(e),
        },
{
    require_iterator_object(i, source)?;
    let size: u64 = read_chunk_size(i, source, size)?;
    let allow_partial: bool = read_undersized(i, source, undersized)?;
    let next = i.get_member(source, Key::Name("next"))?;
    let kind = match undersized {
        Some(_) => HelperKind::Windows,
        None => HelperKind::Chunks,
    };
    let mut state: HelperState = new_state(source, next, kind, Value::Undefined);
    state.size = size;
    state.allow_partial = allow_partial;
    let buffer: Vec<Value> = Vec::new();
    assert(buffer@ =~= Seq::<Value>::empty());
    Ok(IterHelper { state, buffer })
}

/// What a step leaves behind: the transcript, the helper, and the yielded value, or none when the
/// helper is finished, or a thrown value.
pub type Stepped = (World, Helper, Result<Option<Value>, Value>);

impl Helper {
    pub open spec fn counting(self) -> Helper {
        Helper {
            state: HelperState { count: num::counted(self.state.count as int) as u64, ..self.state },
            ..self
        }
    }

    /// One step of `map`.
    pub open spec fn map_step(self, w: World) -> Stepped {
        let s = self.state;
        let (w, step) = stepped(w, s.source, s.next);
        match step {
            Err(e) => (w, self, Err(e)),
            Ok(None) => (w, self, Ok(None)),
            Ok(Some(v)) => {
                let (w, r) = w.call(
                    s.f,
                    Value::Undefined,
                    seq![v, Value::Num(num::number(s.count as int))],
                );
                match r {
                    Err(e) => {
                        let (w, _) = w.plain(Op::Close(s.source), Seq::empty());
                        (w, self, Err(e))
                    },
                    Ok(mapped) => (w, self.counting(), Ok(Some(mapped))),
                }
            },
        }
    }

    /// The rest of a step of `filter`.
    pub open spec fn filter_step(self, w: World) -> Stepped
        decreases w.left(),
    {
        let s = self.state;
        let (w1, step) = stepped(w, s.source, s.next);
        match step {
            Err(e) => (w1, self, Err(e)),
            Ok(None) => (w1, self, Ok(None)),
            Ok(Some(v)) => {
                let (w2, r) = w1.call(
                    s.f,
                    Value::Undefined,
                    seq![v, Value::Num(num::number(s.count as int))],
                );
                match r {
                    Err(e) => {
                        let (w3, _) = w2.plain(Op::Close(s.source), Seq::empty());
                        (w3, self, Err(e))
                    },
                    Ok(r) => if w2.truthy(r) {
                        (w2, self.counting(), Ok(Some(v)))
                    } else {
                        self.counting().filter_step(w2)
                    },
                }
            },
        }
    }

    /// One step of `take`.
    pub open spec fn take_step(self, w: World) -> Stepped {
        let s = self.state;
        if !s.limit.above(s.count as int) {
            let h = Helper { state: HelperState { done: true, ..s }, ..self };
            let (w, c) = w.value(Op::CloseNormal(s.source), Seq::empty());
            match c {
                Err(e) => (w, h, Err(e)),
                Ok(_) => (w, h, Ok(None)),
            }
        } else {
            let (w, step) = stepped(w, s.source, s.next);
            (w, self.counting(), step)
        }
    }

    /// A step of `drop` with `n` elements skipped so far.
    pub open spec fn drop_step(self, w: World, n: int) -> Stepped
        decreases w.left(),
    {
        let s = self.state;
        if !s.skipped && s.limit.above(n) {
            let (w1, step) = stepped(w, s.source, s.next);
            match step {
                Err(e) => (w1, self, Err(e)),
                Ok(None) => (
                    w1,
                    Helper { state: HelperState { skipped: true, done: true, ..s }, ..self },
                    Ok(None),
                ),
                Ok(Some(_)) => self.drop_step(w1, num::counted(n)),
            }
        } else {
            let (w1, step) = stepped(w, s.source, s.next);
            (w1, Helper { state: HelperState { skipped: true, ..s }, ..self }, step)
        }
    }

    pub open spec fn ended(self) -> Helper {
        Helper { state: HelperState { source_done: true, ..self.state }, ..self }
    }

    /// A step of `chunks` with the elements in `chunk` collected so far.
    pub open spec fn chunk_step(self, w: World, chunk: Seq<Value>) -> Stepped
        decreases w.left(),
    {
        let s = self.state;
        let (w1, step) = stepped(w, s.source, s.next);
        match step {
            Err(e) => (w1, self, Err(e)),
            Ok(None) => if chunk.len() == 0 {
                (w1, self.ended(), Ok(None))
            } else {
                let (w2, a) = w1.plain(Op::NewArray, chunk);
                (w2, self.ended(), Ok(Some(a)))
            },
            Ok(Some(v)) => if chunk.len() + 1 == s.size {
                let (w2, a) = w1.plain(Op::NewArray, chunk.push(v));
                (w2, self, Ok(Some(a)))
            } else {
                self.chunk_step(w1, chunk.push(v))
            },
        }
    }

    /// A window after one more element.
    pub open spec fn slide(self, window: Seq<Value>, v: Value) -> Seq<Value> {
        if window.len() == self.state.size {
            window.drop_first().push(v)
        } else {
            window.push(v)
        }
    }

    /// A step of `windows` with the elements in `window` collected so far.
    pub open spec fn window_step(self, w: World, window: Seq<Value>) -> Stepped
        decreases w.left(),
    {
        let s = self.state;
        let (w1, step) = stepped(w, s.source, s.next);
        match step {
            Err(e) => (w1, self, Err(e)),
            Ok(None) => if s.allow_partial && 0 < window.len() < s.size {
                let (w2, a) = w1.plain(Op::NewArray, window);
                (w2, self.ended(), Ok(Some(a)))
            } else {
                (w1, self.ended(), Ok(None))
            },
            Ok(Some(v)) => {
                let slid = self.slide(window, v);
                if slid.len() == s.size {
                    let (w2, a) = w1.plain(Op::NewArray, slid);
                    (w2, Helper { buffer: slid, ..self }, Ok(Some(a)))
                } else {
                    self.window_step(w1, slid)
                }
            },
        }
    }

    pub open spec fn with_inner(self, inner: Value, inner_next: Value) -> Helper {
        Helper { state: HelperState { inner, inner_next, ..self.state }, ..self }
    }

    /// A step of `flatMap`.
    pub open spec fn flat_step(self, w: World) -> Stepped
        decreases w.left(),
    {
        let s = self.state;
        if s.inner.object() {
            let (w1, step) = stepped(w, s.inner, s.inner_next);
            match step {
                Ok(Some(v)) => (w1, self, Ok(Some(v))),
                Ok(None) => self.with_inner(Value::Undefined, s.inner_next).flat_step(w1),
                Err(e) => {
                    let (w2, _) = w1.plain(Op::Close(s.source), Seq::empty());
                    (w2, self, Err(e))
                },
            }
        } else {
            let (w1, step) = stepped(w, s.source, s.next);
            match step {
                Err(e) => (w1, self, Err(e)),
                Ok(None) => (w1, self, Ok(None)),
                Ok(Some(v)) => {
                    let (w2, r) = w1.call(
                        s.f,
                        Value::Undefined,
                        seq![v, Value::Num(num::number(s.count as int))],
                    );
                    match r {
                        Err(e) => {
                            let (w3, _) = w2.plain(Op::Close(s.source), Seq::empty());
                            (w3, self, Err(e))
                        },
                        Ok(mapped) => {
                            let (w3, opened) = inner_opened(w2, mapped);
                            match opened {
                                Err(e) => {
                                    let (w4, _) = w3.plain(Op::Close(s.source), Seq::empty());
                                    (w4, self.counting(), Err(e))
                                },
                                Ok((it, n)) => self.counting().with_inner(it, n).flat_step(w3),
                            }
                        },
                    }
                },
            }
        }
    }

    /// One step of any helper.
    pub open spec fn step(self, w: World) -> Stepped {
        match self.state.kind {
            HelperKind::Mapping => self.map_step(w),
            HelperKind::Filter => self.filter_step(w),
            HelperKind::Take => self.take_step(w),
            HelperKind::Drop => self.drop_step(w, 0),
            HelperKind::FlatMap => self.flat_step(w),
            HelperKind::Chunks => if self.state.source_done {
                (w, self, Ok(None))
            } else {
                self.chunk_step(w, Seq::empty())
            },
            HelperKind::Windows => if self.state.source_done {
                (w, self, Ok(None))
            } else {
                self.window_step(w, self.buffer)
            },
        }
    }

    pub open spec fn entered(self) -> Helper {
        Helper { state: HelperState { started: true, running: true, ..self.state }, ..self }
    }

    /// The helper after a step; a step that yields nothing completes it.
    pub open spec fn left_with(self, finished: bool) -> Helper {
        Helper {
            state: HelperState {
                running: false,
                done: finished || self.state.done,
                ..self.state
            },
            ..self
        }
    }

    /// `%IteratorHelperPrototype%.next`.
    pub open spec fn advance(self, w: World) -> (World, Helper, Result<Value, Value>) {
        if self.state.running {
            let (w, r) = w.throw(ErrorKind::Type, "iterator helper is already running");
            (w, self, r)
        } else if self.state.done {
            let (w, r) = w.iter_result(Value::Undefined, true);
            (w, self, r)
        } else {
            let (w, h, r) = self.entered().step(w);
            match r {
                Err(e) => (w, h.left_with(true), Err(e)),
                Ok(None) => {
                    let (w, r) = w.iter_result(Value::Undefined, true);
                    (w, h.left_with(true), r)
                },
                Ok(Some(v)) => {
                    let (w, r) = w.iter_result(v, false);
                    (w, h.left_with(false), r)
                },
            }
        }
    }

    /// What `return` closes: an open inner iterator first, then a source that is not done.
    pub open spec fn closed_all(self, w: World) -> Outcome<()> {
        let s = self.state;
        let (w, c) = if s.inner.object() {
            w.value(Op::CloseNormal(s.inner), Seq::empty())
        } else {
            (w, Ok(Value::Undefined))
        };
        match c {
            Err(e) => (w, Err(e)),
            Ok(_) => if s.source_done {
                (w, Ok(()))
            } else {
                let (w, c) = w.value(Op::CloseNormal(s.source), Seq::empty());
                match c {
                    Err(e) => (w, Err(e)),
                    Ok(_) => (w, Ok(())),
                }
            },
        }
    }

    pub open spec fn finished(self) -> Helper {
        Helper { state: HelperState { running: false, done: true, ..self.state }, ..self }
    }

    /// `%IteratorHelperPrototype%.return`.
    pub open spec fn returned(self, w: World) -> (World, Helper, Result<Value, Value>) {
        if self.state.running {
            let (w, r) = w.throw(ErrorKind::Type, "iterator helper is already running");
            (w, self, r)
        } else if self.state.done {
            let (w, r) = w.iter_result(Value::Undefined, true);
            (w, self, r)
        } else {
            let (w, c) = self.closed_all(w);
            match c {
                Err(e) => (w, self.finished(), Err(e)),
                Ok(_) => {
                    let (w, r) = w.iter_result(Value::Undefined, true);
                    (w, self.finished(), r)
                },
            }
        }
    }
}

/// GetIteratorFlattenable: a string (when allowed) or an object's @@iterator, or the object itself
/// when it has no @@iterator.
pub open spec fn flattenable(w: World, v: Value, allow_strings: bool) -> Outcome<Value> {
    if !(v.object() || (allow_strings && v is Str)) {
        w.throw(ErrorKind::Type, "value is not iterable")
    } else {
        let (w, m) = w.get(v, Key::Symbol(crate::interp::WellKnown::Iterator));
        match m {
            Err(e) => (w, Err(e)),
            Ok(m) => {
                let (w, it) = if m.nullish() {
                    (w, Ok(v))
                } else if m.callable() {
                    w.call(m, v, Seq::empty())
                } else {
                    w.throw(ErrorKind::Type, "@@iterator is not callable")
                };
                match it {
                    Err(e) => (w, Err(e)),
                    Ok(it) => if it.object() {
                        (w, Ok(it))
                    } else {
                        w.throw(ErrorKind::Type, "iterator is not an object")
                    },
                }
            },
        }
    }
}

pub fn get_iterator_flattenable(i: &mut Interp, v: Value, allow_strings: bool) -> (r: Result<
    Value,
    Value,
>)
    ensures
        (final(i)@, r) == flattenable(old(i)@, v, allow_strings),
{
    let fits = match v {
        Value::Obj(_) => true,
        Value::Str(_) => allow_strings,
        _ => false,
    };
    if !fits {
        return i.type_error("value is not iterable");
    }
    let m = i.get_member(v, Key::Symbol(crate::interp::WellKnown::Iterator))?;
    let it = if m.is_nullish() {
        v
    } else if m.is_callable() {
        let args: Vec<Value> = Vec::new();
        assert(args@ =~= Seq::<Value>::empty());
        i.call(m, v, args)?
    } else {
        return i.type_error("@@iterator is not callable");
    };
    if !it.is_object() {
        return i.type_error("iterator is not an object");
    }
    Ok(it)
}

/// An iterator over a mapped value, and its `next`.
pub open spec fn inner_opened(w: World, mapped: Value) -> Outcome<(Value, Value)> {
    let (w, it) = flattenable(w, mapped, false);
    match it {
        Err(e) => (w, Err(e)),
        Ok(it) => {
            let (w, n) = w.get(it, Key::Name("next"));
            match n {
                Err(e) => (w, Err(e)),
                Ok(n) => (w, Ok((it, n))),
            }
        },
    }
}

/// Opens an iterator over a value, primitives excluded, and reads its `next` once.
pub fn open_inner(i: &mut Interp, mapped: Value) -> (r: Result<(Value, Value), Value>)
    ensures
        (final(i)@, r) == inner_opened(old(i)@, mapped),
{
    let it = get_iterator_flattenable(i, mapped, false)?;
    let n = i.get_member(it, Key::Name("next"))?;
    Ok((it, n))
}

fn bump(h: &mut IterHelper)
    requires
        old(h)@.wf(),
    ensures
        final(h)@ == old(h)@.counting(),
        final(h)@.wf(),
{
    h.state.count = num::next_count(h.state.count);
}

fn map_step(i: &mut Interp, h: &mut IterHelper) -> (r: Result<Option<Value>, Value>)
    requires
        old(h)@.wf(),
    ensures
        (final(i)@, final(h)@, r) == old(h)@.map_step(old(i)@),
        final(h)@.wf(),
{
    let s = h.state;
    match step_iter_with(i, s.source, s.next)? {
        None => Ok(None),
        Some(v) => {
            let list = vec![v, Value::Num(num::of_u64(s.count))];
            assert(list@ =~= seq![v, Value::Num(num::number(s.count as int))]);
            match i.call(s.f, Value::Undefined, list) {
                Ok(mapped) => {
                    bump(h);
                    Ok(Some(mapped))
                },
                Err(e) => {
                    i.iterator_close(s.source);
                    Err(e)
                },
            }
        },
    }
}

fn filter_step(i: &mut Interp, h: &mut IterHelper) -> (r: Result<Option<Value>, Value>)
    requires
        old(h)@.wf(),
    ensures
        (final(i)@, final(h)@, r) == old(h)@.filter_step(old(i)@),
        final(h)@.wf(),
{
    loop
        invariant
            h@.wf(),
            h@.filter_step(i@) == old(h)@.filter_step(old(i)@),
        decreases i@.left(),
    {
        let s = h.state;
        match step_iter_with(i, s.source, s.next)? {
            None => return Ok(None),
            Some(v) => {
                let list = vec![v, Value::Num(num::of_u64(s.count))];
                assert(list@ =~= seq![v, Value::Num(num::number(s.count as int))]);
                match i.call(s.f, Value::Undefined, list) {
                    Ok(r) => {
                        bump(h);
                        if i.to_boolean(r) {
                            return Ok(Some(v));
                        }
                    },
                    Err(e) => {
                        i.iterator_close(s.source);
                        return Err(e);
                    },
                }
            },
        }
    }
}

fn take_step(i: &mut Interp, h: &mut IterHelper) -> (r: Result<Option<Value>, Value>)
    requires
        old(h)@.wf(),
    ensures
        (final(i)@, final(h)@, r) == old(h)@.take_step(old(i)@),
        final(h)@.wf(),
{
    let s = h.state;
    if !s.limit.is_above(s.count) {
        h.state.done = true;
        i.iterator_close_normal(s.source)?;
        return Ok(None);
    }
    bump(h);
    step_iter_with(i, s.source, s.next)
}

fn drop_step(i: &mut Interp, h: &mut IterHelper) -> (r: Result<Option<Value>, Value>)
    requires
        old(h)@.wf(),
    ensures
        (final(i)@, final(h)@, r) == old(h)@.drop_step(old(i)@, 0),
        final(h)@.wf(),
{
    let s = h.state;
    let mut n: u64 = 0;
    while !s.skipped && s.limit.is_above(n)
        invariant
            n <= num::COUNT_LIMIT,
            h@ == old(h)@,
            s == h.state,
            h@.wf(),
            h@.drop_step(i@, n as int) == old(h)@.drop_step(old(i)@, 0),
        decreases i@.left(),
    {
        match step_iter_with(i, s.source, s.next)? {
            None => {
                // Exhausted while skipping: the helper completes here — no further
                // step of the underlying iterator.
                h.state.skipped = true;
                h.state.done = true;
                return Ok(None);
            },
            Some(_) => {},
        }
        n = num::next_count(n);
    }
    h.state.skipped = true;
    step_iter_with(i, s.source, s.next)
}

fn chunk_step(i: &mut Interp, h: &mut IterHelper) -> (r: Result<Option<Value>, Value>)
    requires
        old(h)@.wf(),
    ensures
        (final(i)@, final(h)@, r) == old(h)@.chunk_step(old(i)@, Seq::empty()),
        final(h)@.wf(),
{
    let s = h.state;
    let mut chunk: Vec<Value> = Vec::new();
    assert(chunk@ =~= Seq::<Value>::empty());
    loop
        invariant
            h@ == old(h)@,
            s == h.state,
            h@.wf(),
            chunk@.len() < s.size,
            h@.chunk_step(i@, chunk@) == old(h)@.chunk_step(old(i)@, Seq::empty()),
        decreases i@.left(),
    {
        match step_iter_with(i, s.source, s.next)? {
            Some(v) => {
                chunk.push(v);
                if chunk.len() as u64 == s.size {
                    return Ok(Some(i.make_array(chunk)));
                }
            },
            None => {
                h.state.source_done = true;
                return if chunk.len() == 0 {
                    Ok(None)
                } else {
                    Ok(Some(i.make_array(chunk)))
                };
            },
        }
    }
}

fn copy_window(v: &Vec<Value>, from: usize) -> (r: Vec<Value>)
    requires
        from <= v@.len(),
    ensures
        r@ == v@.skip(from as int),
{
    let mut out: Vec<Value> = Vec::new();
    let mut j: usize = from;
    while j < v.len()
        invariant
            from <= j <= v@.len(),
            out@ == v@.subrange(from as int, j as int),
        decreases v@.len() - j,
    {
        out.push(v[j]);
        assert(v@.subrange(from as int, j + 1) =~= v@.subrange(from as int, j as int).push(
            v@[j as int],
        ));
        j += 1;
    }
    assert(v@.subrange(from as int, j as int) =~= v@.skip(from as int));
    out
}

fn window_step(i: &mut Interp, h: &mut IterHelper) -> (r: Result<Option<Value>, Value>)
    requires
        old(h)@.wf(),
    ensures
        (final(i)@, final(h)@, r) == old(h)@.window_step(old(i)@, old(h)@.buffer),
        final(h)@.wf(),
{
    let s = h.state;
    let mut window: Vec<Value> = copy_window(&h.buffer, 0);
    assert(window@ =~= h@.buffer);
    loop
        invariant
            h@ == old(h)@,
            s == h.state,
            h@.wf(),
            h@.window_step(i@, window@) == old(h)@.window_step(old(i)@, old(h)@.buffer),
        decreases i@.left(),
    {
        match step_iter_with(i, s.source, s.next)? {
            Some(v) => {
                let ghost before = window@;
                if window.len() as u64 == s.size {
                    window = copy_window(&window, 1);
                }
                window.push(v);
                assert(window@ =~= h@.slide(before, v));
                if window.len() as u64 == s.size {
                    let shown = copy_window(&window, 0);
                    assert(shown@ =~= window@);
                    h.buffer = window;
                    return Ok(Some(i.make_array(shown)));
                }
            },
            None => {
                h.state.source_done = true;
                return if s.allow_partial && window.len() > 0 && (window.len() as u64) < s.size {
                    Ok(Some(i.make_array(window)))
                } else {
                    Ok(None)
                };
            },
        }
    }
}

fn flat_step(i: &mut Interp, h: &mut IterHelper) -> (r: Result<Option<Value>, Value>)
    requires
        old(h)@.wf(),
    ensures
        (final(i)@, final(h)@, r) == old(h)@.flat_step(old(i)@),
        final(h)@.wf(),
{
    loop
        invariant
            h@.wf(),
            h@.flat_step(i@) == old(h)@.flat_step(old(i)@),
        decreases i@.left(),
    {
        let s = h.state;
        // Drain the active inner iterator first (lazily — it may be infinite).
        if s.inner.is_object() {
            match step_iter_with(i, s.inner, s.inner_next) {
                Ok(Some(v)) => return Ok(Some(v)),
                Ok(None) => {
                    h.state.inner = Value::Undefined;
                },
                Err(e) => {
                    // An abrupt inner step closes the outer iterator with the same error.
                    i.iterator_close(s.source);
                    return Err(e);
                },
            }
        } else {
            // Refill: map the next outer value to an iterable and open it.
            match step_iter_with(i, s.source, s.next)? {
                None => return Ok(None),
                Some(v) => {
                    let list = vec![v, Value::Num(num::of_u64(s.count))];
                    assert(list@ =~= seq![v, Value::Num(num::number(s.count as int))]);
                    match i.call(s.f, Value::Undefined, list) {
                        Err(e) => {
                            i.iterator_close(s.source);
                            return Err(e);
                        },
                        Ok(mapped) => {
                            bump(h);
                            match open_inner(i, mapped) {
                                Ok((it, n)) => {
                                    h.state.inner = it;
                                    h.state.inner_next = n;
                                },
                                Err(e) => {
                                    i.iterator_close(s.source);
                                    return Err(e);
                                },
                            }
                        },
                    }
                },
            }
        }
    }
}

pub fn iter_helper_step(i: &mut Interp, h: &mut IterHelper) -> (r: Result<Option<Value>, Value>)
    requires
        old(h)@.wf(),
    ensures
        (final(i)@, final(h)@, r) == old(h)@.step(old(i)@),
        final(h)@.wf(),
{
    match h.state.kind {
        HelperKind::Mapping => map_step(i, h),
        HelperKind::Filter => filter_step(i, h),
        HelperKind::Take => take_step(i, h),
        HelperKind::Drop => drop_step(i, h),
        HelperKind::FlatMap => flat_step(i, h),
        HelperKind::Chunks => {
            if h.state.source_done {
                Ok(None)
            } else {
                chunk_step(i, h)
            }
        },
        HelperKind::Windows => {
            if h.state.source_done {
                Ok(None)
            } else {
                window_step(i, h)
            }
        },
    }
}

/// `%IteratorHelperPrototype%.next`. A helper that is executing throws, and one that has finished
/// stays done and never touches the source again.
pub fn iter_helper_next(i: &mut Interp, h: &mut IterHelper) -> (r: Result<Value, Value>)
    requires
        old(h)@.wf(),
    ensures
        (final(i)@, final(h)@, r) == old(h)@.advance(old(i)@),
        final(h)@.wf(),
{
    if h.state.running {
        return i.type_error("iterator helper is already running");
    }
    if h.state.done {
        return i.iter_result(Value::Undefined, true);
    }
    h.state.started = true;
    h.state.running = true;
    let res = iter_helper_step(i, h);
    h.state.running = false;
    match res {
        Err(e) => {
            h.state.done = true;
            Err(e)
        },
        Ok(None) => {
            h.state.done = true;
            i.iter_result(Value::Undefined, true)
        },
        Ok(Some(v)) => i.iter_result(v, false),
    }
}

fn close_all(i: &mut Interp, h: &IterHelper) -> (r: Result<(), Value>)
    ensures
        (final(i)@, r) == h@.closed_all(old(i)@),
{
    let s = h.state;
    // A helper suspended inside a flatMap inner iterator closes it first.
    if s.inner.is_object() {
        i.iterator_close_normal(s.inner)?;
    }
    if !s.source_done {
        // A normal return() propagates an error from the source's return method.
        i.iterator_close_normal(s.source)?;
    }
    Ok(())
}

/// %IteratorHelperPrototype%.return: closes the underlying iterator once. While it closes, a
/// helper that has been started is executing and one that has not is already complete.
pub fn iter_helper_return(i: &mut Interp, h: &mut IterHelper) -> (r: Result<Value, Value>)
    requires
        old(h)@.wf(),
    ensures
        (final(i)@, final(h)@, r) == old(h)@.returned(old(i)@),
        final(h)@.wf(),
{
    if h.state.running {
        return i.type_error("iterator helper is already running");
    }
    if h.state.done {
        return i.iter_result(Value::Undefined, true);
    }
    let res = close_all(i, h);
    h.state.running = false;
    h.state.done = true;
    res?;
    i.iter_result(Value::Undefined, true)
}

/// A finished helper stays finished, and neither `next` nor `return` touches its source again.
pub proof fn law_finished_helper_is_inert(h: Helper, w: World)
    requires
        h.state.done,
        !h.state.running,
    ensures
        h.advance(w).1 == h,
        h.returned(w).1 == h,
        h.advance(w).0 == w.plain(Op::NewIterResult(Value::Undefined, true), Seq::empty()).0,
        h.returned(w).0 == h.advance(w).0,
{
}

/// A helper that is executing is left as it is, and throws.
pub proof fn law_running_helper_throws(h: Helper, w: World)
    requires
        h.state.running,
    ensures
        h.advance(w).1 == h,
        h.advance(w).2 is Err,
        h.returned(w).1 == h,
        h.returned(w).2 is Err,
{
}

/// A throw completes a helper, and so does `return`, whatever closing the source does.
pub proof fn law_errors_and_returns_complete(h: Helper, w: World)
    requires
        !h.state.running,
        !h.state.done,
    ensures
        h.advance(w).2 is Err ==> h.advance(w).1.state.done,
        h.returned(w).1.state.done,
        !h.advance(w).1.state.running,
        !h.returned(w).1.state.running,
{
}

/// `take` reads no more elements than its limit: once they are counted it closes its source and
/// ends.
pub proof fn law_take_stops_at_its_limit(h: Helper, w: World)
    requires
        h.state.kind == HelperKind::Take,
        !h.state.limit.above(h.state.count as int),
    ensures
        h.step(w).0 == w.value(Op::CloseNormal(h.state.source), Seq::empty()).0,
        h.step(w).2 is Err || h.step(w).2 == Ok::<Option<Value>, Value>(None),
        h.step(w).1.state.done,
{
}

/// A window never holds more than its size, and `slide` keeps the newest elements in order.
pub proof fn law_windows_keep_their_size(h: Helper, window: Seq<Value>, v: Value)
    requires
        h.wf(),
        window.len() <= h.state.size,
    ensures
        h.slide(window, v).len() <= h.state.size,
        h.slide(window, v).last() == v,
        window.len() == h.state.size ==> h.slide(window, v).drop_last() == window.drop_first(),
        window.len() < h.state.size ==> h.slide(window, v).drop_last() == window,
{
    if window.len() == h.state.size {
        assert(h.slide(window, v).drop_last() =~= window.drop_first());
    } else {
        assert(h.slide(window, v).drop_last() =~= window);
    }
}

impl Helper {
    /// The elements that a step of `chunks` draws from its source, with so many collected already.
    pub open spec fn drawn(self, w: World, collected: int) -> Seq<Value>
        decreases w.left(),
    {
        let (w1, r) = stepped(w, self.state.source, self.state.next);
        match r {
            Ok(Some(v)) => if collected + 1 == self.state.size {
                seq![v]
            } else {
                seq![v] + self.drawn(w1, collected + 1)
            },
            _ => Seq::empty(),
        }
    }

    /// The elements that `n` steps of a `chunks` helper draw from its source.
    pub open spec fn drawn_in(self, w: World, n: nat) -> Seq<Value>
        decreases n,
    {
        if n == 0 || self.state.source_done {
            Seq::empty()
        } else {
            let (w1, after, _) = self.chunk_step(w, Seq::empty());
            self.drawn(w, 0) + after.drawn_in(w1, (n - 1) as nat)
        }
    }

    /// The chunks that `n` steps of a `chunks` helper hand out.
    pub open spec fn chunks_in(self, w: World, n: nat) -> Seq<Seq<Value>>
        decreases n,
    {
        if n == 0 || self.state.source_done {
            Seq::empty()
        } else {
            let (w1, after, r) = self.chunk_step(w, Seq::empty());
            (match r {
                Ok(Some(_)) => seq![self.drawn(w, 0)],
                _ => Seq::empty(),
            }) + after.chunks_in(w1, (n - 1) as nat)
        }
    }

    /// None of `n` steps throws.
    pub open spec fn runs(self, w: World, n: nat) -> bool
        decreases n,
    {
        n == 0 || self.state.source_done || {
            let (w1, after, r) = self.chunk_step(w, Seq::empty());
            r is Ok && after.runs(w1, (n - 1) as nat)
        }
    }
}

/// Chunks end to end.
pub open spec fn end_to_end(chunks: Seq<Seq<Value>>) -> Seq<Value>
    decreases chunks.len(),
{
    if chunks.len() == 0 {
        Seq::empty()
    } else {
        chunks[0] + end_to_end(chunks.drop_first())
    }
}

/// A chunk is an array of what its step drew, in order: as many elements as its size, or fewer, but
/// not none, at the end of the source. Without elements there is no chunk.
pub proof fn law_a_chunk_is_what_was_drawn(h: Helper, w: World, chunk: Seq<Value>) -> (before: World)
    requires
        h.wf(),
        chunk.len() < h.state.size,
    ensures
        ({
            let (after, h2, r) = h.chunk_step(w, chunk);
            let got = chunk + h.drawn(w, chunk.len() as int);
            &&& r matches Ok(Some(a)) ==> {
                &&& (after, a) == before.plain(Op::NewArray, got)
                &&& 0 < got.len() <= h.state.size
                &&& got.len() == h.state.size || h2.state.source_done
            }
            &&& r == Ok::<Option<Value>, Value>(None) ==> got.len() == 0 && h2.state.source_done
        }),
    decreases w.left(),
{
    let (w1, r) = stepped(w, h.state.source, h.state.next);
    match r {
        Ok(Some(v)) => {
            let more = chunk.push(v);
            if chunk.len() + 1 == h.state.size {
                assert(chunk + seq![v] =~= more);
                w1
            } else {
                let before = law_a_chunk_is_what_was_drawn(h, w1, more);
                assert(more + h.drawn(w1, more.len() as int) =~= chunk + h.drawn(
                    w,
                    chunk.len() as int,
                ));
                before
            }
        },
        _ => {
            assert(chunk + h.drawn(w, chunk.len() as int) =~= chunk);
            w1
        },
    }
}

/// The chunks of a source, end to end, are the elements that were drawn from it.
pub proof fn law_chunks_make_up_the_source(h: Helper, w: World, n: nat)
    requires
        h.wf(),
        h.runs(w, n),
    ensures
        end_to_end(h.chunks_in(w, n)) == h.drawn_in(w, n),
    decreases n,
{
    if n > 0 && !h.state.source_done {
        let (w1, after, r) = h.chunk_step(w, Seq::empty());
        let _ = law_a_chunk_is_what_was_drawn(h, w, Seq::empty());
        assert(Seq::<Value>::empty() + h.drawn(w, 0) =~= h.drawn(w, 0));
        lemma_chunk_step_keeps(h, w, Seq::empty());
        law_chunks_make_up_the_source(after, w1, (n - 1) as nat);
        let rest = after.chunks_in(w1, (n - 1) as nat);
        if r matches Ok(Some(_)) {
            let all = seq![h.drawn(w, 0)] + rest;
            assert(all.drop_first() =~= rest);
            assert(h.chunks_in(w, n) == all);
        } else {
            assert(Seq::<Seq<Value>>::empty() + rest =~= rest);
            assert(h.drawn(w, 0) + after.drawn_in(w1, (n - 1) as nat) =~= after.drawn_in(
                w1,
                (n - 1) as nat,
            ));
        }
    } else {
        assert(end_to_end(Seq::empty()) == Seq::<Value>::empty());
    }
}

proof fn lemma_chunk_step_keeps(h: Helper, w: World, chunk: Seq<Value>)
    requires
        h.wf(),
        chunk.len() < h.state.size,
    ensures
        h.chunk_step(w, chunk).1.wf(),
    decreases w.left(),
{
    let (w1, r) = stepped(w, h.state.source, h.state.next);
    if let Ok(Some(v)) = r {
        if chunk.len() + 1 != h.state.size {
            lemma_chunk_step_keeps(h, w1, chunk.push(v));
        }
    }
}

} // verus!
