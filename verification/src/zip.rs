//! `Iterator.zip`, `Iterator.zipKeyed` and `Iterator.concat`.
use vstd::prelude::*;
use crate::interp::{arg, arg_at, ErrorKind, Interp, Key, Op, Outcome, Value, WellKnown, World};
use crate::iter_helper::{flattenable, get_iterator_flattenable};
use crate::iterator::{lemma_step_asks, step_iter_with, stepped};
use crate::proxy::{js_own_keys, js_own_property, own_keys_of, own_property_of};
use crate::realm::{set_data, stored};

verus! {

/// What ends a zip whose inputs have different lengths.
#[derive(Clone, Copy, PartialEq, Eq, Structural, Debug)]
pub enum ZipMode {
    Shortest,
    Longest,
    Strict,
}

/// The internal slots of a zip iterator.
pub struct ZipIter {
    pub iters: Vec<Value>,
    pub nexts: Vec<Value>,
    /// Which inputs have ended.
    pub closed: Vec<bool>,
    /// What stands for an ended input in `longest` mode.
    pub pad: Vec<Value>,
    /// The keys of a keyed zip.
    pub keys: Vec<Value>,
    pub keyed: bool,
    pub mode: ZipMode,
    pub finished: bool,
    pub running: bool,
    pub started: bool,
}

/// A zip iterator as contracts speak of it.
#[verifier::ext_equal]
pub struct Zip {
    pub iters: Seq<Value>,
    pub nexts: Seq<Value>,
    pub closed: Seq<bool>,
    pub pad: Seq<Value>,
    pub keys: Seq<Value>,
    pub keyed: bool,
    pub mode: ZipMode,
    pub finished: bool,
    pub running: bool,
    pub started: bool,
}

impl View for ZipIter {
    type V = Zip;

    open spec fn view(&self) -> Zip {
        Zip {
            iters: self.iters@,
            nexts: self.nexts@,
            closed: self.closed@,
            pad: self.pad@,
            keys: self.keys@,
            keyed: self.keyed,
            mode: self.mode,
            finished: self.finished,
            running: self.running,
            started: self.started,
        }
    }
}

impl Zip {
    /// Every input has its `next`, its state and its padding, and in a keyed zip its key.
    pub open spec fn wf(self) -> bool {
        &&& self.nexts.len() == self.iters.len()
        &&& self.closed.len() == self.iters.len()
        &&& self.pad.len() == self.iters.len()
        &&& self.keyed ==> self.keys.len() == self.iters.len()
    }

    pub open spec fn with_closed(self, closed: Seq<bool>) -> Zip {
        Zip { closed, ..self }
    }

    /// Input `j` has ended.
    pub open spec fn marked(self, j: int) -> Zip {
        self.with_closed(self.closed.update(j, true))
    }

    pub open spec fn all_closed(self) -> bool {
        forall|j: int| 0 <= j < self.closed.len() ==> #[trigger] self.closed[j]
    }
}

/// Closes the inputs up to `j` that are still open, in reverse order. With a pending error all
/// close errors are swallowed; on a normal completion the first close error wins.
pub open spec fn closed_down(
    w: World,
    iters: Seq<Value>,
    closed: Seq<bool>,
    j: int,
    pending: Option<Value>,
) -> (World, Seq<bool>, Option<Value>)
    decreases j + 1,
{
    if j < 0 {
        (w, closed, pending)
    } else if closed[j] {
        closed_down(w, iters, closed, j - 1, pending)
    } else if pending is Some {
        let (w, _) = w.plain(Op::Close(iters[j]), Seq::empty());
        closed_down(w, iters, closed.update(j, true), j - 1, pending)
    } else {
        let (w, r) = w.value(Op::CloseNormal(iters[j]), Seq::empty());
        closed_down(
            w,
            iters,
            closed.update(j, true),
            j - 1,
            match r {
                Ok(_) => None,
                Err(e) => Some(e),
            },
        )
    }
}

/// IteratorCloseAll over the inputs of a zip that are still open.
pub open spec fn zip_closed(w: World, z: Zip, pending: Option<Value>) -> (World, Zip, Option<Value>) {
    let (w, closed, pending) = closed_down(w, z.iters, z.closed, z.iters.len() - 1, pending);
    (w, z.with_closed(closed), pending)
}

fn set_closed(v: &mut Vec<bool>, j: usize)
    requires
        j < old(v)@.len(),
    ensures
        final(v)@ == old(v)@.update(j as int, true),
{
    v[j] = true;
}

/// IteratorCloseAll over the zip iterator's still-open inputs, in reverse order. With a pending
/// error (`err`) all close errors are swallowed and the pending error is returned; on a normal
/// completion the first close error wins (later closes still run but are swallowed).
pub fn zip_close_open(i: &mut Interp, z: &mut ZipIter, err: Option<Value>) -> (r: Option<Value>)
    requires
        old(z)@.wf(),
    ensures
        (final(i)@, final(z)@, r) == zip_closed(old(i)@, old(z)@, err),
        final(z)@.wf(),
{
    let mut pending = err;
    let mut j: usize = z.iters.len();
    while j > 0
        invariant
            z@ == old(z)@.with_closed(z@.closed),
            z@.wf(),
            j <= z@.iters.len(),
            closed_down(old(i)@, z@.iters, old(z)@.closed, z@.iters.len() - 1, err) == closed_down(
                i@,
                z@.iters,
                z@.closed,
                j - 1,
                pending,
            ),
        decreases j,
    {
        j -= 1;
        if !z.closed[j] {
            set_closed(&mut z.closed, j);
            let it = z.iters[j];
            match pending {
                Some(_) => {
                    i.iterator_close(it);
                },
                None => {
                    match i.iterator_close_normal(it) {
                        Ok(_) => {},
                        Err(e) => {
                            pending = Some(e);
                        },
                    }
                },
            }
        }
    }
    pending
}

/// What a failed step of a zip leaves: the other inputs closed, and the error.
pub open spec fn zip_failed(w: World, z: Zip, e: Value) -> ZipStepped {
    let (w, z, p) = zip_closed(w, z, Some(e));
    (
        w,
        z,
        match p {
            Some(e) => Err(e),
            None => Err(e),
        },
    )
}

/// What a step leaves: the transcript, the zip, and the values, nothing at the end, or an error.
pub type ZipStepped = (World, Zip, Result<Option<Seq<Value>>, Value>);

fn fail_zip(i: &mut Interp, z: &mut ZipIter, e: Value) -> (r: Value)
    requires
        old(z)@.wf(),
    ensures
        (final(i)@, final(z)@, Err::<Option<Seq<Value>>, Value>(r)) == zip_failed(
            old(i)@,
            old(z)@,
            e,
        ),
        final(z)@.wf(),
{
    match zip_close_open(i, z, Some(e)) {
        Some(e) => e,
        None => e,
    }
}

/// Whether an input is done, without reading its value.
pub open spec fn done_read(w: World, src: Value, next: Value) -> Outcome<bool> {
    if !next.callable() {
        w.throw(ErrorKind::Type, "iterator.next is not a function")
    } else {
        let (w, res) = w.call(next, src, Seq::empty());
        match res {
            Err(e) => (w, Err(e)),
            Ok(res) => if !res.object() {
                w.throw(ErrorKind::Type, "iterator result is not an object")
            } else {
                let (w, done) = w.get(res, Key::Name("done"));
                match done {
                    Err(e) => (w, Err(e)),
                    Ok(done) => (w, Ok(w.truthy(done))),
                }
            },
        }
    }
}

fn read_done(i: &mut Interp, src: Value, next: Value) -> (r: Result<bool, Value>)
    ensures
        (final(i)@, r) == done_read(old(i)@, src, next),
{
    if !next.is_callable() {
        return i.type_error("iterator.next is not a function");
    }
    let args: Vec<Value> = Vec::new();
    assert(args@ =~= Seq::<Value>::empty());
    let res = i.call(next, src, args)?;
    if !res.is_object() {
        return i.type_error("iterator result is not an object");
    }
    let done = i.get_member(res, Key::Name("done"))?;
    Ok(i.to_boolean(done))
}

/// The complaint of a strict zip.
pub open spec fn lengths_differ(w: World, z: Zip) -> ZipStepped {
    let (w, e) = w.plain(
        Op::NewError(
            ErrorKind::Type,
            "Iterator.zip strict: input iterators have different lengths",
        ),
        Seq::empty(),
    );
    zip_failed(w, z, e)
}

fn complain_lengths(i: &mut Interp, z: &mut ZipIter) -> (r: Value)
    requires
        old(z)@.wf(),
    ensures
        (final(i)@, final(z)@, Err::<Option<Seq<Value>>, Value>(r)) == lengths_differ(
            old(i)@,
            old(z)@,
        ),
        final(z)@.wf(),
{
    let e = i.make_error(
        ErrorKind::Type,
        "Iterator.zip strict: input iterators have different lengths",
    );
    fail_zip(i, z, e)
}

/// The first input of a strict zip has ended: every other input from `k` on must be done too.
pub open spec fn strict_ended(w: World, z: Zip, k: int) -> ZipStepped
    decreases z.iters.len() - k,
{
    if k < 0 || k >= z.iters.len() {
        (w, z, Ok(None))
    } else {
        let (w, d) = done_read(w, z.iters[k], z.nexts[k]);
        match d {
            Err(e) => zip_failed(w, z.marked(k), e),
            Ok(d) => if d {
                strict_ended(w, z.marked(k), k + 1)
            } else {
                lengths_differ(w, z)
            },
        }
    }
}

fn end_strict(i: &mut Interp, z: &mut ZipIter) -> (r: Result<(), Value>)
    requires
        old(z)@.wf(),
    ensures
        final(i)@ == strict_ended(old(i)@, old(z)@, 1).0,
        final(z)@ == strict_ended(old(i)@, old(z)@, 1).1,
        match r {
            Ok(_) => strict_ended(old(i)@, old(z)@, 1).2 == Ok::<Option<Seq<Value>>, Value>(None),
            Err(e) => strict_ended(old(i)@, old(z)@, 1).2 == Err::<Option<Seq<Value>>, Value>(e),
        },
        final(z)@.wf(),
{
    let n: usize = z.iters.len();
    let mut k: usize = 1;
    while k < n
        invariant
            1 <= k,
            k <= n || n == 0,
            n == z@.iters.len(),
            z@.wf(),
            strict_ended(old(i)@, old(z)@, 1) == strict_ended(i@, z@, k as int),
        decreases n - k,
    {
        match read_done(i, z.iters[k], z.nexts[k]) {
            Err(e) => {
                set_closed(&mut z.closed, k);
                return Err(fail_zip(i, z, e));
            },
            Ok(true) => {
                set_closed(&mut z.closed, k);
            },
            Ok(false) => {
                return Err(complain_lengths(i, z));
            },
        }
        k += 1;
    }
    Ok(())
}

/// One lockstep round from input `j` on, behind the values of the inputs before it.
pub open spec fn zip_round(w: World, z: Zip, j: int, values: Seq<Value>) -> ZipStepped
    decreases z.iters.len() - j,
{
    if j < 0 || j >= z.iters.len() {
        (w, z, Ok(Some(values)))
    } else if z.closed[j] {
        zip_round(w, z, j + 1, values.push(z.pad[j]))
    } else {
        let (w, step) = stepped(w, z.iters[j], z.nexts[j]);
        match step {
            Err(e) => zip_failed(w, z.marked(j), e),
            Ok(Some(v)) => zip_round(w, z, j + 1, values.push(v)),
            Ok(None) => match z.mode {
                ZipMode::Shortest => {
                    let (w, z, p) = zip_closed(w, z.marked(j), None);
                    match p {
                        Some(e) => (w, z, Err(e)),
                        None => (w, z, Ok(None)),
                    }
                },
                ZipMode::Strict => if j != 0 {
                    lengths_differ(w, z.marked(j))
                } else {
                    strict_ended(w, z.marked(0), 1)
                },
                ZipMode::Longest => if z.marked(j).all_closed() {
                    (w, z.marked(j), Ok(None))
                } else {
                    zip_round(w, z.marked(j), j + 1, values.push(z.pad[j]))
                },
            },
        }
    }
}

fn is_all_closed(z: &ZipIter) -> (r: bool)
    ensures
        r == z@.all_closed(),
{
    let mut j: usize = 0;
    while j < z.closed.len()
        invariant
            j <= z@.closed.len(),
            forall|k: int| 0 <= k < j ==> #[trigger] z@.closed[k],
        decreases z@.closed.len() - j,
    {
        if !z.closed[j] {
            assert(!z@.closed[j as int]);
            return false;
        }
        j += 1;
    }
    true
}

/// One lockstep round of the zip closure.
pub open spec fn zip_stepped(w: World, z: Zip) -> ZipStepped {
    if z.iters.len() == 0 {
        (w, z, Ok(None))
    } else {
        zip_round(w, z, 0, Seq::empty())
    }
}

pub open spec fn values_view(r: Result<Option<Vec<Value>>, Value>) -> Result<
    Option<Seq<Value>>,
    Value,
> {
    match r {
        Ok(Some(v)) => Ok(Some(v@)),
        Ok(None) => Ok(None),
        Err(e) => Err(e),
    }
}

/// One lockstep round of the zip closure: the values of the inputs, or nothing at the end.
pub fn zip_step(i: &mut Interp, z: &mut ZipIter) -> (r: Result<Option<Vec<Value>>, Value>)
    requires
        old(z)@.wf(),
    ensures
        (final(i)@, final(z)@, values_view(r)) == zip_stepped(old(i)@, old(z)@),
        final(z)@.wf(),
{
    let n: usize = z.iters.len();
    if n == 0 {
        return Ok(None);
    }
    let mut values: Vec<Value> = Vec::new();
    let mut j: usize = 0;
    assert(values@ =~= Seq::<Value>::empty());
    while j < n
        invariant
            j <= n,
            n == z@.iters.len(),
            z@.wf(),
            zip_stepped(old(i)@, old(z)@) == zip_round(i@, z@, j as int, values@),
        decreases n - j,
    {
        if z.closed[j] {
            values.push(z.pad[j]);
        } else {
            match step_iter_with(i, z.iters[j], z.nexts[j]) {
                Err(e) => {
                    set_closed(&mut z.closed, j);
                    return Err(fail_zip(i, z, e));
                },
                Ok(Some(v)) => {
                    values.push(v);
                },
                Ok(None) => {
                    set_closed(&mut z.closed, j);
                    match z.mode {
                        ZipMode::Shortest => {
                            return match zip_close_open(i, z, None) {
                                Some(e) => Err(e),
                                None => Ok(None),
                            };
                        },
                        ZipMode::Strict => {
                            if j != 0 {
                                return Err(complain_lengths(i, z));
                            }
                            return match end_strict(i, z) {
                                Ok(_) => Ok(None),
                                Err(e) => Err(e),
                            };
                        },
                        ZipMode::Longest => {
                            if is_all_closed(z) {
                                return Ok(None);
                            }
                            values.push(z.pad[j]);
                        },
                    }
                },
            }
        }
        j += 1;
    }
    Ok(Some(values))
}

/// Stores the values from `j` on under their keys.
pub open spec fn keyed_stored(w: World, o: Value, keys: Seq<Value>, values: Seq<Value>, j: int) -> World
    decreases values.len() - j,
{
    if j < 0 || j >= values.len() || j >= keys.len() {
        w
    } else {
        keyed_stored(stored(w, o, Key::Of(keys[j]), values[j]), o, keys, values, j + 1)
    }
}

/// zip yields an Array; zipKeyed a null-prototype object keyed like the input.
pub open spec fn zip_result(w: World, z: Zip, values: Seq<Value>) -> (World, Value) {
    if z.keyed {
        let (w, o) = w.plain(Op::NewWithPrototype(Value::Null), Seq::empty());
        (keyed_stored(w, o, z.keys, values, 0), o)
    } else {
        w.plain(Op::NewArray, values)
    }
}

fn make_zip_result(i: &mut Interp, z: &ZipIter, values: Vec<Value>) -> (r: Value)
    ensures
        (final(i)@, r) == zip_result(old(i)@, z@, values@),
{
    if z.keyed {
        let o = i.perform(Op::NewWithPrototype(Value::Null));
        let ghost w0 = i@;
        let mut j: usize = 0;
        while j < values.len() && j < z.keys.len()
            invariant
                j <= values@.len(),
                keyed_stored(w0, o, z@.keys, values@, 0) == keyed_stored(
                    i@,
                    o,
                    z@.keys,
                    values@,
                    j as int,
                ),
            decreases values@.len() - j,
        {
            set_data(i, o, Key::Of(z.keys[j]), values[j]);
            j += 1;
        }
        o
    } else {
        i.make_array(values)
    }
}

/// `next` of a zip iterator: what it leaves behind, and the iterator result.
pub open spec fn zip_advanced(w: World, z: Zip) -> (World, Zip, Result<Value, Value>) {
    if z.running {
        let (w, r) = w.throw(ErrorKind::Type, "Iterator.zip iterator is already running");
        (w, z, r)
    } else if z.finished {
        let (w, r) = w.iter_result(Value::Undefined, true);
        (w, z, r)
    } else {
        let (w, z, res) = zip_stepped(w, Zip { started: true, running: true, ..z });
        match res {
            Err(e) => (w, Zip { running: false, finished: true, ..z }, Err(e)),
            Ok(None) => {
                let (w, r) = w.iter_result(Value::Undefined, true);
                (w, Zip { running: false, finished: true, ..z }, r)
            },
            Ok(Some(values)) => {
                let (w, v) = zip_result(w, z, values);
                let (w, r) = w.iter_result(v, false);
                (w, Zip { running: false, ..z }, r)
            },
        }
    }
}

/// `next` of a zip iterator: re-entering the running zip iterator throws, and one that has
/// finished stays done.
pub fn zip_next(i: &mut Interp, z: &mut ZipIter) -> (r: Result<Value, Value>)
    requires
        old(z)@.wf(),
    ensures
        (final(i)@, final(z)@, r) == zip_advanced(old(i)@, old(z)@),
        final(z)@.wf(),
{
    if z.running {
        return i.type_error("Iterator.zip iterator is already running");
    }
    if z.finished {
        return i.iter_result(Value::Undefined, true);
    }
    z.started = true;
    z.running = true;
    let res = zip_step(i, z);
    match res {
        Err(e) => {
            z.running = false;
            z.finished = true;
            Err(e)
        },
        Ok(None) => {
            z.running = false;
            z.finished = true;
            i.iter_result(Value::Undefined, true)
        },
        Ok(Some(values)) => {
            let v = make_zip_result(i, z, values);
            z.running = false;
            i.iter_result(v, false)
        },
    }
}

/// `return` of a zip iterator.
pub open spec fn zip_returned(w: World, z: Zip) -> (World, Zip, Result<Value, Value>) {
    if z.finished {
        let (w, r) = w.iter_result(Value::Undefined, true);
        (w, z, r)
    } else if z.running {
        let (w, r) = w.throw(ErrorKind::Type, "Iterator.zip iterator is already running");
        (w, z, r)
    } else {
        let (w, z, p) = zip_closed(w, z, None);
        let z = Zip { finished: true, ..z };
        match p {
            Some(e) => (w, z, Err(e)),
            None => {
                let (w, r) = w.iter_result(Value::Undefined, true);
                (w, z, r)
            },
        }
    }
}

/// `return` of a zip iterator: close every still-open input in reverse order; the first close
/// error wins (later ones are swallowed).
pub fn zip_return(i: &mut Interp, z: &mut ZipIter) -> (r: Result<Value, Value>)
    requires
        old(z)@.wf(),
    ensures
        (final(i)@, final(z)@, r) == zip_returned(old(i)@, old(z)@),
        final(z)@.wf(),
{
    if z.finished {
        return i.iter_result(Value::Undefined, true);
    }
    if z.running {
        return i.type_error("Iterator.zip iterator is already running");
    }
    let res = zip_close_open(i, z, None);
    z.finished = true;
    match res {
        Some(e) => Err(e),
        None => i.iter_result(Value::Undefined, true),
    }
}

// Setting up

/// The mode option: undefined is "shortest"; anything else must be one of the three mode strings
/// exactly (no coercion).
pub open spec fn mode_named(u: Seq<u16>) -> Option<ZipMode> {
    if u == seq![0x73u16, 0x68, 0x6f, 0x72, 0x74, 0x65, 0x73, 0x74] {
        Some(ZipMode::Shortest)
    } else if u == seq![0x6cu16, 0x6f, 0x6e, 0x67, 0x65, 0x73, 0x74] {
        Some(ZipMode::Longest)
    } else if u == seq![0x73u16, 0x74, 0x72, 0x69, 0x63, 0x74] {
        Some(ZipMode::Strict)
    } else {
        None
    }
}

fn read_mode_name(u: &Vec<u16>) -> (r: Option<ZipMode>)
    ensures
        r == mode_named(u@),
{
    let shortest: Vec<u16> = vec![0x73u16, 0x68, 0x6f, 0x72, 0x74, 0x65, 0x73, 0x74];
    assert(shortest@ =~= seq![0x73u16, 0x68, 0x6f, 0x72, 0x74, 0x65, 0x73, 0x74]);
    let longest: Vec<u16> = vec![0x6cu16, 0x6f, 0x6e, 0x67, 0x65, 0x73, 0x74];
    assert(longest@ =~= seq![0x6cu16, 0x6f, 0x6e, 0x67, 0x65, 0x73, 0x74]);
    let strict: Vec<u16> = vec![0x73u16, 0x74, 0x72, 0x69, 0x63, 0x74];
    assert(strict@ =~= seq![0x73u16, 0x74, 0x72, 0x69, 0x63, 0x74]);
    if crate::interp::same_units(u, &shortest) {
        Some(ZipMode::Shortest)
    } else if crate::interp::same_units(u, &longest) {
        Some(ZipMode::Longest)
    } else if crate::interp::same_units(u, &strict) {
        Some(ZipMode::Strict)
    } else {
        None
    }
}

pub open spec fn zip_mode(w: World, options: Value) -> Outcome<ZipMode> {
    match options {
        Value::Undefined => (w, Ok(ZipMode::Shortest)),
        Value::Obj(_) => {
            let (w, m) = w.get(options, Key::Name("mode"));
            match m {
                Err(e) => (w, Err(e)),
                Ok(Value::Undefined) => (w, Ok(ZipMode::Shortest)),
                Ok(Value::Str(s)) => match mode_named(w.units(s)) {
                    Some(m) => (w, Ok(m)),
                    None => w.throw(ErrorKind::Type, "invalid Iterator.zip mode"),
                },
                Ok(_) => w.throw(ErrorKind::Type, "invalid Iterator.zip mode"),
            }
        },
        _ => w.throw(ErrorKind::Type, "Iterator.zip options is not an object"),
    }
}

fn read_zip_mode(i: &mut Interp, options: Value) -> (r: Result<ZipMode, Value>)
    ensures
        (final(i)@, r) == zip_mode(old(i)@, options),
{
    match options {
        Value::Undefined => Ok(ZipMode::Shortest),
        Value::Obj(_) => match i.get_member(options, Key::Name("mode"))? {
            Value::Undefined => Ok(ZipMode::Shortest),
            Value::Str(s) => {
                let u = i.units(s);
                match read_mode_name(&u) {
                    Some(m) => Ok(m),
                    None => i.type_error("invalid Iterator.zip mode"),
                }
            },
            _ => i.type_error("invalid Iterator.zip mode"),
        },
        _ => i.type_error("Iterator.zip options is not an object"),
    }
}

/// The padding option, which is read (and type-checked) before the inputs are opened.
pub open spec fn zip_padding(w: World, options: Value, mode: ZipMode) -> Outcome<Value> {
    if mode == ZipMode::Longest && options.object() {
        let (w, p) = w.get(options, Key::Name("padding"));
        match p {
            Err(e) => (w, Err(e)),
            Ok(p) => if p == Value::Undefined || p.object() {
                (w, Ok(p))
            } else {
                w.throw(ErrorKind::Type, "Iterator.zip padding is not an object")
            },
        }
    } else {
        (w, Ok(Value::Undefined))
    }
}

fn read_zip_padding(i: &mut Interp, options: Value, mode: ZipMode) -> (r: Result<Value, Value>)
    ensures
        (final(i)@, r) == zip_padding(old(i)@, options, mode),
{
    if mode == ZipMode::Longest && options.is_object() {
        let p = i.get_member(options, Key::Name("padding"))?;
        if !p.is_undefined() && !p.is_object() {
            return i.type_error("Iterator.zip padding is not an object");
        }
        Ok(p)
    } else {
        Ok(Value::Undefined)
    }
}

/// The open inputs.
#[verifier::ext_equal]
pub struct Opened {
    pub keys: Seq<Value>,
    pub iters: Seq<Value>,
    pub nexts: Seq<Value>,
}

impl Opened {
    pub open spec fn nothing() -> Opened {
        Opened { keys: Seq::empty(), iters: Seq::empty(), nexts: Seq::empty() }
    }

    pub open spec fn with(self, it: (Value, Value)) -> Opened {
        Opened { iters: self.iters.push(it.0), nexts: self.nexts.push(it.1), ..self }
    }

    pub open spec fn under(self, key: Value) -> Opened {
        Opened { keys: self.keys.push(key), ..self }
    }
}

struct Inputs {
    keys: Vec<Value>,
    iters: Vec<Value>,
    nexts: Vec<Value>,
}

impl View for Inputs {
    type V = Opened;

    closed spec fn view(&self) -> Opened {
        Opened { keys: self.keys@, iters: self.iters@, nexts: self.nexts@ }
    }
}

/// Closes the inputs opened so far in reverse order; the pending error wins.
pub open spec fn setup_closed(w: World, iters: Seq<Value>) -> World
    decreases iters.len(),
{
    if iters.len() == 0 {
        w
    } else {
        setup_closed(w.plain(Op::Close(iters.last()), Seq::empty()).0, iters.drop_last())
    }
}

fn close_setup(i: &mut Interp, iters: &Vec<Value>)
    ensures
        final(i)@ == setup_closed(old(i)@, iters@),
{
    let mut j: usize = iters.len();
    assert(iters@.take(j as int) =~= iters@);
    while j > 0
        invariant
            j <= iters@.len(),
            setup_closed(old(i)@, iters@) == setup_closed(i@, iters@.take(j as int)),
        decreases j,
    {
        assert(iters@.take(j as int).drop_last() =~= iters@.take(j - 1));
        j -= 1;
        i.iterator_close(iters[j]);
    }
}

/// Opens one input: its iterator and its `next`.
pub open spec fn input_opened(w: World, v: Value) -> Outcome<(Value, Value)> {
    let (w, it) = flattenable(w, v, false);
    match it {
        Err(e) => (w, Err(e)),
        Ok(it) => {
            let (w, next) = w.get(it, Key::Name("next"));
            match next {
                Err(e) => (w, Err(e)),
                Ok(next) => (w, Ok((it, next))),
            }
        },
    }
}

fn open_one(i: &mut Interp, v: Value) -> (r: Result<(Value, Value), Value>)
    ensures
        (final(i)@, r) == input_opened(old(i)@, v),
{
    let it = get_iterator_flattenable(i, v, false)?;
    let next = i.get_member(it, Key::Name("next"))?;
    Ok((it, next))
}

/// Opens the values of an iterable of iterables.
pub open spec fn opened_in_order(w: World, src: Value, next: Value, o: Opened) -> Outcome<Opened>
    decreases w.left(),
    via opened_in_order_decreases
{
    let (w1, step) = stepped(w, src, next);
    match step {
        Err(e) => (setup_closed(w1, o.iters), Err(e)),
        Ok(None) => (w1, Ok(o)),
        Ok(Some(v)) => {
            let (w2, it) = input_opened(w1, v);
            match it {
                Err(e) => (
                    setup_closed(w2, o.iters).plain(Op::Close(src), Seq::empty()).0,
                    Err(e),
                ),
                Ok(it) => opened_in_order(w2, src, next, o.with(it)),
            }
        },
    }
}

#[via_fn]
proof fn opened_in_order_decreases(w: World, src: Value, next: Value, o: Opened) {
    lemma_step_asks(w, src, next);
}

fn open_in_order(i: &mut Interp, src: Value, next: Value) -> (r: Result<Inputs, Value>)
    ensures
        final(i)@ == opened_in_order(old(i)@, src, next, Opened::nothing()).0,
        match r {
            Ok(o) => opened_in_order(old(i)@, src, next, Opened::nothing()).1 == Ok::<Opened, Value>(
                o@,
            ) && o@.nexts.len() == o@.iters.len(),
            Err(e) => opened_in_order(old(i)@, src, next, Opened::nothing()).1 == Err::<
                Opened,
                Value,
            >(e),
        },
{
    let mut o = Inputs { keys: Vec::new(), iters: Vec::new(), nexts: Vec::new() };
    assert(o@ =~= Opened::nothing());
    loop
        invariant
            o@.nexts.len() == o@.iters.len(),
            opened_in_order(old(i)@, src, next, Opened::nothing()) == opened_in_order(
                i@,
                src,
                next,
                o@,
            ),
        decreases i@.left(),
    {
        proof {
            lemma_step_asks(i@, src, next);
        }
        match step_iter_with(i, src, next) {
            Err(e) => {
                close_setup(i, &o.iters);
                return Err(e);
            },
            Ok(None) => {
                return Ok(o);
            },
            Ok(Some(v)) => match open_one(i, v) {
                Err(e) => {
                    close_setup(i, &o.iters);
                    i.iterator_close(src);
                    return Err(e);
                },
                Ok(it) => {
                    let ghost before = o@;
                    o.iters.push(it.0);
                    o.nexts.push(it.1);
                    assert(o@ =~= before.with(it));
                },
            },
        }
    }
}

/// What to open under a key, if anything.
pub open spec fn keyed_input(w: World, input: Value, key: Value) -> Outcome<Option<Value>> {
    let (w, p) = own_property_of(w, input, key);
    match p {
        Err(e) => (w, Err(e)),
        Ok(None) => (w, Ok(None)),
        Ok(Some(p)) => if !p.enumerable {
            (w, Ok(None))
        } else {
            let (w, v) = w.get(input, Key::Of(key));
            match v {
                Err(e) => (w, Err(e)),
                Ok(v) => if v == Value::Undefined {
                    (w, Ok(None))
                } else {
                    (w, Ok(Some(v)))
                },
            }
        },
    }
}

/// Opens each own enumerable non-undefined-valued key of an object, from `k` on.
pub open spec fn opened_by_key(w: World, input: Value, keys: Seq<Value>, k: int, o: Opened) -> Outcome<
    Opened,
>
    decreases keys.len() - k,
{
    if k < 0 || k >= keys.len() {
        (w, Ok(o))
    } else {
        let (w, v) = keyed_input(w, input, keys[k]);
        match v {
            Err(e) => (setup_closed(w, o.iters), Err(e)),
            Ok(None) => opened_by_key(w, input, keys, k + 1, o),
            Ok(Some(v)) => {
                let (w, it) = input_opened(w, v);
                match it {
                    Err(e) => (setup_closed(w, o.iters), Err(e)),
                    Ok(it) => opened_by_key(w, input, keys, k + 1, o.with(it).under(keys[k])),
                }
            },
        }
    }
}

fn read_keyed_input(i: &mut Interp, input: Value, key: Value) -> (r: Result<Option<Value>, Value>)
    ensures
        (final(i)@, r) == keyed_input(old(i)@, input, key),
{
    match js_own_property(i, input, key)? {
        None => Ok(None),
        Some(p) => {
            if !p.enumerable {
                return Ok(None);
            }
            let v = i.get_member(input, Key::Of(key))?;
            if v.is_undefined() {
                Ok(None)
            } else {
                Ok(Some(v))
            }
        },
    }
}

fn open_by_key(i: &mut Interp, input: Value, keys: &Vec<Value>) -> (r: Result<Inputs, Value>)
    ensures
        final(i)@ == opened_by_key(old(i)@, input, keys@, 0, Opened::nothing()).0,
        match r {
            Ok(o) => opened_by_key(old(i)@, input, keys@, 0, Opened::nothing()).1 == Ok::<
                Opened,
                Value,
            >(o@) && o@.nexts.len() == o@.iters.len() && o@.keys.len() == o@.iters.len(),
            Err(e) => opened_by_key(old(i)@, input, keys@, 0, Opened::nothing()).1 == Err::<
                Opened,
                Value,
            >(e),
        },
{
    let mut o = Inputs { keys: Vec::new(), iters: Vec::new(), nexts: Vec::new() };
    assert(o@ =~= Opened::nothing());
    let mut k: usize = 0;
    while k < keys.len()
        invariant
            k <= keys@.len(),
            o@.nexts.len() == o@.iters.len(),
            o@.keys.len() == o@.iters.len(),
            opened_by_key(old(i)@, input, keys@, 0, Opened::nothing()) == opened_by_key(
                i@,
                input,
                keys@,
                k as int,
                o@,
            ),
        decreases keys@.len() - k,
    {
        match read_keyed_input(i, input, keys[k]) {
            Err(e) => {
                close_setup(i, &o.iters);
                return Err(e);
            },
            Ok(None) => {},
            Ok(Some(v)) => match open_one(i, v) {
                Err(e) => {
                    close_setup(i, &o.iters);
                    return Err(e);
                },
                Ok(it) => {
                    let ghost before = o@;
                    o.iters.push(it.0);
                    o.nexts.push(it.1);
                    o.keys.push(keys[k]);
                    assert(o@ =~= before.with(it).under(keys@[k as int]));
                },
            },
        }
        k += 1;
    }
    Ok(o)
}

/// The inputs of a zip, open.
pub open spec fn inputs_opened(w: World, input: Value, keyed: bool) -> Outcome<Opened> {
    if keyed {
        let (w, keys) = own_keys_of(w, input);
        match keys {
            Err(e) => (w, Err(e)),
            Ok(keys) => opened_by_key(w, input, keys, 0, Opened::nothing()),
        }
    } else {
        let (w, it) = w.iterator(input);
        match it {
            Err(e) => (w, Err(e)),
            Ok(it) => opened_in_order(w, it.0, it.1, Opened::nothing()),
        }
    }
}

fn open_inputs(i: &mut Interp, input: Value, keyed: bool) -> (r: Result<Inputs, Value>)
    ensures
        final(i)@ == inputs_opened(old(i)@, input, keyed).0,
        match r {
            Ok(o) => inputs_opened(old(i)@, input, keyed).1 == Ok::<Opened, Value>(o@)
                && o@.nexts.len() == o@.iters.len() && (keyed ==> o@.keys.len()
                == o@.iters.len()),
            Err(e) => inputs_opened(old(i)@, input, keyed).1 == Err::<Opened, Value>(e),
        },
{
    if keyed {
        let keys = js_own_keys(i, input)?;
        open_by_key(i, input, &keys)
    } else {
        let it = i.get_iterator(input)?;
        open_in_order(i, it.0, it.1)
    }
}

/// The padding of a keyed zip: read per input key, from `j` on.
pub open spec fn padded_by_key(
    w: World,
    source: Value,
    o: Opened,
    j: int,
    pad: Seq<Value>,
) -> Outcome<Seq<Value>>
    decreases o.keys.len() - j,
{
    if j < 0 || j >= o.keys.len() {
        (w, Ok(pad))
    } else {
        let (w, v) = w.get(source, Key::Of(o.keys[j]));
        match v {
            Err(e) => (setup_closed(w, o.iters), Err(e)),
            Ok(v) => padded_by_key(w, source, o, j + 1, pad.push(v)),
        }
    }
}

/// `n` times undefined.
pub open spec fn blanks(n: int) -> Seq<Value> {
    Seq::new(n as nat, |j: int| Value::Undefined)
}

/// The padding of a zip: the padding iterable is iterated at most once per input (it may be
/// infinite), and closed where it was not exhausted.
pub open spec fn padded_in_order(
    w: World,
    it: Value,
    next: Value,
    o: Opened,
    pad: Seq<Value>,
) -> Outcome<Seq<Value>>
    decreases o.iters.len() - pad.len(),
{
    if pad.len() >= o.iters.len() {
        let (w, c) = w.value(Op::CloseNormal(it), Seq::empty());
        match c {
            Err(e) => (setup_closed(w, o.iters), Err(e)),
            Ok(_) => (w, Ok(pad)),
        }
    } else {
        let (w, step) = stepped(w, it, next);
        match step {
            Err(e) => (setup_closed(w, o.iters), Err(e)),
            Ok(None) => (w, Ok(pad + blanks(o.iters.len() - pad.len()))),
            Ok(Some(v)) => padded_in_order(w, it, next, o, pad.push(v)),
        }
    }
}

/// The padding, aligned with the inputs.
pub open spec fn padding_read(w: World, source: Value, o: Opened, keyed: bool) -> Outcome<Seq<Value>> {
    if source == Value::Undefined {
        (w, Ok(blanks(o.iters.len() as int)))
    } else if keyed {
        padded_by_key(w, source, o, 0, Seq::empty())
    } else {
        let (w, it) = w.iterator(source);
        match it {
            Err(e) => (setup_closed(w, o.iters), Err(e)),
            Ok(it) => padded_in_order(w, it.0, it.1, o, Seq::empty()),
        }
    }
}

fn push_blanks(out: &mut Vec<Value>, n: usize)
    requires
        old(out)@.len() <= n,
    ensures
        final(out)@ == old(out)@ + blanks(n - old(out)@.len()),
{
    let ghost before = out@;
    assert(out@ =~= before + blanks(0));
    while out.len() < n
        invariant
            before.len() <= out@.len() <= n,
            out@ == before + blanks(out@.len() - before.len()),
        decreases n - out@.len(),
    {
        out.push(Value::Undefined);
        assert(out@ =~= before + blanks(out@.len() - before.len()));
    }
}

fn pad_by_key(i: &mut Interp, source: Value, o: &Inputs) -> (r: Result<Vec<Value>, Value>)
    ensures
        final(i)@ == padded_by_key(old(i)@, source, o@, 0, Seq::empty()).0,
        match r {
            Ok(p) => padded_by_key(old(i)@, source, o@, 0, Seq::empty()).1 == Ok::<
                Seq<Value>,
                Value,
            >(p@) && p@.len() == o@.keys.len(),
            Err(e) => padded_by_key(old(i)@, source, o@, 0, Seq::empty()).1 == Err::<
                Seq<Value>,
                Value,
            >(e),
        },
{
    let mut pad: Vec<Value> = Vec::new();
    let mut j: usize = 0;
    assert(pad@ =~= Seq::<Value>::empty());
    while j < o.keys.len()
        invariant
            j <= o@.keys.len(),
            pad@.len() == j,
            padded_by_key(old(i)@, source, o@, 0, Seq::empty()) == padded_by_key(
                i@,
                source,
                o@,
                j as int,
                pad@,
            ),
        decreases o@.keys.len() - j,
    {
        match i.get_member(source, Key::Of(o.keys[j])) {
            Err(e) => {
                close_setup(i, &o.iters);
                return Err(e);
            },
            Ok(v) => {
                pad.push(v);
            },
        }
        j += 1;
    }
    Ok(pad)
}

fn pad_in_order(i: &mut Interp, it: Value, next: Value, o: &Inputs) -> (r: Result<
    Vec<Value>,
    Value,
>)
    ensures
        final(i)@ == padded_in_order(old(i)@, it, next, o@, Seq::empty()).0,
        match r {
            Ok(p) => padded_in_order(old(i)@, it, next, o@, Seq::empty()).1 == Ok::<
                Seq<Value>,
                Value,
            >(p@) && p@.len() == o@.iters.len(),
            Err(e) => padded_in_order(old(i)@, it, next, o@, Seq::empty()).1 == Err::<
                Seq<Value>,
                Value,
            >(e),
        },
{
    let n: usize = o.iters.len();
    let mut pad: Vec<Value> = Vec::new();
    assert(pad@ =~= Seq::<Value>::empty());
    while pad.len() < n
        invariant
            n == o@.iters.len(),
            pad@.len() <= n,
            padded_in_order(old(i)@, it, next, o@, Seq::empty()) == padded_in_order(
                i@,
                it,
                next,
                o@,
                pad@,
            ),
        decreases n - pad@.len(),
    {
        match step_iter_with(i, it, next) {
            Err(e) => {
                close_setup(i, &o.iters);
                return Err(e);
            },
            Ok(None) => {
                push_blanks(&mut pad, n);
                return Ok(pad);
            },
            Ok(Some(v)) => {
                pad.push(v);
            },
        }
    }
    match i.iterator_close_normal(it) {
        Err(e) => {
            close_setup(i, &o.iters);
            Err(e)
        },
        Ok(_) => Ok(pad),
    }
}

fn read_padding(i: &mut Interp, source: Value, o: &Inputs, keyed: bool) -> (r: Result<
    Vec<Value>,
    Value,
>)
    requires
        keyed ==> o@.keys.len() == o@.iters.len(),
    ensures
        final(i)@ == padding_read(old(i)@, source, o@, keyed).0,
        match r {
            Ok(p) => padding_read(old(i)@, source, o@, keyed).1 == Ok::<Seq<Value>, Value>(p@)
                && p@.len() == o@.iters.len(),
            Err(e) => padding_read(old(i)@, source, o@, keyed).1 == Err::<Seq<Value>, Value>(e),
        },
{
    if source.is_undefined() {
        let mut pad: Vec<Value> = Vec::new();
        push_blanks(&mut pad, o.iters.len());
        assert(pad@ =~= blanks(o@.iters.len() as int));
        return Ok(pad);
    }
    if keyed {
        return pad_by_key(i, source, o);
    }
    match i.get_iterator(source) {
        Err(e) => {
            close_setup(i, &o.iters);
            Err(e)
        },
        Ok(it) => pad_in_order(i, it.0, it.1, o),
    }
}

/// No input has ended.
pub open spec fn all_open(n: int) -> Seq<bool> {
    Seq::new(n as nat, |j: int| false)
}

/// `Iterator.zip` and `Iterator.zipKeyed`.
pub open spec fn zip_made(w: World, args: Seq<Value>, keyed: bool) -> Outcome<Zip> {
    let input = arg_at(args, 0);
    let options = arg_at(args, 1);
    if !input.object() {
        w.throw(ErrorKind::Type, "Iterator.zip input is not an object")
    } else {
        let (w, mode) = zip_mode(w, options);
        match mode {
            Err(e) => (w, Err(e)),
            Ok(mode) => {
                let (w, source) = zip_padding(w, options, mode);
                match source {
                    Err(e) => (w, Err(e)),
                    Ok(source) => {
                        let (w, o) = inputs_opened(w, input, keyed);
                        match o {
                            Err(e) => (w, Err(e)),
                            Ok(o) => {
                                let (w, pad) = padding_read(w, source, o, keyed);
                                match pad {
                                    Err(e) => (w, Err(e)),
                                    Ok(pad) => (w, Ok(fresh_zip(o, pad, keyed, mode))),
                                }
                            },
                        }
                    },
                }
            },
        }
    }
}

pub open spec fn fresh_zip(o: Opened, pad: Seq<Value>, keyed: bool, mode: ZipMode) -> Zip {
    Zip {
        iters: o.iters,
        nexts: o.nexts,
        closed: all_open(o.iters.len() as int),
        pad,
        keys: o.keys,
        keyed,
        mode,
        finished: false,
        running: false,
        started: false,
    }
}

fn open_flags(n: usize) -> (r: Vec<bool>)
    ensures
        r@ == all_open(n as int),
{
    let mut v: Vec<bool> = Vec::new();
    while v.len() < n
        invariant
            v@.len() <= n,
            forall|j: int| 0 <= j < v@.len() ==> !#[trigger] v@[j],
        decreases n - v@.len(),
    {
        v.push(false);
    }
    assert(v@ =~= all_open(n as int));
    v
}

/// `Iterator.zip` / `Iterator.zipKeyed`: validate options, open every input iterator eagerly
/// (closing already-open ones, in reverse order, if anything goes wrong), then step them in
/// lockstep per the mode (shortest/longest/strict) with `padding` filling exhausted inputs.
pub fn iterator_zip(i: &mut Interp, args: &[Value], keyed: bool) -> (r: Result<ZipIter, Value>)
    ensures
        final(i)@ == zip_made(old(i)@, args@, keyed).0,
        match r {
            Ok(z) => zip_made(old(i)@, args@, keyed).1 == Ok::<Zip, Value>(z@) && z@.wf(),
            Err(e) => zip_made(old(i)@, args@, keyed).1 == Err::<Zip, Value>(e),
        },
{
    let input = arg(args, 0);
    let options = arg(args, 1);
    if !input.is_object() {
        return i.type_error("Iterator.zip input is not an object");
    }
    let mode = read_zip_mode(i, options)?;
    let source = read_zip_padding(i, options, mode)?;
    let o = open_inputs(i, input, keyed)?;
    let pad = read_padding(i, source, &o, keyed)?;
    let closed = open_flags(o.iters.len());
    let z = ZipIter {
        iters: o.iters,
        nexts: o.nexts,
        closed,
        pad,
        keys: o.keys,
        keyed,
        mode,
        finished: false,
        running: false,
        started: false,
    };
    Ok(z)
}

// Laws

/// A finished zip stays finished and runs no more code.
pub proof fn law_finished_zip_stays_done(w: World, z: Zip)
    requires
        z.finished,
        !z.running,
    ensures
        zip_advanced(w, z).1 == z,
        zip_advanced(w, z).0 == w.plain(Op::NewIterResult(Value::Undefined, true), Seq::empty()).0,
        zip_returned(w, z).1 == z,
{
}

proof fn lemma_closed_down(
    w: World,
    iters: Seq<Value>,
    closed: Seq<bool>,
    j: int,
    pending: Option<Value>,
)
    requires
        closed.len() == iters.len(),
        j < closed.len(),
        forall|k: int| j < k < closed.len() ==> #[trigger] closed[k],
    ensures
        ({
            let r = closed_down(w, iters, closed, j, pending);
            &&& r.1.len() == closed.len()
            &&& forall|k: int| 0 <= k < closed.len() ==> #[trigger] r.1[k]
            &&& pending is Some ==> r.2 == pending
        }),
    decreases j + 1,
{
    if j >= 0 {
        if closed[j] {
            lemma_closed_down(w, iters, closed, j - 1, pending);
        } else if pending is Some {
            lemma_closed_down(
                w.plain(Op::Close(iters[j]), Seq::empty()).0,
                iters,
                closed.update(j, true),
                j - 1,
                pending,
            );
        } else {
            let (w1, r) = w.value(Op::CloseNormal(iters[j]), Seq::empty());
            lemma_closed_down(
                w1,
                iters,
                closed.update(j, true),
                j - 1,
                match r {
                    Ok(_) => None,
                    Err(e) => Some(e),
                },
            );
        }
    }
}

/// Closing leaves no input open, and a pending error is the one that comes out.
pub proof fn law_zip_closes_all(w: World, z: Zip, pending: Option<Value>)
    requires
        z.wf(),
    ensures
        zip_closed(w, z, pending).1.all_closed(),
        zip_closed(w, z, pending).1.wf(),
        pending is Some ==> zip_closed(w, z, pending).2 == pending,
{
    lemma_closed_down(w, z.iters, z.closed, z.iters.len() - 1, pending);
}

proof fn lemma_round_values(w: World, z: Zip, j: int, values: Seq<Value>)
    requires
        z.wf(),
        0 <= j <= z.iters.len(),
        values.len() == j,
    ensures
        zip_round(w, z, j, values).2 matches Ok(Some(v)) ==> v.len() == z.iters.len(),
    decreases z.iters.len() - j,
{
    if j < z.iters.len() {
        if z.closed[j] {
            lemma_round_values(w, z, j + 1, values.push(z.pad[j]));
        } else {
            let (w1, step) = stepped(w, z.iters[j], z.nexts[j]);
            match step {
                Ok(Some(v)) => {
                    lemma_round_values(w1, z, j + 1, values.push(v));
                },
                Ok(None) => {
                    if z.mode == ZipMode::Longest {
                        lemma_round_values(w1, z.marked(j), j + 1, values.push(z.pad[j]));
                    }
                    if z.mode == ZipMode::Strict {
                        lemma_strict_gives_nothing(w1, z.marked(0), 1);
                    }
                },
                Err(_) => {},
            }
        }
    }
}

proof fn lemma_strict_gives_nothing(w: World, z: Zip, k: int)
    ensures
        !(strict_ended(w, z, k).2 matches Ok(Some(_))),
    decreases z.iters.len() - k,
{
    if 0 <= k < z.iters.len() {
        let (w1, d) = done_read(w, z.iters[k], z.nexts[k]);
        match d {
            Ok(d) => {
                if d {
                    lemma_strict_gives_nothing(w1, z.marked(k), k + 1);
                }
            },
            Err(_) => {},
        }
    }
}

/// Every round yields one value per input, or ends the zip.
pub proof fn law_rounds_are_complete(w: World, z: Zip)
    requires
        z.wf(),
    ensures
        zip_stepped(w, z).2 matches Ok(Some(v)) ==> v.len() == z.iters.len() && v.len() > 0,
{
    if z.iters.len() > 0 {
        lemma_round_values(w, z, 0, Seq::empty());
    }
}

// Iterator.concat

/// The internal slots of a concat iterator.
pub struct ConcatIter {
    pub items: Vec<Value>,
    pub methods: Vec<Value>,
    pub index: usize,
    /// The open iterator, or undefined.
    pub current: Value,
    pub current_next: Value,
    pub done: bool,
    pub running: bool,
    pub started: bool,
}

/// A concat iterator as contracts speak of it.
#[verifier::ext_equal]
pub struct Concat {
    pub items: Seq<Value>,
    pub methods: Seq<Value>,
    pub index: int,
    pub current: Value,
    pub current_next: Value,
    pub done: bool,
    pub running: bool,
    pub started: bool,
}

impl View for ConcatIter {
    type V = Concat;

    open spec fn view(&self) -> Concat {
        Concat {
            items: self.items@,
            methods: self.methods@,
            index: self.index as int,
            current: self.current,
            current_next: self.current_next,
            done: self.done,
            running: self.running,
            started: self.started,
        }
    }
}

impl Concat {
    pub open spec fn wf(self) -> bool {
        &&& self.methods.len() == self.items.len()
        &&& 0 <= self.index <= self.items.len()
    }
}

/// The arguments from `k` on, each with its @@iterator method.
pub open spec fn concat_items(
    w: World,
    args: Seq<Value>,
    k: int,
    methods: Seq<Value>,
) -> Outcome<Seq<Value>>
    decreases args.len() - k,
{
    if k < 0 || k >= args.len() {
        (w, Ok(methods))
    } else if !args[k].object() {
        w.throw(ErrorKind::Type, "Iterator.concat argument is not an object")
    } else {
        let (w, m) = w.get(args[k], Key::Symbol(WellKnown::Iterator));
        match m {
            Err(e) => (w, Err(e)),
            Ok(m) => if !m.callable() {
                w.throw(ErrorKind::Type, "Iterator.concat argument is not iterable")
            } else {
                concat_items(w, args, k + 1, methods.push(m))
            },
        }
    }
}

/// `Iterator.concat`.
pub open spec fn concat_made(w: World, args: Seq<Value>) -> Outcome<Concat> {
    let (w, methods) = concat_items(w, args, 0, Seq::empty());
    match methods {
        Err(e) => (w, Err(e)),
        Ok(methods) => (
            w,
            Ok(
                Concat {
                    items: args,
                    methods,
                    index: 0,
                    current: Value::Undefined,
                    current_next: Value::Undefined,
                    done: false,
                    running: false,
                    started: false,
                },
            ),
        ),
    }
}

/// `Iterator.concat`: each argument must be an object; its @@iterator method is captured now, in
/// order.
pub fn iterator_concat(i: &mut Interp, args: &[Value]) -> (r: Result<ConcatIter, Value>)
    ensures
        final(i)@ == concat_made(old(i)@, args@).0,
        match r {
            Ok(c) => concat_made(old(i)@, args@).1 == Ok::<Concat, Value>(c@) && c@.wf(),
            Err(e) => concat_made(old(i)@, args@).1 == Err::<Concat, Value>(e),
        },
{
    let mut items: Vec<Value> = Vec::new();
    let mut methods: Vec<Value> = Vec::new();
    let mut k: usize = 0;
    assert(methods@ =~= Seq::<Value>::empty());
    while k < args.len()
        invariant
            k <= args@.len(),
            items@ =~= args@.take(k as int),
            methods@.len() == k,
            concat_items(old(i)@, args@, 0, Seq::empty()) == concat_items(
                i@,
                args@,
                k as int,
                methods@,
            ),
        decreases args@.len() - k,
    {
        let v = args[k];
        if !v.is_object() {
            return i.type_error("Iterator.concat argument is not an object");
        }
        let m = i.get_member(v, Key::Symbol(WellKnown::Iterator))?;
        if !m.is_callable() {
            return i.type_error("Iterator.concat argument is not iterable");
        }
        items.push(v);
        methods.push(m);
        k += 1;
    }
    assert(items@ =~= args@);
    Ok(
        ConcatIter {
            items,
            methods,
            index: 0,
            current: Value::Undefined,
            current_next: Value::Undefined,
            done: false,
            running: false,
            started: false,
        },
    )
}

/// What a step of a concat iterator leaves.
pub type ConcatStepped = (World, Concat, Result<Option<Value>, Value>);

/// Opens the next item.
pub open spec fn concat_opened(w: World, c: Concat) -> (World, Concat, Result<(), Value>) {
    let (w, it) = w.call(c.methods[c.index], c.items[c.index], Seq::empty());
    match it {
        Err(e) => (w, c, Err(e)),
        Ok(it) => if !it.object() {
            let (w, r) = w.throw(ErrorKind::Type, "@@iterator did not return an object");
            (w, c, r)
        } else {
            let (w, next) = w.get(it, Key::Name("next"));
            match next {
                Err(e) => (w, c, Err(e)),
                Ok(next) => (
                    w,
                    Concat { current: it, current_next: next, index: c.index + 1, ..c },
                    Ok(()),
                ),
            }
        },
    }
}

/// Opens each captured iterable in order and yields its values.
pub open spec fn concat_stepped(w: World, c: Concat) -> ConcatStepped
    decreases w.left(),
    via concat_stepped_decreases
{
    if c.current == Value::Undefined && (c.index < 0 || c.index >= c.items.len()) {
        (w, c, Ok(None))
    } else {
        let (w1, c1, opened) = if c.current == Value::Undefined {
            concat_opened(w, c)
        } else {
            (w, c, Ok(()))
        };
        match opened {
            Err(e) => (w1, c1, Err(e)),
            Ok(_) => {
                let (w2, step) = stepped(w1, c1.current, c1.current_next);
                match step {
                    Err(e) => (w2, c1, Err(e)),
                    Ok(Some(v)) => (w2, c1, Ok(Some(v))),
                    Ok(None) => concat_stepped(w2, Concat { current: Value::Undefined, ..c1 }),
                }
            },
        }
    }
}

#[via_fn]
proof fn concat_stepped_decreases(w: World, c: Concat) {
    let (w1, c1, _) = if c.current == Value::Undefined {
        concat_opened(w, c)
    } else {
        (w, c, Ok(()))
    };
    lemma_step_asks(w1, c1.current, c1.current_next);
}

fn open_item(i: &mut Interp, c: &mut ConcatIter) -> (r: Result<(), Value>)
    requires
        old(c)@.wf(),
        old(c).index < old(c)@.items.len(),
    ensures
        (final(i)@, final(c)@, r) == concat_opened(old(i)@, old(c)@),
        final(c)@.wf(),
        final(c)@.items == old(c)@.items,
{
    let args: Vec<Value> = Vec::new();
    assert(args@ =~= Seq::<Value>::empty());
    let it = i.call(c.methods[c.index], c.items[c.index], args)?;
    if !it.is_object() {
        return i.type_error("@@iterator did not return an object");
    }
    let next = i.get_member(it, Key::Name("next"))?;
    c.current = it;
    c.current_next = next;
    let n: usize = c.items.len();
    assert(n == c@.items.len());
    c.index = c.index + 1;
    Ok(())
}

/// One step of the concat closure.
pub fn concat_step(i: &mut Interp, c: &mut ConcatIter) -> (r: Result<Option<Value>, Value>)
    requires
        old(c)@.wf(),
    ensures
        (final(i)@, final(c)@, r) == concat_stepped(old(i)@, old(c)@),
        final(c)@.wf(),
{
    loop
        invariant
            c@.wf(),
            concat_stepped(old(i)@, old(c)@) == concat_stepped(i@, c@),
        decreases i@.left(),
    {
        if c.current.is_undefined() {
            if c.index >= c.items.len() {
                return Ok(None);
            }
            open_item(i, c)?;
        }
        proof {
            lemma_step_asks(i@, c@.current, c@.current_next);
        }
        match step_iter_with(i, c.current, c.current_next)? {
            Some(v) => {
                return Ok(Some(v));
            },
            None => {
                c.current = Value::Undefined;
            },
        }
    }
}

/// `next` of a concat iterator.
pub open spec fn concat_advanced(w: World, c: Concat) -> (World, Concat, Result<Value, Value>) {
    if c.running {
        let (w, r) = w.throw(ErrorKind::Type, "Iterator.concat iterator is already running");
        (w, c, r)
    } else if c.done {
        let (w, r) = w.iter_result(Value::Undefined, true);
        (w, c, r)
    } else {
        let (w, c, res) = concat_stepped(w, Concat { started: true, running: true, ..c });
        match res {
            Err(e) => (w, Concat { running: false, done: true, ..c }, Err(e)),
            Ok(None) => {
                let (w, r) = w.iter_result(Value::Undefined, true);
                (w, Concat { running: false, done: true, ..c }, r)
            },
            Ok(Some(v)) => {
                let (w, r) = w.iter_result(v, false);
                (w, Concat { running: false, ..c }, r)
            },
        }
    }
}

/// `Iterator.concat`'s iterator: opens each captured iterable in order and yields its values.
pub fn concat_next(i: &mut Interp, c: &mut ConcatIter) -> (r: Result<Value, Value>)
    requires
        old(c)@.wf(),
    ensures
        (final(i)@, final(c)@, r) == concat_advanced(old(i)@, old(c)@),
        final(c)@.wf(),
{
    if c.running {
        return i.type_error("Iterator.concat iterator is already running");
    }
    if c.done {
        return i.iter_result(Value::Undefined, true);
    }
    c.started = true;
    c.running = true;
    let res = concat_step(i, c);
    c.running = false;
    match res {
        Err(e) => {
            c.done = true;
            Err(e)
        },
        Ok(None) => {
            c.done = true;
            i.iter_result(Value::Undefined, true)
        },
        Ok(Some(v)) => i.iter_result(v, false),
    }
}

/// `return` of a concat iterator.
pub open spec fn concat_returned(w: World, c: Concat) -> (World, Concat, Result<Value, Value>) {
    if c.running {
        let (w, r) = w.throw(ErrorKind::Type, "Iterator.concat iterator is already running");
        (w, c, r)
    } else if c.done {
        let (w, r) = w.iter_result(Value::Undefined, true);
        (w, c, r)
    } else {
        let (w, res) = if c.current.object() {
            w.value(Op::CloseNormal(c.current), Seq::empty())
        } else {
            (w, Ok(Value::Undefined))
        };
        let c = Concat { done: true, ..c };
        match res {
            Err(e) => (w, c, Err(e)),
            Ok(_) => {
                let (w, r) = w.iter_result(Value::Undefined, true);
                (w, c, r)
            },
        }
    }
}

/// return() closes the currently-open inner iterator (once), then reports done.
pub fn concat_return(i: &mut Interp, c: &mut ConcatIter) -> (r: Result<Value, Value>)
    requires
        old(c)@.wf(),
    ensures
        (final(i)@, final(c)@, r) == concat_returned(old(i)@, old(c)@),
        final(c)@.wf(),
{
    if c.running {
        return i.type_error("Iterator.concat iterator is already running");
    }
    if c.done {
        return i.iter_result(Value::Undefined, true);
    }
    c.done = true;
    if c.current.is_object() {
        i.iterator_close_normal(c.current)?;
    }
    i.iter_result(Value::Undefined, true)
}

/// A finished concat iterator stays finished and runs no more code.
pub proof fn law_finished_concat_stays_done(w: World, c: Concat)
    requires
        c.done,
        !c.running,
    ensures
        concat_advanced(w, c).1 == c,
        concat_advanced(w, c).0 == w.plain(
            Op::NewIterResult(Value::Undefined, true),
            Seq::empty(),
        ).0,
        concat_returned(w, c).1 == c,
{
}

} // verus!
