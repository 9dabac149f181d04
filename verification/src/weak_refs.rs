//! `WeakRef` and `FinalizationRegistry`. Targets are weak; held values and cleanup callbacks are not.
use vstd::prelude::*;
use crate::equality::{same, same_value};
use crate::interp::{arg, arg_at, Brand, ErrorKind, Interp, Op, Outcome, Value, World};
use crate::realm::{created_from, new_from_ctor};
use crate::set_methods::{can_be_held_weakly, holdable};

verus! {

/// The receiver carries the slots of a kind.
pub open spec fn branded(w: World, this: Value, brand: Brand) -> (World, bool) {
    if !this.object() {
        (w, false)
    } else {
        w.yes(Op::HasBrand(this, brand))
    }
}

fn is_branded(i: &mut Interp, this: Value, brand: Brand) -> (r: bool)
    ensures
        (final(i)@, r) == branded(old(i)@, this, brand),
{
    this.is_object() && i.ask_yes(Op::HasBrand(this, brand))
}

/// `WeakRef.prototype.deref`.
pub open spec fn dereferenced(w: World, this: Value) -> Outcome<Value> {
    let (w, ok) = branded(w, this, Brand::WeakRefData);
    if !ok {
        w.throw(ErrorKind::Type, "deref called on a non-WeakRef")
    } else {
        let (w, target) = w.plain(Op::WeakTarget(this), Seq::empty());
        if target == Value::Undefined {
            (w, Ok(target))
        } else {
            let (w, _) = w.plain(Op::KeepAlive(target), Seq::empty());
            (w, Ok(target))
        }
    }
}

/// `WeakRef.prototype.deref`: a live target is kept alive for the rest of the job.
pub fn weak_ref_deref(i: &mut Interp, this: Value) -> (r: Result<Value, Value>)
    ensures
        (final(i)@, r) == dereferenced(old(i)@, this),
{
    if !is_branded(i, this, Brand::WeakRefData) {
        return i.type_error("deref called on a non-WeakRef");
    }
    let target = i.perform(Op::WeakTarget(this));
    if !target.is_undefined() {
        let _ = i.perform(Op::KeepAlive(target));
    }
    Ok(target)
}

/// `new WeakRef(target)`.
pub open spec fn weak_ref_made(w: World, args: Seq<Value>) -> Outcome<Value> {
    let target = arg_at(args, 0);
    let (w, nt) = w.plain(Op::NewTarget, Seq::empty());
    if nt == Value::Undefined {
        w.throw(ErrorKind::Type, "WeakRef requires 'new'")
    } else {
        let (w, ok) = holdable(w, target);
        if !ok {
            w.throw(ErrorKind::Type, "WeakRef target must be an object or symbol")
        } else {
            let (w, o) = created_from(w, nt, "WeakRef");
            match o {
                Err(e) => (w, Err(e)),
                Ok(o) => {
                    let (w, _) = w.plain(Op::KeepAlive(target), Seq::empty());
                    let (w, _) = w.plain(Op::StoreWeakTarget(o, target), Seq::empty());
                    (w, Ok(o))
                },
            }
        }
    }
}

pub fn weak_ref_constructor(i: &mut Interp, args: &[Value]) -> (r: Result<Value, Value>)
    ensures
        (final(i)@, r) == weak_ref_made(old(i)@, args@),
{
    let target = arg(args, 0);
    let nt = i.perform(Op::NewTarget);
    if nt.is_undefined() {
        return i.type_error("WeakRef requires 'new'");
    }
    if !can_be_held_weakly(i, target) {
        return i.type_error("WeakRef target must be an object or symbol");
    }
    let o = new_from_ctor(i, nt, "WeakRef")?;
    let _ = i.perform(Op::KeepAlive(target));
    let _ = i.perform(Op::StoreWeakTarget(o, target));
    Ok(o)
}

/// A registration.
#[derive(Clone, Copy, PartialEq, Eq, Structural, Debug)]
pub struct Cell {
    pub target: Value,
    pub held: Value,
    /// The unregister token, or undefined.
    pub token: Value,
}

/// The cells of a registry.
pub struct Registry {
    pub cells: Vec<Cell>,
}

impl View for Registry {
    type V = Seq<Cell>;

    open spec fn view(&self) -> Seq<Cell> {
        self.cells@
    }
}

/// A cell goes by a token.
pub open spec fn goes_by(c: Cell, token: Value) -> bool {
    c.token != Value::Undefined && same(c.token, token)
}

/// The cells that do not go by a token.
pub open spec fn cells_without(c: Seq<Cell>, token: Value) -> Seq<Cell> {
    c.filter(|x: Cell| !goes_by(x, token))
}

impl Registry {
    pub fn new() -> (r: Registry)
        ensures
            r@ == Seq::<Cell>::empty(),
    {
        let r = Registry { cells: Vec::new() };
        assert(r@ =~= Seq::<Cell>::empty());
        r
    }

    /// Adds a registration.
    pub fn add_cell(&mut self, c: Cell)
        ensures
            final(self)@ == old(self)@.push(c),
    {
        self.cells.push(c);
    }

    /// Drops every registration under a token; whether there was one.
    pub fn remove_cells(&mut self, token: Value) -> (r: bool)
        ensures
            final(self)@ == cells_without(old(self)@, token),
            r == (cells_without(old(self)@, token).len() != old(self)@.len()),
    {
        let mut out: Vec<Cell> = Vec::new();
        let mut k: usize = 0;
        proof {
            reveal(Seq::filter);
        }
        assert(out@ =~= cells_without(self@.take(0), token));
        while k < self.cells.len()
            invariant
                self@ == old(self)@,
                k <= self@.len(),
                out@ == cells_without(self@.take(k as int), token),
            decreases self@.len() - k,
        {
            let c = self.cells[k];
            proof {
                let t = self@.take(k + 1);
                assert(t.drop_last() =~= self@.take(k as int));
                assert(t.last() == c);
                reveal(Seq::filter);
            }
            if c.token.is_undefined() || !same_value(c.token, token) {
                out.push(c);
            }
            k += 1;
        }
        assert(self@.take(k as int) =~= self@);
        let removed = out.len() != self.cells.len();
        self.cells = out;
        removed
    }
}

/// What `register` adds, where it adds something.
pub open spec fn registration(w: World, this: Value, args: Seq<Value>) -> Outcome<Cell> {
    let target = arg_at(args, 0);
    let token = arg_at(args, 2);
    let (w, ok) = branded(w, this, Brand::RegistryData);
    if !ok {
        w.throw(ErrorKind::Type, "register called on a non-FinalizationRegistry")
    } else {
        let (w, ok) = holdable(w, target);
        if !ok {
            w.throw(ErrorKind::Type, "target cannot be held weakly")
        } else if same(target, arg_at(args, 1)) {
            w.throw(ErrorKind::Type, "target and held value must not be the same")
        } else {
            let (w, ok) = if token == Value::Undefined {
                (w, true)
            } else {
                holdable(w, token)
            };
            if !ok {
                w.throw(ErrorKind::Type, "unregister token cannot be held weakly")
            } else {
                (w, Ok(Cell { target, held: arg_at(args, 1), token }))
            }
        }
    }
}

/// `FinalizationRegistry.prototype.register`: the target must be registerable, distinct from its
/// held value, and any unregister token must itself be registerable.
pub fn registry_register(i: &mut Interp, registry: &mut Registry, this: Value, args: &[Value]) -> (r:
    Result<Value, Value>)
    ensures
        final(i)@ == registration(old(i)@, this, args@).0,
        match registration(old(i)@, this, args@).1 {
            Ok(c) => final(registry)@ == old(registry)@.push(c) && r == Ok::<Value, Value>(
                Value::Undefined,
            ),
            Err(e) => final(registry)@ == old(registry)@ && r == Err::<Value, Value>(e),
        },
{
    let target = arg(args, 0);
    let token = arg(args, 2);
    if !is_branded(i, this, Brand::RegistryData) {
        return i.type_error("register called on a non-FinalizationRegistry");
    }
    if !can_be_held_weakly(i, target) {
        return i.type_error("target cannot be held weakly");
    }
    if same_value(target, arg(args, 1)) {
        return i.type_error("target and held value must not be the same");
    }
    if !token.is_undefined() && !can_be_held_weakly(i, token) {
        return i.type_error("unregister token cannot be held weakly");
    }
    registry.add_cell(Cell { target, held: arg(args, 1), token });
    Ok(Value::Undefined)
}

/// The token that `unregister` goes by.
pub open spec fn unregistration(w: World, this: Value, args: Seq<Value>) -> Outcome<Value> {
    let (w, ok) = branded(w, this, Brand::RegistryData);
    if !ok {
        w.throw(ErrorKind::Type, "unregister called on a non-FinalizationRegistry")
    } else {
        let (w, ok) = holdable(w, arg_at(args, 0));
        if !ok {
            w.throw(ErrorKind::Type, "unregister token cannot be held weakly")
        } else {
            (w, Ok(arg_at(args, 0)))
        }
    }
}

/// `FinalizationRegistry.prototype.unregister`: whether anything was registered under the token.
pub fn registry_unregister(i: &mut Interp, registry: &mut Registry, this: Value, args: &[Value]) -> (r:
    Result<Value, Value>)
    ensures
        final(i)@ == unregistration(old(i)@, this, args@).0,
        match unregistration(old(i)@, this, args@).1 {
            Ok(token) => final(registry)@ == cells_without(old(registry)@, token) && r == Ok::<
                Value,
                Value,
            >(
                Value::Bool(
                    cells_without(old(registry)@, token).len() != old(registry)@.len(),
                ),
            ),
            Err(e) => final(registry)@ == old(registry)@ && r == Err::<Value, Value>(e),
        },
{
    let token = arg(args, 0);
    if !is_branded(i, this, Brand::RegistryData) {
        return i.type_error("unregister called on a non-FinalizationRegistry");
    }
    if !can_be_held_weakly(i, token) {
        return i.type_error("unregister token cannot be held weakly");
    }
    Ok(Value::Bool(registry.remove_cells(token)))
}

/// `new FinalizationRegistry(callback)`.
pub open spec fn registry_made(w: World, args: Seq<Value>) -> Outcome<Value> {
    let (w, nt) = w.plain(Op::NewTarget, Seq::empty());
    if nt == Value::Undefined {
        w.throw(ErrorKind::Type, "FinalizationRegistry requires 'new'")
    } else if !arg_at(args, 0).callable() {
        w.throw(ErrorKind::Type, "cleanup callback must be callable")
    } else {
        let (w, o) = created_from(w, nt, "FinalizationRegistry");
        match o {
            Err(e) => (w, Err(e)),
            Ok(o) => {
                let (w, _) = w.plain(Op::NewRegistry(o, arg_at(args, 0)), Seq::empty());
                (w, Ok(o))
            },
        }
    }
}

pub fn registry_constructor(i: &mut Interp, args: &[Value]) -> (r: Result<Value, Value>)
    ensures
        (final(i)@, r) == registry_made(old(i)@, args@),
{
    let nt = i.perform(Op::NewTarget);
    if nt.is_undefined() {
        return i.type_error("FinalizationRegistry requires 'new'");
    }
    if !arg(args, 0).is_callable() {
        return i.type_error("cleanup callback must be callable");
    }
    let o = new_from_ctor(i, nt, "FinalizationRegistry")?;
    let _ = i.perform(Op::NewRegistry(o, arg(args, 0)));
    Ok(o)
}

/// Once a token has been unregistered nothing goes by it, and registrations under other tokens, or
/// under none, stay.
pub proof fn law_unregistered_tokens_are_gone(cells: Seq<Cell>, token: Value)
    ensures
        forall|c: Cell| cells_without(cells, token).contains(c) ==> !goes_by(c, token),
        forall|c: Cell|
            cells.contains(c) && !goes_by(c, token) ==> cells_without(cells, token).contains(c),
        cells_without(cells_without(cells, token), token) == cells_without(cells, token),
{
    let keep = |x: Cell| !goes_by(x, token);
    assert forall|c: Cell| cells_without(cells, token).contains(c) implies !goes_by(c, token) by {
        let f = cells_without(cells, token);
        let j = choose|j: int| 0 <= j < f.len() && f[j] == c;
        cells.lemma_filter_pred(keep, j);
    }
    assert forall|c: Cell| cells.contains(c) && !goes_by(c, token) implies cells_without(
        cells,
        token,
    ).contains(c) by {
        let j = choose|j: int| 0 <= j < cells.len() && cells[j] == c;
        cells.lemma_filter_contains(keep, j);
    }
    lemma_filter_again(cells_without(cells, token), token);
}

proof fn lemma_filter_again(f: Seq<Cell>, token: Value)
    requires
        forall|c: Cell| f.contains(c) ==> !goes_by(c, token),
    ensures
        cells_without(f, token) == f,
    decreases f.len(),
{
    reveal(Seq::filter);
    if f.len() > 0 {
        let rest = f.drop_last();
        assert(f.contains(f.last()));
        assert forall|c: Cell| rest.contains(c) implies !goes_by(c, token) by {
            let j = choose|j: int| 0 <= j < rest.len() && rest[j] == c;
            assert(f[j] == c);
            assert(f.contains(c));
        }
        lemma_filter_again(rest, token);
        assert(rest.push(f.last()) =~= f);
    } else {
        assert(cells_without(f, token) =~= f);
    }
}

} // verus!
