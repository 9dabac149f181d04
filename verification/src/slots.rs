//! The internal data of collections and registries, and what it answers to the questions that
//! built-ins ask about it while other code may run.
use vstd::prelude::*;
use crate::collections::{
    identity, inserted, live, lookup, removed, Collection, Slots, WeakCollection,
};
use crate::interp::{Answer, Brand, Op, Reply, Value};
use crate::num;
use crate::weak_refs::{Cell, Registry};

verus! {

/// What an object holds that only built-ins reach.
pub struct Internal {
    /// What the object is, as far as its internal data goes.
    pub brand: Option<Brand>,
    /// The entries of a Map or Set.
    pub entries: Collection,
    /// The entries of a WeakMap or WeakSet.
    pub weak: WeakCollection,
    /// The cells of a FinalizationRegistry.
    pub registry: Registry,
}

/// Internal data as contracts speak of it.
#[verifier::ext_equal]
pub struct Hidden {
    pub brand: Option<Brand>,
    pub entries: Slots,
    pub weak: Map<u128, Value>,
    pub cells: Seq<Cell>,
}

impl View for Internal {
    type V = Hidden;

    open spec fn view(&self) -> Hidden {
        Hidden {
            brand: self.brand,
            entries: self.entries@,
            weak: self.weak@,
            cells: self.registry@,
        }
    }
}

impl Hidden {
    /// The value under a key of a collection.
    pub open spec fn value_of(self, k: Value) -> Option<Value> {
        if self.is_weak() {
            match identity(k) {
                Some(id) => if self.weak.contains_key(id) {
                    Some(self.weak[id])
                } else {
                    None
                },
                None => None,
            }
        } else {
            lookup(self.entries, k)
        }
    }

    pub open spec fn is_weak(self) -> bool {
        self.brand == Some(Brand::WeakMapData) || self.brand == Some(Brand::WeakSetData)
    }

    pub open spec fn carries(self, b: Brand) -> bool {
        self.brand == Some(b) || (b == Brand::WeakData && self.is_weak())
    }

    /// Sets an entry; a key that cannot be held weakly is not entered in a weak collection.
    pub open spec fn storing(self, k: Value, v: Value) -> Hidden {
        if self.is_weak() {
            match identity(k) {
                Some(id) => Hidden { weak: self.weak.insert(id, v), ..self },
                None => self,
            }
        } else {
            Hidden { entries: inserted(self.entries, k, v), ..self }
        }
    }

    /// Drops an entry.
    pub open spec fn dropping(self, k: Value) -> Hidden {
        if self.is_weak() {
            match identity(k) {
                Some(id) => Hidden { weak: self.weak.remove(id), ..self },
                None => self,
            }
        } else {
            Hidden { entries: removed(self.entries, k), ..self }
        }
    }
}

/// Fresh internal data of a kind.
pub open spec fn fresh_data(brand: Option<Brand>) -> Hidden {
    Hidden {
        brand,
        entries: Slots::empty(),
        weak: Map::empty(),
        cells: Seq::empty(),
    }
}

/// A count as a Number.
pub fn number_of(n: usize) -> (r: Value)
    ensures
        r == Value::Num(num::position(n as int)),
{
    if n as u64 > num::COUNT_LIMIT {
        Value::Num(num::of_u64(num::COUNT_LIMIT))
    } else {
        Value::Num(num::of_u64(n as u64))
    }
}

/// What internal data answers to a question about it; none for any other question.
pub open spec fn answered(h: Hidden, op: Op) -> Option<Answer> {
    match op {
        Op::HasBrand(_, b) => Some(Answer::Value(Value::Bool(h.carries(b)))),
        Op::SlotAt(_, p) => Some(
            if p < h.entries.len() {
                match h.entries[p as int] {
                    Some(e) => Answer::List(seq![e.0, e.1]),
                    None => Answer::List(Seq::empty()),
                }
            } else {
                Answer::Value(Value::Undefined)
            },
        ),
        Op::LiveCount(_) => Some(
            Answer::Value(Value::Num(num::position(live(h.entries).len() as int))),
        ),
        Op::LiveKeys(_) => Some(
            Answer::List(live(h.entries).map_values(|e: (Value, Value)| e.0)),
        ),
        Op::HoldsKey(_, k) => Some(Answer::Value(Value::Bool(h.value_of(k) is Some))),
        Op::EntryValue(_, k) => Some(
            match h.value_of(k) {
                Some(v) => Answer::List(seq![v]),
                None => Answer::List(Seq::empty()),
            },
        ),
        _ => None,
    }
}

impl Internal {
    pub open spec fn wf(&self) -> bool {
        self.entries.wf() && self.weak.wf()
    }

    pub fn new(brand: Option<Brand>) -> (r: Internal)
        ensures
            r.wf(),
            r@ == fresh_data(brand),
    {
        Internal {
            brand,
            entries: Collection::new(),
            weak: WeakCollection::new(),
            registry: Registry::new(),
        }
    }

    pub fn is_weak(&self) -> (r: bool)
        ensures
            r == self@.is_weak(),
    {
        match self.brand {
            Some(Brand::WeakMapData) => true,
            Some(Brand::WeakSetData) => true,
            _ => false,
        }
    }

    pub fn has_brand(&self, b: Brand) -> (r: bool)
        ensures
            r == self@.carries(b),
    {
        match self.brand {
            Some(own) => own == b || (b == Brand::WeakData && self.is_weak()),
            None => false,
        }
    }

    /// The value under a key of a collection.
    pub fn read_entry(&self, k: Value) -> (r: Option<Value>)
        requires
            self.wf(),
        ensures
            r == self@.value_of(k),
    {
        if self.is_weak() {
            self.weak.weak_get(k)
        } else {
            self.entries.collection_get(k)
        }
    }

    /// Sets an entry of a collection.
    pub fn store_entry(&mut self, k: Value, v: Value)
        requires
            old(self).wf(),
        ensures
            final(self).wf(),
            final(self)@ == old(self)@.storing(k, v),
    {
        if self.is_weak() {
            match k {
                Value::Obj(_) => self.weak.weak_insert(k, v),
                Value::Sym(_) => self.weak.weak_insert(k, v),
                _ => {},
            }
        } else {
            self.entries.collection_set(k, v);
        }
    }

    /// Drops an entry of a collection; whether there was one.
    pub fn drop_entry(&mut self, k: Value) -> (r: bool)
        requires
            old(self).wf(),
        ensures
            final(self).wf(),
            final(self)@ == old(self)@.dropping(k),
            r == (old(self)@.value_of(k) is Some),
    {
        if self.is_weak() {
            let ghost before = self@;
            let r = self.weak.weak_delete(k);
            proof {
                if !r && identity(k) is Some {
                    assert(before.weak.remove(identity(k)->0) =~= before.weak);
                }
            }
            r
        } else {
            self.entries.collection_delete(k)
        }
    }

    /// Answers a question about this data.
    pub fn answer(&self, op: Op) -> (r: Option<Reply>)
        requires
            self.wf(),
        ensures
            match r {
                Some(a) => answered(self@, op) == Some(a@),
                None => answered(self@, op) is None,
            },
    {
        match op {
            Op::HasBrand(_, b) => Some(Reply::Value(Value::Bool(self.has_brand(b)))),
            Op::SlotAt(_, p) => if p >= self.entries.slot_count() as u64 {
                Some(Reply::Value(Value::Undefined))
            } else {
                match self.entries.entry_at(p as usize) {
                    Some(Some(e)) => {
                        let l = vec![e.0, e.1];
                        assert(l@ =~= seq![e.0, e.1]);
                        Some(Reply::List(l))
                    },
                    _ => {
                        let l: Vec<Value> = Vec::new();
                        assert(l@ =~= Seq::<Value>::empty());
                        Some(Reply::List(l))
                    },
                }
            },
            Op::LiveCount(_) => Some(Reply::Value(number_of(self.entries.coll_live_len()))),
            Op::LiveKeys(_) => Some(Reply::List(self.entries.live_keys())),
            Op::HoldsKey(_, k) => Some(Reply::Value(Value::Bool(self.read_entry(k).is_some()))),
            Op::EntryValue(_, k) => {
                let mut l: Vec<Value> = Vec::new();
                match self.read_entry(k) {
                    Some(v) => {
                        l.push(v);
                        assert(l@ =~= seq![v]);
                    },
                    None => {
                        assert(l@ =~= Seq::<Value>::empty());
                    },
                }
                Some(Reply::List(l))
            },
            _ => None,
        }
    }
}

} // verus!
