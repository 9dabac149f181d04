//! The backing store of Map and Set, and that of WeakMap and WeakSet.
//!
//! A Map or Set keeps its entries in a list with stable positions: a new key goes to the end, a
//! deleted entry leaves an empty slot behind, and no slot is ever used again. Iterators walk the
//! list by position, so they see what is appended while they run and skip what is deleted. A hash
//! index leads from a key to the slots that may hold it.
use std::collections::HashMap;
use vstd::prelude::*;
use vstd::std_specs::hash::*;
use crate::equality::{
    canonical_key, canonicalize_map_key, same_value_zero, same_zero,
};
use crate::interp::Value;
use crate::num;
use crate::places::{stands_in, Places};

verus! {

broadcast use group_hash_axioms;

/// The entries of a collection by position; an empty slot is a deleted entry.
pub type Slots = Seq<Option<(Value, Value)>>;

/// The key of a live slot.
pub open spec fn key_in(slot: Option<(Value, Value)>) -> Value {
    match slot {
        Some((k, _)) => k,
        None => Value::Undefined,
    }
}

/// The value of a live slot.
pub open spec fn value_in(slot: Option<(Value, Value)>) -> Value {
    match slot {
        Some((_, v)) => v,
        None => Value::Undefined,
    }
}

/// Slot `p` holds the key `k`.
pub open spec fn holds_at(s: Slots, k: Value, p: int) -> bool {
    0 <= p < s.len() && s[p] is Some && same_zero(key_in(s[p]), k)
}

/// No two slots hold the same key.
pub open spec fn unique(s: Slots) -> bool {
    forall|p: int, q: int|
        0 <= p < q < s.len() && (#[trigger] s[p]) is Some && (#[trigger] s[q]) is Some
            ==> !same_zero(key_in(s[p]), key_in(s[q]))
}

/// No key is a minus zero.
pub open spec fn canonical(s: Slots) -> bool {
    forall|p: int|
        0 <= p < s.len() && (#[trigger] s[p]) is Some ==> canonical_key(key_in(s[p])) == key_in(s[p])
}

/// The position of a key, if it is there.
pub open spec fn position_of(s: Slots, k: Value) -> Option<int> {
    if exists|p: int| holds_at(s, k, p) {
        Some(choose|p: int| holds_at(s, k, p))
    } else {
        None
    }
}

pub open spec fn lookup(s: Slots, k: Value) -> Option<Value> {
    match position_of(s, k) {
        Some(p) => Some(value_in(s[p])),
        None => None,
    }
}

/// Sets an existing entry or appends a new one.
pub open spec fn inserted(s: Slots, k: Value, v: Value) -> Slots {
    match position_of(s, k) {
        Some(p) => s.update(p, Some((key_in(s[p]), v))),
        None => s.push(Some((canonical_key(k), v))),
    }
}

/// Empties the slot of a key.
pub open spec fn removed(s: Slots, k: Value) -> Slots {
    match position_of(s, k) {
        Some(p) => s.update(p, None),
        None => s,
    }
}

/// Empties every slot.
pub open spec fn emptied(s: Slots) -> Slots {
    Seq::new(s.len(), |p: int| None)
}

/// The live entries in order.
pub open spec fn live(s: Slots) -> Seq<(Value, Value)>
    decreases s.len(),
{
    if s.len() == 0 {
        Seq::empty()
    } else {
        let front = live(s.drop_last());
        match s.last() {
            Some(e) => front.push(e),
            None => front,
        }
    }
}

/// A number that equal keys share.
pub open spec fn key_hash(v: Value) -> u64 {
    match v {
        Value::Undefined => 0,
        Value::Null => 2,
        Value::Bool(b) => if b {
            13
        } else {
            3
        },
        Value::Num(n) => if num::zero(n) {
            4
        } else if num::nan(n) {
            num::NAN
        } else {
            n
        },
        Value::BigInt(id) => spread(id, 5),
        Value::Str(id) => spread(id, 6),
        Value::Sym(id) => spread(id, 7),
        Value::Obj(o) => spread(o.id, 8),
    }
}

/// Handles of one kind spread over the numbers.
pub open spec fn spread(id: u64, tag: u64) -> u64 {
    vstd::wrapping::u64_specs::wrapping_add(
        vstd::wrapping::u64_specs::wrapping_mul(id, 0x9e37_79b9_7f4a_7c15),
        tag,
    )
}

/// Hash a Map/Set key according to SameValueZero. A bucket hit is always checked with the full
/// equality relation, so ordinary hash collisions cannot alias distinct JavaScript keys.
pub fn collection_key_hash(value: Value) -> (r: u64)
    ensures
        r == key_hash(value),
{
    match value {
        Value::Undefined => 0,
        Value::Null => 2,
        Value::Bool(b) => if b {
            13
        } else {
            3
        },
        Value::Num(n) => if num::is_zero(n) {
            4
        } else if num::is_nan(n) {
            num::NAN
        } else {
            n
        },
        Value::BigInt(id) => spread_id(id, 5),
        Value::Str(id) => spread_id(id, 6),
        Value::Sym(id) => spread_id(id, 7),
        Value::Obj(o) => spread_id(o.id, 8),
    }
}

fn spread_id(id: u64, tag: u64) -> (r: u64)
    ensures
        r == spread(id, tag),
{
    id.wrapping_mul(0x9e37_79b9_7f4a_7c15).wrapping_add(tag)
}

/// Keys that SameValueZero takes for one have one hash.
pub proof fn law_equal_keys_hash_alike(a: Value, b: Value)
    requires
        same_zero(a, b),
    ensures
        key_hash(a) == key_hash(b),
{
}

/// The entries of a Map, or of a Set, whose values are its keys.
pub struct Collection {
    entries: Vec<Option<(Value, Value)>>,
    index: Places,
    live: usize,
}

impl View for Collection {
    type V = Slots;

    closed spec fn view(&self) -> Slots {
        self.entries@
    }
}

proof fn lemma_live_len(s: Slots)
    ensures
        live(s).len() <= s.len(),
    decreases s.len(),
{
    if s.len() > 0 {
        lemma_live_len(s.drop_last());
    }
}

proof fn lemma_live_update(s: Slots, p: int, e: Option<(Value, Value)>)
    requires
        0 <= p < s.len(),
    ensures
        s[p] is Some && e is None ==> live(s.update(p, e)).len() == live(s).len() - 1,
        s[p] is Some && e is Some ==> live(s.update(p, e)).len() == live(s).len(),
    decreases s.len(),
{
    let t = s.update(p, e);
    if p == s.len() - 1 {
        assert(t.drop_last() =~= s.drop_last());
    } else {
        assert(t.drop_last() =~= s.drop_last().update(p, e));
        lemma_live_update(s.drop_last(), p, e);
    }
}

proof fn lemma_live_emptied(s: Slots)
    ensures
        live(emptied(s)) == Seq::<(Value, Value)>::empty(),
    decreases s.len(),
{
    if s.len() > 0 {
        lemma_live_emptied(s.drop_last());
        assert(emptied(s).drop_last() =~= emptied(s.drop_last()));
    }
}

pub proof fn lemma_position(s: Slots, k: Value, p: int)
    requires
        unique(s),
        holds_at(s, k, p),
    ensures
        position_of(s, k) == Some(p),
{
    let q = choose|q: int| holds_at(s, k, q);
    if p < q {
        assert(!same_zero(key_in(s[p]), key_in(s[q])));
    } else if q < p {
        assert(!same_zero(key_in(s[q]), key_in(s[p])));
    }
}

impl Collection {
    /// The index lists each live slot under the hash of its key, and nothing else.
    spec fn indexed(&self) -> bool {
        &&& forall|h: u64, p: int| #[trigger]
            self.index.has(h, p) == (0 <= p < self.entries@.len() && self.entries@[p] is Some
                && key_hash(key_in(self.entries@[p])) == h)
        &&& self.live == live(self.entries@).len()
    }

    /// What holds of a collection between calls.
    pub closed spec fn wf(&self) -> bool {
        &&& unique(self@)
        &&& canonical(self@)
        &&& self.indexed()
    }

    /// A collection holds each key once, and no minus zero.
    pub proof fn law_keys_are_unique(&self)
        requires
            self.wf(),
        ensures
            unique(self@),
            canonical(self@),
    {
    }

    pub fn new() -> (r: Collection)
        ensures
            r.wf(),
            r@ == Slots::empty(),
    {
        let r = Collection { entries: Vec::new(), index: Places::new(), live: 0 };
        assert(r.entries@ =~= Slots::empty());
        r
    }

    /// Locate a live ordered entry through the SameValueZero hash index.
    pub fn collection_entry_index(&self, key: Value) -> (r: Option<usize>)
        requires
            self.wf(),
        ensures
            match r {
                Some(p) => position_of(self@, key) == Some(p as int) && p < self@.len(),
                None => position_of(self@, key) is None,
            },
    {
        let hash: u64 = collection_key_hash(key);
        proof {
            assert forall|p: int| holds_at(self@, key, p) implies #[trigger] self.index.has(hash, p) by {
                law_equal_keys_hash_alike(key_in(self@[p]), key);
            }
        }
        match self.index.under(hash) {
            None => {
                assert forall|p: int| !holds_at(self@, key, p) by {
                    assert(!self.index.has(hash, p));
                }
                None
            },
            Some(bucket) => {
                let mut j: usize = 0;
                while j < bucket.len()
                    invariant
                        self.wf(),
                        j <= bucket@.len(),
                        forall|p: int| #[trigger]
                            self.index.has(hash, p) == stands_in(bucket@, p),
                        forall|p: int|
                            holds_at(self@, key, p) ==> #[trigger] self.index.has(hash, p),
                        forall|i: int|
                            0 <= i < j ==> !holds_at(self@, key, (#[trigger] bucket@[i]) as int),
                    decreases bucket@.len() - j,
                {
                    let p: usize = bucket[j];
                    assert(stands_in(bucket@, p as int));
                    assert(self.index.has(hash, p as int));
                    if let Some(e) = self.entries[p] {
                        if same_value_zero(e.0, key) {
                            assert(holds_at(self@, key, p as int));
                            proof {
                                lemma_position(self@, key, p as int);
                            }
                            return Some(p);
                        }
                    }
                    j += 1;
                }
                assert forall|p: int| !holds_at(self@, key, p) by {
                    if holds_at(self@, key, p) {
                        assert(self.index.has(hash, p));
                        let i = choose|i: int|
                            0 <= i < bucket@.len() && #[trigger] bucket@[i] == p;
                        assert(!holds_at(self@, key, bucket@[i] as int));
                    }
                }
                None
            },
        }
    }

    pub fn collection_get(&self, key: Value) -> (r: Option<Value>)
        requires
            self.wf(),
        ensures
            r == lookup(self@, key),
    {
        match self.collection_entry_index(key) {
            Some(p) => {
                assert(holds_at(self@, key, p as int));
                match self.entries[p] {
                    Some(e) => Some(e.1),
                    None => None,
                }
            },
            None => None,
        }
    }

    pub fn collection_has(&self, key: Value) -> (r: bool)
        requires
            self.wf(),
        ensures
            r == (lookup(self@, key) is Some),
    {
        self.collection_entry_index(key).is_some()
    }

    /// Set an existing ordered entry or append a new one. Deleted slots are never reused: delete
    /// then reinsert must move the key to the end, and live iterators must observe that append.
    pub fn collection_set(&mut self, key: Value, value: Value)
        requires
            old(self).wf(),
        ensures
            final(self).wf(),
            final(self)@ == inserted(old(self)@, key, value),
    {
        let ghost s = self@;
        match self.collection_entry_index(key) {
            Some(p) => {
                assert(holds_at(s, key, p as int));
                if let Some(e) = self.entries[p] {
                    self.entries.set(p, Some((e.0, value)));
                    proof {
                        lemma_live_update(s, p as int, Some((e.0, value)));
                        let t = self@;
                        assert(t =~= s.update(p as int, Some((e.0, value))));
                        assert forall|a: int, b: int|
                            0 <= a < b < t.len() && (#[trigger] t[a]) is Some && (
                            #[trigger] t[b]) is Some implies !same_zero(key_in(t[a]), key_in(t[b])) by {
                            assert(s[a] is Some && s[b] is Some);
                            assert(!same_zero(key_in(s[a]), key_in(s[b])));
                        }
                        assert forall|a: int| 0 <= a < t.len() && (#[trigger] t[a]) is Some implies
                            canonical_key(key_in(t[a])) == key_in(t[a]) by {
                            assert(s[a] is Some && key_in(s[a]) == key_in(t[a]));
                        }
                    }
                }
            },
            None => {
                let key2 = canonicalize_map_key(key);
                let hash: u64 = collection_key_hash(key2);
                let p: usize = self.entries.len();
                self.entries.push(Some((key2, value)));
                self.index.enlist(hash, p);
                proof {
                    let t = self@;
                    assert(t =~= s.push(Some((key2, value))));
                    assert(t.drop_last() =~= s);
                    lemma_live_len(s);
                    assert forall|a: int, b: int|
                        0 <= a < b < t.len() && (#[trigger] t[a]) is Some && (#[trigger] t[b]) is Some
                            implies !same_zero(key_in(t[a]), key_in(t[b])) by {
                        assert(s[a] is Some);
                        if b < s.len() {
                            assert(!same_zero(key_in(s[a]), key_in(s[b])));
                        } else {
                            assert(!holds_at(s, key, a));
                        }
                    }
                    assert forall|a: int| 0 <= a < t.len() && (#[trigger] t[a]) is Some implies
                        canonical_key(key_in(t[a])) == key_in(t[a]) by {
                        if a < s.len() {
                            assert(s[a] is Some && s[a] == t[a]);
                        }
                    }
                }
                let count: usize = self.entries.len();
                assert(count == s.len() + 1);
                assert(self.live == live(s).len());
                self.live = self.live + 1;
            },
        }
    }

    pub fn collection_delete(&mut self, key: Value) -> (r: bool)
        requires
            old(self).wf(),
        ensures
            final(self).wf(),
            final(self)@ == removed(old(self)@, key),
            r == (lookup(old(self)@, key) is Some),
    {
        let ghost s = self@;
        match self.collection_entry_index(key) {
            None => false,
            Some(p) => {
                assert(holds_at(s, key, p as int));
                let hash: u64 = collection_key_hash(key);
                proof {
                    law_equal_keys_hash_alike(key_in(s[p as int]), key);
                    lemma_live_update(s, p as int, None);
                    lemma_live_len(s.update(p as int, None));
                }
                self.index.delist(hash, p);
                self.entries.set(p, None);
                self.live = self.live - 1;
                proof {
                    let t = self@;
                    assert(t =~= s.update(p as int, None));
                    assert forall|a: int, b: int|
                        0 <= a < b < t.len() && (#[trigger] t[a]) is Some && (#[trigger] t[b]) is Some
                            implies !same_zero(key_in(t[a]), key_in(t[b])) by {
                        assert(s[a] is Some && s[b] is Some);
                    }
                    assert forall|a: int| 0 <= a < t.len() && (#[trigger] t[a]) is Some implies
                        canonical_key(key_in(t[a])) == key_in(t[a]) by {
                        assert(s[a] is Some && s[a] == t[a]);
                    }
                }
                true
            },
        }
    }

    pub fn collection_clear(&mut self)
        requires
            old(self).wf(),
        ensures
            final(self).wf(),
            final(self)@ == emptied(old(self)@),
    {
        let ghost s = self@;
        let n: usize = self.entries.len();
        let mut fresh: Vec<Option<(Value, Value)>> = Vec::new();
        while fresh.len() < n
            invariant
                fresh@.len() <= n,
                forall|p: int| 0 <= p < fresh@.len() ==> (#[trigger] fresh@[p]) is None,
            decreases n - fresh@.len(),
        {
            fresh.push(None);
        }
        self.entries = fresh;
        self.index = Places::new();
        self.live = 0;
        proof {
            assert(self@ =~= emptied(s));
            lemma_live_emptied(s);
        }
    }

    /// Count the live (non-tombstone) entries of a collection.
    pub fn coll_live_len(&self) -> (r: usize)
        requires
            self.wf(),
        ensures
            r == live(self@).len(),
    {
        self.live
    }

    /// The number of slots, empty ones counted.
    pub fn slot_count(&self) -> (r: usize)
        ensures
            r == self@.len(),
    {
        self.entries.len()
    }

    /// The entry at a position: none past the end, and an empty slot for a deleted entry.
    pub fn entry_at(&self, p: usize) -> (r: Option<Option<(Value, Value)>>)
        ensures
            r == if p < self@.len() {
                Some(self@[p as int])
            } else {
                None
            },
    {
        if p < self.entries.len() {
            Some(self.entries[p])
        } else {
            None
        }
    }

    /// The live keys in order.
    pub fn live_keys(&self) -> (r: Vec<Value>)
        ensures
            r@ == live(self@).map_values(|e: (Value, Value)| e.0),
    {
        let mut out: Vec<Value> = Vec::new();
        let mut p: usize = 0;
        let ghost key = |e: (Value, Value)| e.0;
        assert(out@ =~= live(self@.take(0)).map_values(key));
        while p < self.entries.len()
            invariant
                p <= self@.len(),
                self@ == self.entries@,
                key == (|e: (Value, Value)| e.0),
                out@ == live(self@.take(p as int)).map_values(key),
            decreases self@.len() - p,
        {
            assert(self@.take(p + 1).drop_last() =~= self@.take(p as int));
            let ghost before = live(self@.take(p as int));
            if let Some(e) = self.entries[p] {
                out.push(e.0);
                assert(live(self@.take(p + 1)) == before.push(e));
                assert(before.push(e).map_values(key) =~= before.map_values(key).push(e.0));
            }
            p += 1;
        }
        assert(self@.take(p as int) =~= self@);
        out
    }
}

// What a Map or Set promises.

/// A read gives back what was last written under the key.
pub proof fn law_get_after_set(s: Slots, k: Value, v: Value)
    requires
        unique(s),
    ensures
        lookup(inserted(s, k, v), k) == Some(v),
        unique(inserted(s, k, v)),
{
    let t = inserted(s, k, v);
    law_set_keeps_unique(s, k, v);
    match position_of(s, k) {
        Some(p) => {
            assert(holds_at(t, k, p));
            lemma_position(t, k, p);
        },
        None => {
            let p = s.len() as int;
            assert(holds_at(t, k, p));
            lemma_position(t, k, p);
        },
    }
}

/// Writing keeps every key in one slot.
pub proof fn law_set_keeps_unique(s: Slots, k: Value, v: Value)
    requires
        unique(s),
    ensures
        unique(inserted(s, k, v)),
{
    let t = inserted(s, k, v);
    assert forall|a: int, b: int|
        0 <= a < b < t.len() && (#[trigger] t[a]) is Some && (#[trigger] t[b]) is Some implies
        !same_zero(key_in(t[a]), key_in(t[b])) by {
        assert(s[a] is Some);
        if b < s.len() {
            assert(s[b] is Some);
        } else {
            assert(!holds_at(s, k, a));
        }
    }
}

/// Writing under one key leaves every other key's value alone.
pub proof fn law_set_leaves_others(s: Slots, k: Value, v: Value, other: Value)
    requires
        unique(s),
        !same_zero(k, other),
    ensures
        lookup(inserted(s, k, v), other) == lookup(s, other),
{
    let t = inserted(s, k, v);
    law_set_keeps_unique(s, k, v);
    match position_of(s, other) {
        Some(q) => {
            if let Some(p) = position_of(s, k) {
                assert(holds_at(s, k, p));
            }
            assert(holds_at(t, other, q));
            lemma_position(t, other, q);
        },
        None => {
            assert forall|q: int| !holds_at(t, other, q) by {
                if holds_at(t, other, q) {
                    if q < s.len() {
                        if let Some(p) = position_of(s, k) {
                            assert(holds_at(s, k, p));
                        }
                        assert(holds_at(s, other, q));
                    }
                }
            }
        },
    }
}

/// A deleted key is gone, every other key stays, and no position moves.
pub proof fn law_delete_removes_one(s: Slots, k: Value, other: Value)
    requires
        unique(s),
    ensures
        lookup(removed(s, k), k) is None,
        unique(removed(s, k)),
        removed(s, k).len() == s.len(),
        !same_zero(k, other) ==> lookup(removed(s, k), other) == lookup(s, other),
{
    let t = removed(s, k);
    assert forall|a: int, b: int|
        0 <= a < b < t.len() && (#[trigger] t[a]) is Some && (#[trigger] t[b]) is Some implies
        !same_zero(key_in(t[a]), key_in(t[b])) by {
        assert(s[a] is Some && s[b] is Some);
    }
    assert forall|q: int| !holds_at(t, k, q) by {
        if holds_at(t, k, q) {
            assert(holds_at(s, k, q));
            lemma_position(s, k, q);
        }
    }
    if !same_zero(k, other) {
        match position_of(s, other) {
            Some(q) => {
                if let Some(p) = position_of(s, k) {
                    assert(holds_at(s, k, p));
                }
                assert(holds_at(t, other, q));
                lemma_position(t, other, q);
            },
            None => {
                assert forall|q: int| !holds_at(t, other, q) by {
                    if holds_at(t, other, q) {
                        assert(holds_at(s, other, q));
                    }
                }
            },
        }
    }
}

/// A new key goes to the end, and one that is deleted and set again does too; a key that is there
/// keeps its place.
pub proof fn law_order_of_insertion(s: Slots, k: Value, v: Value)
    requires
        unique(s),
    ensures
        position_of(s, k) is None ==> live(inserted(s, k, v)) == live(s).push(
            (canonical_key(k), v),
        ),
        position_of(s, k) matches Some(p) ==> position_of(inserted(s, k, v), k) == Some(p),
        live(inserted(removed(s, k), k, v)) == live(removed(s, k)).push((canonical_key(k), v)),
{
    law_get_after_set(s, k, v);
    law_delete_removes_one(s, k, k);
    match position_of(s, k) {
        Some(p) => {
            let t = inserted(s, k, v);
            assert(holds_at(s, k, p));
            assert(holds_at(t, k, p));
            lemma_position(t, k, p);
        },
        None => {
            assert(inserted(s, k, v).drop_last() =~= s);
        },
    }
    let r = removed(s, k);
    assert(position_of(r, k) is None);
    assert(inserted(r, k, v).drop_last() =~= r);
}

/// The size counts the live entries: a new key adds one, a deletion takes one, and clearing leaves
/// none.
pub proof fn law_size(s: Slots, k: Value, v: Value)
    requires
        unique(s),
    ensures
        live(inserted(s, k, v)).len() == live(s).len() + if position_of(s, k) is None {
            1int
        } else {
            0
        },
        live(removed(s, k)).len() == live(s).len() - if position_of(s, k) is None {
            0int
        } else {
            1
        },
        live(emptied(s)).len() == 0,
{
    lemma_live_emptied(s);
    match position_of(s, k) {
        Some(p) => {
            assert(holds_at(s, k, p));
            lemma_live_update(s, p, Some((key_in(s[p]), v)));
            lemma_live_update(s, p, None);
        },
        None => {
            assert(inserted(s, k, v).drop_last() =~= s);
        },
    }
}

/// No operation moves an entry or brings an emptied slot back: an iterator at a position sees the
/// same entries after it, less what was deleted, plus what was appended.
pub proof fn law_positions_are_stable(s: Slots, k: Value, v: Value, p: int)
    requires
        unique(s),
        0 <= p < s.len(),
    ensures
        inserted(s, k, v).len() >= s.len(),
        s[p] is None ==> inserted(s, k, v)[p] is None,
        s[p] is Some ==> inserted(s, k, v)[p] is Some && key_in(inserted(s, k, v)[p]) == key_in(s[p]),
        removed(s, k)[p] is None || removed(s, k)[p] == s[p],
        s[p] is None ==> removed(s, k)[p] is None,
{
    if let Some(q) = position_of(s, k) {
        assert(holds_at(s, k, q));
    }
}

// Weak collections

/// An identity that objects and symbols do not share.
pub open spec fn identity(v: Value) -> Option<u128> {
    match v {
        Value::Obj(o) => Some((2 * (o.id as int)) as u128),
        Value::Sym(id) => Some((2 * (id as int) + 1) as u128),
        _ => None,
    }
}

pub fn weak_key(v: Value) -> (r: Option<u128>)
    ensures
        r == identity(v),
{
    match v {
        Value::Obj(o) => Some(2 * (o.id as u128)),
        Value::Sym(id) => Some(2 * (id as u128) + 1),
        _ => None,
    }
}

/// Distinct objects and symbols have distinct identities.
pub proof fn law_identities_are_distinct(a: Value, b: Value)
    requires
        identity(a) is Some,
        identity(a) == identity(b),
    ensures
        match (a, b) {
            (Value::Obj(x), Value::Obj(y)) => x.id == y.id,
            (Value::Sym(x), Value::Sym(y)) => x == y,
            _ => false,
        },
{
}

/// The entries of a WeakMap or WeakSet: a compact list with an index by identity. Their order
/// cannot be observed.
pub struct WeakCollection {
    entries: Vec<(u128, Value)>,
    index: HashMap<u128, usize>,
}

impl View for WeakCollection {
    type V = Map<u128, Value>;

    closed spec fn view(&self) -> Map<u128, Value> {
        Map::new(
            |id: u128| self.index@.contains_key(id),
            |id: u128| self.entries@[self.index@[id] as int].1,
        )
    }
}

impl WeakCollection {
    /// The index leads to the entry with that identity, and every entry is led to.
    pub closed spec fn wf(&self) -> bool {
        &&& forall|id: u128|
            #[trigger] self.index@.contains_key(id) ==> self.index@[id] < self.entries@.len()
                && self.entries@[self.index@[id] as int].0 == id
        &&& forall|p: int|
            0 <= p < self.entries@.len() ==> self.index@.contains_key(
                (#[trigger] self.entries@[p]).0,
            ) && self.index@[self.entries@[p].0] == p
    }

    pub fn new() -> (r: WeakCollection)
        ensures
            r.wf(),
            r@ == Map::<u128, Value>::empty(),
    {
        let r = WeakCollection { entries: Vec::new(), index: HashMap::new() };
        assert(r@ =~= Map::<u128, Value>::empty());
        r
    }

    /// Where the entry of a key stands.
    fn weak_entry_index(&self, key: Value) -> (r: Option<usize>)
        ensures
            r == if identity(key) is Some && self.index@.contains_key(identity(key)->0) {
                Some(self.index@[identity(key)->0])
            } else {
                None
            },
    {
        match weak_key(key) {
            None => None,
            Some(id) => match self.index.get(&id) {
                Some(p) => Some(*p),
                None => None,
            },
        }
    }

    /// The value under a key that can be held weakly.
    pub fn weak_get(&self, key: Value) -> (r: Option<Value>)
        requires
            self.wf(),
        ensures
            r == if identity(key) is Some && self@.contains_key(identity(key)->0) {
                Some(self@[identity(key)->0])
            } else {
                None
            },
    {
        match self.weak_entry_index(key) {
            None => None,
            Some(p) => Some(self.entries[p].1),
        }
    }

    /// Stores a value under a key that can be held weakly.
    pub fn weak_insert(&mut self, key: Value, value: Value)
        requires
            old(self).wf(),
            identity(key) is Some,
        ensures
            final(self).wf(),
            final(self)@ == old(self)@.insert(identity(key)->0, value),
    {
        if let Some(id) = weak_key(key) {
            let ghost before = self@;
            match self.weak_entry_index(key) {
                Some(p) => {
                    let ghost es = self.entries@;
                    self.entries.set(p, (id, value));
                    proof {
                        assert forall|q: int| 0 <= q < self.entries@.len() implies (
                        #[trigger] self.entries@[q]).0 == es[q].0 by {}
                        assert(self@ =~= before.insert(id, value));
                    }
                },
                None => {
                    let p: usize = self.entries.len();
                    let ghost es = self.entries@;
                    self.entries.push((id, value));
                    self.index.insert(id, p);
                    proof {
                        assert forall|q: int| 0 <= q < self.entries@.len() implies self.index@.contains_key(
                            (#[trigger] self.entries@[q]).0,
                        ) && self.index@[self.entries@[q].0] == q by {
                            if q < es.len() {
                                assert(self.entries@[q] == es[q]);
                            }
                        }
                        assert(self@ =~= before.insert(id, value));
                    }
                },
            }
        }
    }

    /// Takes a key out; the entry that closes the gap is found again by the index.
    pub fn weak_delete(&mut self, key: Value) -> (r: bool)
        requires
            old(self).wf(),
        ensures
            final(self).wf(),
            r == (identity(key) is Some && old(self)@.contains_key(identity(key)->0)),
            final(self)@ == if r {
                old(self)@.remove(identity(key)->0)
            } else {
                old(self)@
            },
    {
        match weak_key(key) {
            None => false,
            Some(id) => {
                let ghost before = self@;
                let ghost es = self.entries@;
                let ghost m = self.index@;
                match self.index.remove(&id) {
                    None => {
                        assert(self@ =~= before);
                        false
                    },
                    Some(p) => {
                        let _ = self.entries.swap_remove(p);
                        let ghost last = es.len() - 1;
                        if p < self.entries.len() {
                            let moved: u128 = self.entries[p].0;
                            assert(es[last].0 == moved);
                            self.index.insert(moved, p);
                        }
                        proof {
                            let fs = self.entries@;
                            let n = self.index@;
                            assert forall|q: int| 0 <= q < fs.len() implies #[trigger] fs[q]
                                == es[if q == p {
                                last
                            } else {
                                q
                            }] by {}
                            assert forall|q: int| 0 <= q < fs.len() implies n.contains_key(
                                (#[trigger] fs[q]).0,
                            ) && n[fs[q].0] == q by {
                                let o = if q == p { last } else { q };
                                assert(m[es[o].0] == o);
                            }
                            assert forall|x: u128| #[trigger] n.contains_key(x) implies n[x] < fs.len()
                                && fs[n[x] as int].0 == x by {
                                if p < fs.len() && x == es[last].0 {
                                } else {
                                    assert(m.contains_key(x));
                                    assert(m[x] != p);
                                    if m[x] == last {
                                        assert(es[last].0 == x);
                                    }
                                }
                            }
                            assert forall|x: u128| x != id && m.contains_key(x) implies #[trigger] fs[n[x] as int].1
                                == es[m[x] as int].1 by {
                                assert(m[es[m[x] as int].0] == m[x]);
                            }
                            assert(self@ =~= before.remove(id));
                        }
                        true
                    },
                }
            },
        }
    }
}

} // verus!
