//! Byte-accounted least-recently-used storage for reconstructible engine artifacts.
//!
//! A cache holds at most `max_entries` entries whose declared sizes add up to at most
//! `max_bytes`. Recency is kept by generations: every use of an entry that is not already the
//! newest gives it a fresh generation and appends that generation to a queue. A generation in
//! the queue that no entry carries any more is stale; stale generations are skipped during
//! eviction and swept out once they outnumber the live ones. An entry is found by the hash of its
//! key, and a queued generation by its own number, so a hit is one hash lookup plus an append.
use std::collections::VecDeque;
use vstd::layout::size_of;
use vstd::prelude::*;
use crate::places::{stands_in, Places};
use crate::retained::saturated;
use crate::text::same_text;

verus! {

/// A key that can be hashed and compared with another one.
pub trait CacheKey: View {
    /// A number that equal keys share.
    spec fn hashed(key: Self::V) -> u64;

    fn hash_key(&self) -> (r: u64)
        ensures
            r == Self::hashed(self@),
    ;

    /// Whether both keys are the same.
    fn same_key(&self, other: &Self) -> (r: bool)
        ensures
            r == (self@ == other@),
    ;
}

/// The hashes of texts lie below this number.
const HASHES: u64 = 0x100_0000_0000_0000;

/// The hash of a text.
pub open spec fn text_hashed(s: Seq<char>) -> int
    decreases s.len(),
{
    if s.len() == 0 {
        0
    } else {
        (text_hashed(s.drop_last()) * 31 + s.last() as u32) % 0x100_0000_0000_0000
    }
}

fn hash_text(s: &str) -> (r: u64)
    ensures
        r == text_hashed(s@),
        r < HASHES,
{
    let n: usize = s.unicode_len();
    let mut hash: u64 = 0;
    let mut i: usize = 0;
    while i < n
        invariant
            i <= n,
            n == s@.len(),
            hash < HASHES,
            hash == text_hashed(s@.subrange(0, i as int)),
        decreases n - i,
    {
        assert(s@.subrange(0, i + 1).drop_last() =~= s@.subrange(0, i as int));
        hash = (hash * 31 + s.get_char(i) as u64) % HASHES;
        i += 1;
    }
    assert(s@.subrange(0, i as int) =~= s@);
    hash
}

impl CacheKey for i32 {
    open spec fn hashed(key: i32) -> u64 {
        key as u64
    }

    fn hash_key(&self) -> (r: u64) {
        *self as u64
    }

    fn same_key(&self, other: &Self) -> (r: bool) {
        *self == *other
    }
}

impl CacheKey for u64 {
    open spec fn hashed(key: u64) -> u64 {
        key
    }

    fn hash_key(&self) -> (r: u64) {
        *self
    }

    fn same_key(&self, other: &Self) -> (r: bool) {
        *self == *other
    }
}

impl CacheKey for &'static str {
    open spec fn hashed(key: Seq<char>) -> u64 {
        text_hashed(key) as u64
    }

    fn hash_key(&self) -> (r: u64) {
        hash_text(self)
    }

    fn same_key(&self, other: &Self) -> (r: bool) {
        same_text(self, other)
    }
}

/// One cached value as the model sees it.
pub struct Slot<KV, V> {
    pub key: KV,
    pub value: V,
    pub bytes: int,
}

/// A cache as a list of slots, the least recently used first.
pub struct Lru<KV, V> {
    pub slots: Seq<Slot<KV, V>>,
    pub bytes: int,
    pub max_bytes: int,
    pub max_entries: int,
}

/// The number of entries that a limit allows.
pub open spec fn entry_limit(max_entries: usize) -> int {
    if max_entries == usize::MAX {
        usize::MAX - 1
    } else {
        max_entries as int
    }
}

/// `a + b`, held at the largest machine size.
pub open spec fn sat_plus(a: int, b: int) -> int {
    if a + b > usize::MAX {
        usize::MAX as int
    } else {
        a + b
    }
}

/// `a - b`, held at zero.
pub open spec fn sat_minus(a: int, b: int) -> int {
    if a < b {
        0
    } else {
        a - b
    }
}

/// The slots without the one under `k`, in the same order.
pub open spec fn forget<KV, V>(s: Seq<Slot<KV, V>>, k: KV) -> Seq<Slot<KV, V>>
    decreases s.len(),
{
    if s.len() == 0 {
        s
    } else if s[0].key == k {
        forget(s.drop_first(), k)
    } else {
        seq![s[0]] + forget(s.drop_first(), k)
    }
}

/// The declared sizes of all slots added up.
pub open spec fn total<KV, V>(s: Seq<Slot<KV, V>>) -> int
    decreases s.len(),
{
    if s.len() == 0 {
        0
    } else {
        s[0].bytes + total(s.drop_first())
    }
}

pub open spec fn has_key<KV, V>(s: Seq<Slot<KV, V>>, k: KV) -> bool {
    exists|i: int| 0 <= i < s.len() && (#[trigger] s[i]).key == k
}

pub open spec fn slot_of<KV, V>(s: Seq<Slot<KV, V>>, k: KV) -> Slot<KV, V> {
    let i = choose|i: int| 0 <= i < s.len() && (#[trigger] s[i]).key == k;
    s[i]
}

pub open spec fn distinct_keys<KV, V>(s: Seq<Slot<KV, V>>) -> bool {
    forall|i: int, j: int| 0 <= i < j < s.len() ==> (#[trigger] s[i]).key != (#[trigger] s[j]).key
}

impl<KV, V> Lru<KV, V> {
    /// The value kept under `k`, if there is one.
    pub open spec fn lookup(self, k: KV) -> Option<V> {
        if has_key(self.slots, k) {
            Some(slot_of(self.slots, k).value)
        } else {
            None
        }
    }

    /// A use of `k` makes it the most recent.
    pub open spec fn touch(self, k: KV) -> Self {
        if has_key(self.slots, k) {
            Lru { slots: forget(self.slots, k).push(slot_of(self.slots, k)), ..self }
        } else {
            self
        }
    }

    /// Takes out the slot under `k`.
    pub open spec fn remove(self, k: KV) -> Self {
        if has_key(self.slots, k) {
            Lru {
                slots: forget(self.slots, k),
                bytes: sat_minus(self.bytes, slot_of(self.slots, k).bytes),
                ..self
            }
        } else {
            self
        }
    }

    pub open spec fn over_budget(self) -> bool {
        self.bytes > self.max_bytes || self.slots.len() > self.max_entries
    }

    /// Drops least recent slots, one at a time, until both budgets are met.
    pub open spec fn evict(self) -> Self
        decreases self.slots.len(),
    {
        if self.over_budget() && self.slots.len() > 0 {
            Lru {
                slots: self.slots.drop_first(),
                bytes: sat_minus(self.bytes, self.slots[0].bytes),
                ..self
            }.evict()
        } else {
            self
        }
    }

    /// Adds a slot as the most recent one, before any eviction.
    pub open spec fn push(self, k: KV, v: V, bytes: int) -> Self {
        Lru {
            slots: self.slots.push(Slot { key: k, value: v, bytes }),
            bytes: sat_plus(self.bytes, bytes),
            ..self
        }
    }

    /// Stores `v` under `k`. A value larger than the whole budget is not kept, and neither is
    /// what stood under its key.
    pub open spec fn insert(self, k: KV, v: V, bytes: int) -> Self {
        if bytes > self.max_bytes || self.max_entries == 0 {
            self.remove(k)
        } else {
            self.remove(k).push(k, v, bytes).evict()
        }
    }

    /// What holds of every cache between calls.
    pub open spec fn valid(self) -> bool {
        &&& distinct_keys(self.slots)
        &&& self.slots.len() <= self.max_entries
        &&& 0 <= self.bytes <= self.max_bytes <= usize::MAX
        &&& self.bytes <= total(self.slots)
        &&& 2 * self.max_bytes <= usize::MAX ==> self.bytes == total(self.slots)
        &&& forall|i: int| 0 <= i < self.slots.len() ==> (#[trigger] self.slots[i]).bytes >= 0
    }
}

struct Entry<K, V> {
    key: K,
    value: V,
    bytes: usize,
    generation: u64,
}

/// A cache of values of type `V` under keys of type `K`.
pub struct ByteLru<K, V> {
    entries: Vec<Entry<K, V>>,
    keys: Places,
    generations: Places,
    order: VecDeque<u64>,
    bytes: usize,
    max_bytes: usize,
    max_entries: usize,
    generation: u64,
}

spec fn slot<K: View, V>(e: Entry<K, V>) -> Slot<K::V, V> {
    Slot { key: e.key@, value: e.value, bytes: e.bytes as int }
}

spec fn live<K, V>(es: Seq<Entry<K, V>>, g: u64) -> bool {
    exists|i: int| 0 <= i < es.len() && (#[trigger] es[i]).generation == g
}

spec fn at_generation<K: View, V>(es: Seq<Entry<K, V>>, g: u64) -> Slot<K::V, V> {
    let i = choose|i: int| 0 <= i < es.len() && (#[trigger] es[i]).generation == g;
    slot(es[i])
}

/// The live slots in the order of the queue.
spec fn recency<K: View, V>(order: Seq<u64>, es: Seq<Entry<K, V>>) -> Seq<Slot<K::V, V>>
    decreases order.len(),
{
    if order.len() == 0 {
        Seq::empty()
    } else if live(es, order[0]) {
        seq![at_generation(es, order[0])] + recency(order.drop_first(), es)
    } else {
        recency(order.drop_first(), es)
    }
}

spec fn distinct_entries<K: View, V>(es: Seq<Entry<K, V>>) -> bool {
    forall|i: int, j: int|
        0 <= i < j < es.len() ==> (#[trigger] es[i]).key@ != (#[trigger] es[j]).key@
            && es[i].generation != es[j].generation
}

spec fn increasing(order: Seq<u64>) -> bool {
    forall|i: int, j: int| 0 <= i < j < order.len() ==> order[i] < order[j]
}

spec fn lists(idx: Seq<usize>, i: int) -> bool {
    exists|j: int| 0 <= j < idx.len() && #[trigger] idx[j] == i
}

proof fn lemma_at_generation<K: View, V>(es: Seq<Entry<K, V>>, i: int)
    requires
        distinct_entries(es),
        0 <= i < es.len(),
    ensures
        live(es, es[i].generation),
        at_generation(es, es[i].generation) == slot(es[i]),
{
    let g = es[i].generation;
    let k = choose|k: int| 0 <= k < es.len() && (#[trigger] es[k]).generation == g;
    if k < i {
        assert(es[k].generation != es[i].generation);
    } else if i < k {
        assert(es[i].generation != es[k].generation);
    }
}

proof fn lemma_recency_push<K: View, V>(order: Seq<u64>, es: Seq<Entry<K, V>>, g: u64)
    ensures
        recency(order.push(g), es) == if live(es, g) {
            recency(order, es).push(at_generation(es, g))
        } else {
            recency(order, es)
        },
    decreases order.len(),
{
    if order.len() == 0 {
        assert(order.push(g).drop_first() =~= order);
        assert(recency(order.push(g), es) =~= if live(es, g) {
            recency(order, es).push(at_generation(es, g))
        } else {
            recency(order, es)
        });
    } else {
        assert(order.push(g).drop_first() =~= order.drop_first().push(g));
        lemma_recency_push(order.drop_first(), es, g);
        assert(recency(order.push(g), es) =~= if live(es, g) {
            recency(order, es).push(at_generation(es, g))
        } else {
            recency(order, es)
        });
    }
}

/// Dropping generation `g0` from the entries drops its slot, and no other.
proof fn lemma_recency_without<K: View, V>(
    order: Seq<u64>,
    es: Seq<Entry<K, V>>,
    es2: Seq<Entry<K, V>>,
    i0: int,
)
    requires
        distinct_entries(es),
        0 <= i0 < es.len(),
        forall|p: int|
            #![trigger order[p]]
            0 <= p < order.len() ==> {
                &&& live(es2, order[p]) == (live(es, order[p]) && order[p] != es[i0].generation)
                &&& live(es2, order[p]) ==> at_generation(es2, order[p]) == at_generation(
                    es,
                    order[p],
                )
            },
    ensures
        recency(order, es2) == forget(recency(order, es), es[i0].key@),
    decreases order.len(),
{
    if order.len() > 0 {
        let g = order[0];
        let rest = order.drop_first();
        assert forall|p: int| #![trigger rest[p]] 0 <= p < rest.len() implies {
            &&& live(es2, rest[p]) == (live(es, rest[p]) && rest[p] != es[i0].generation)
            &&& live(es2, rest[p]) ==> at_generation(es2, rest[p]) == at_generation(es, rest[p])
        } by {
            assert(rest[p] == order[p + 1]);
        }
        lemma_recency_without(rest, es, es2, i0);
        if live(es, g) {
            let i = choose|i: int| 0 <= i < es.len() && (#[trigger] es[i]).generation == g;
            lemma_at_generation(es, i);
            let whole = recency(order, es);
            assert(whole.drop_first() =~= recency(rest, es));
            assert(whole[0] == slot(es[i]));
            if i < i0 {
                assert(es[i].key@ != es[i0].key@);
            } else if i0 < i {
                assert(es[i0].key@ != es[i].key@);
            }
        }
    }
}

/// Two tables that agree on the queue's generations give the same list.
proof fn lemma_recency_frame<K: View, V>(
    order: Seq<u64>,
    es: Seq<Entry<K, V>>,
    es2: Seq<Entry<K, V>>,
)
    requires
        forall|p: int|
            #![trigger order[p]]
            0 <= p < order.len() ==> {
                &&& live(es2, order[p]) == live(es, order[p])
                &&& live(es2, order[p]) ==> at_generation(es2, order[p]) == at_generation(
                    es,
                    order[p],
                )
            },
    ensures
        recency(order, es2) == recency(order, es),
    decreases order.len(),
{
    if order.len() > 0 {
        let rest = order.drop_first();
        assert forall|p: int| #![trigger rest[p]] 0 <= p < rest.len() implies {
            &&& live(es2, rest[p]) == live(es, rest[p])
            &&& live(es2, rest[p]) ==> at_generation(es2, rest[p]) == at_generation(es, rest[p])
        } by {
            assert(rest[p] == order[p + 1]);
        }
        lemma_recency_frame(rest, es, es2);
    }
}

/// Every listed slot is an entry's.
proof fn lemma_recency_member<K: View, V>(order: Seq<u64>, es: Seq<Entry<K, V>>, j: int)
    requires
        0 <= j < recency(order, es).len(),
    ensures
        exists|i: int| 0 <= i < es.len() && recency(order, es)[j] == slot(#[trigger] es[i])
            && order.contains(es[i].generation),
    decreases order.len(),
{
    if order.len() > 0 {
        let rest = order.drop_first();
        let tail = recency(rest, es);
        if live(es, order[0]) {
            if j == 0 {
                let i = choose|i: int|
                    0 <= i < es.len() && (#[trigger] es[i]).generation == order[0];
                assert(recency(order, es)[0] == slot(es[i]));
                assert(order.contains(es[i].generation));
            } else {
                lemma_recency_member(rest, es, j - 1);
                let i = choose|i: int|
                    0 <= i < es.len() && tail[j - 1] == slot(#[trigger] es[i]) && rest.contains(
                        es[i].generation,
                    );
                let p = choose|p: int| 0 <= p < rest.len() && rest[p] == es[i].generation;
                assert(order[p + 1] == es[i].generation);
                assert(recency(order, es)[j] == slot(es[i]));
            }
        } else {
            lemma_recency_member(rest, es, j);
            let i = choose|i: int|
                0 <= i < es.len() && tail[j] == slot(#[trigger] es[i]) && rest.contains(
                    es[i].generation,
                );
            let p = choose|p: int| 0 <= p < rest.len() && rest[p] == es[i].generation;
            assert(order[p + 1] == es[i].generation);
        }
    }
}

/// Every queued entry is listed.
proof fn lemma_recency_covers<K: View, V>(order: Seq<u64>, es: Seq<Entry<K, V>>, i: int) -> (j: int)
    requires
        distinct_entries(es),
        0 <= i < es.len(),
        order.contains(es[i].generation),
    ensures
        0 <= j < recency(order, es).len(),
        recency(order, es)[j] == slot(es[i]),
    decreases order.len(),
{
    lemma_at_generation(es, i);
    if order[0] == es[i].generation {
        0
    } else {
        let rest = order.drop_first();
        let p = choose|p: int| 0 <= p < order.len() && order[p] == es[i].generation;
        assert(rest[p - 1] == es[i].generation);
        let k = lemma_recency_covers(rest, es, i);
        if live(es, order[0]) {
            k + 1
        } else {
            k
        }
    }
}

proof fn lemma_recency_distinct<K: View, V>(order: Seq<u64>, es: Seq<Entry<K, V>>)
    requires
        distinct_entries(es),
        increasing(order),
    ensures
        distinct_keys(recency(order, es)),
        recency(order, es).len() <= order.len(),
    decreases order.len(),
{
    if order.len() > 0 {
        let rest = order.drop_first();
        lemma_recency_distinct(rest, es);
        let s = recency(order, es);
        if live(es, order[0]) {
            let tail = recency(rest, es);
            assert forall|a: int, b: int| 0 <= a < b < s.len() implies (#[trigger] s[a]).key != (
            #[trigger] s[b]).key by {
                if a == 0 {
                    let i = choose|i: int|
                        0 <= i < es.len() && (#[trigger] es[i]).generation == order[0];
                    assert(s[0] == slot(es[i]));
                    lemma_recency_member(rest, es, b - 1);
                    let k = choose|k: int|
                        0 <= k < es.len() && tail[b - 1] == slot(#[trigger] es[k])
                            && rest.contains(es[k].generation);
                    let p = choose|p: int| 0 <= p < rest.len() && rest[p] == es[k].generation;
                    assert(order[p + 1] > order[0]);
                    if i < k {
                        assert(es[i].key@ != es[k].key@);
                    } else if k < i {
                        assert(es[k].key@ != es[i].key@);
                    }
                } else {
                    assert(tail[a - 1].key != tail[b - 1].key);
                }
            }
        }
    }
}

/// A queue that lists entries by index lists their slots.
proof fn lemma_recency_of_indices<K: View, V>(
    order: Seq<u64>,
    es: Seq<Entry<K, V>>,
    idx: Seq<usize>,
)
    requires
        distinct_entries(es),
        order.len() == idx.len(),
        forall|j: int|
            #![trigger idx[j]]
            0 <= j < idx.len() ==> idx[j] < es.len() && order[j] == es[idx[j] as int].generation,
    ensures
        recency(order, es) == Seq::new(idx.len(), |j: int| slot(es[idx[j] as int])),
    decreases order.len(),
{
    let want = Seq::new(idx.len(), |j: int| slot(es[idx[j] as int]));
    if order.len() > 0 {
        let rest = idx.drop_first();
        assert forall|j: int| #![trigger rest[j]] 0 <= j < rest.len() implies rest[j] < es.len()
            && order.drop_first()[j] == es[rest[j] as int].generation by {
            assert(rest[j] == idx[j + 1]);
        }
        lemma_recency_of_indices(order.drop_first(), es, rest);
        lemma_at_generation(es, idx[0] as int);
        assert(recency(order, es) =~= want);
    } else {
        assert(recency(order, es) =~= want);
    }
}

proof fn lemma_total_nonneg<KV, V>(s: Seq<Slot<KV, V>>)
    requires
        forall|i: int| 0 <= i < s.len() ==> (#[trigger] s[i]).bytes >= 0,
    ensures
        total(s) >= 0,
    decreases s.len(),
{
    if s.len() > 0 {
        lemma_total_nonneg(s.drop_first());
    }
}

proof fn lemma_total_push<KV, V>(s: Seq<Slot<KV, V>>, x: Slot<KV, V>)
    ensures
        total(s.push(x)) == total(s) + x.bytes,
    decreases s.len(),
{
    if s.len() > 0 {
        assert(s.push(x).drop_first() =~= s.drop_first().push(x));
        lemma_total_push(s.drop_first(), x);
    } else {
        assert(s.push(x).drop_first() =~= s);
    }
}

proof fn lemma_forget_absent<KV, V>(s: Seq<Slot<KV, V>>, k: KV)
    requires
        !has_key(s, k),
    ensures
        forget(s, k) == s,
    decreases s.len(),
{
    if s.len() > 0 {
        let rest = s.drop_first();
        assert(s[0].key != k);
        assert forall|i: int| 0 <= i < rest.len() implies (#[trigger] rest[i]).key != k by {
            assert(rest[i] == s[i + 1]);
        }
        lemma_forget_absent(rest, k);
        assert(seq![s[0]] + rest =~= s);
    }
}

/// What stays after a removal: the same slots in the same order, less the one under `k`.
proof fn lemma_forget<KV, V>(s: Seq<Slot<KV, V>>, k: KV)
    requires
        distinct_keys(s),
    ensures
        !has_key(forget(s, k), k),
        distinct_keys(forget(s, k)),
        forall|j: int|
            0 <= j < forget(s, k).len() ==> exists|i: int|
                0 <= i < s.len() && #[trigger] s[i] == #[trigger] forget(s, k)[j],
        has_key(s, k) ==> forget(s, k).len() == s.len() - 1,
        has_key(s, k) ==> total(forget(s, k)) == total(s) - slot_of(s, k).bytes,
        !has_key(s, k) ==> forget(s, k) == s,
    decreases s.len(),
{
    if s.len() > 0 {
        let rest = s.drop_first();
        assert(distinct_keys(rest)) by {
            assert forall|i: int, j: int| 0 <= i < j < rest.len() implies (#[trigger] rest[i]).key
                != (#[trigger] rest[j]).key by {
                assert(s[i + 1].key != s[j + 1].key);
            }
        }
        lemma_forget(rest, k);
        let f = forget(s, k);
        let fr = forget(rest, k);
        if s[0].key == k {
            assert forall|i: int| 0 <= i < rest.len() implies (#[trigger] rest[i]).key != k by {
                assert(rest[i] == s[i + 1]);
            }
            assert(!has_key(rest, k));
            let c = choose|i: int| 0 <= i < s.len() && (#[trigger] s[i]).key == k;
            if c > 0 {
                assert(s[0].key != s[c].key);
            }
            assert(slot_of(s, k) == s[0]);
            assert forall|j: int| 0 <= j < f.len() implies exists|i: int|
                0 <= i < s.len() && #[trigger] s[i] == #[trigger] f[j] by {
                assert(f[j] == s[j + 1]);
            }
        } else {
            assert(f.drop_first() =~= fr);
            assert forall|j: int| 0 <= j < f.len() implies exists|i: int|
                0 <= i < s.len() && #[trigger] s[i] == #[trigger] f[j] by {
                if j == 0 {
                    assert(s[0] == f[0]);
                } else {
                    assert(f[j] == fr[j - 1]);
                    let i = choose|i: int| 0 <= i < rest.len() && #[trigger] rest[i] == fr[j - 1];
                    assert(s[i + 1] == f[j]);
                }
            }
            assert forall|a: int, b: int| 0 <= a < b < f.len() implies (#[trigger] f[a]).key != (
            #[trigger] f[b]).key by {
                if a == 0 {
                    let i = choose|i: int| 0 <= i < rest.len() && #[trigger] rest[i] == fr[b - 1];
                    assert(s[0].key != s[i + 1].key);
                } else {
                    assert(fr[a - 1].key != fr[b - 1].key);
                }
            }
            assert(!has_key(f, k)) by {
                assert forall|i: int| 0 <= i < f.len() implies (#[trigger] f[i]).key != k by {
                    if i > 0 {
                        assert(f[i] == fr[i - 1]);
                    }
                }
            }
            if has_key(s, k) {
                let c = choose|i: int| 0 <= i < s.len() && (#[trigger] s[i]).key == k;
                assert(rest[c - 1].key == k);
                let d = choose|i: int| 0 <= i < rest.len() && (#[trigger] rest[i]).key == k;
                if c - 1 < d {
                    assert(rest[c - 1].key != rest[d].key);
                } else if d < c - 1 {
                    assert(rest[d].key != rest[c - 1].key);
                }
                assert(slot_of(s, k) == slot_of(rest, k));
            } else {
                lemma_forget_absent(s, k);
            }
        }
    }
}

proof fn lemma_forget_last<KV, V>(s: Seq<Slot<KV, V>>)
    requires
        distinct_keys(s),
        s.len() > 0,
    ensures
        forget(s, s.last().key) == s.drop_last(),
    decreases s.len(),
{
    let k = s.last().key;
    if s.len() == 1 {
        assert(forget(s.drop_first(), k) =~= s.drop_last());
    } else {
        let rest = s.drop_first();
        assert(s[0].key != s[s.len() - 1].key);
        assert forall|i: int, j: int| 0 <= i < j < rest.len() implies (#[trigger] rest[i]).key != (
        #[trigger] rest[j]).key by {
            assert(s[i + 1].key != s[j + 1].key);
        }
        lemma_forget_last(rest);
        assert(seq![s[0]] + rest.drop_last() =~= s.drop_last());
    }
}

proof fn lemma_slot_at<KV, V>(s: Seq<Slot<KV, V>>, i: int)
    requires
        distinct_keys(s),
        0 <= i < s.len(),
    ensures
        has_key(s, s[i].key),
        slot_of(s, s[i].key) == s[i],
{
    let c = choose|c: int| 0 <= c < s.len() && (#[trigger] s[c]).key == s[i].key;
    if c < i {
        assert(s[c].key != s[i].key);
    } else if i < c {
        assert(s[i].key != s[c].key);
    }
}

/// Eviction ends within both budgets and keeps the accounting.
proof fn lemma_evict<KV, V>(c: Lru<KV, V>)
    requires
        distinct_keys(c.slots),
        0 <= c.max_bytes <= usize::MAX,
        0 <= c.max_entries,
        0 <= c.bytes <= usize::MAX,
        c.bytes <= total(c.slots),
        2 * c.max_bytes <= usize::MAX ==> c.bytes == total(c.slots),
        forall|i: int| 0 <= i < c.slots.len() ==> (#[trigger] c.slots[i]).bytes >= 0,
    ensures
        c.evict().valid(),
        c.evict().max_bytes == c.max_bytes,
        c.evict().max_entries == c.max_entries,
    decreases c.slots.len(),
{
    if c.over_budget() && c.slots.len() > 0 {
        let rest = c.slots.drop_first();
        let d = Lru { slots: rest, bytes: sat_minus(c.bytes, c.slots[0].bytes), ..c };
        assert forall|i: int, j: int| 0 <= i < j < rest.len() implies (#[trigger] rest[i]).key != (
        #[trigger] rest[j]).key by {
            assert(c.slots[i + 1].key != c.slots[j + 1].key);
        }
        assert forall|i: int| 0 <= i < rest.len() implies (#[trigger] rest[i]).bytes >= 0 by {
            assert(rest[i] == c.slots[i + 1]);
        }
        assert(c.slots[0].bytes >= 0);
        lemma_total_nonneg(rest);
        lemma_evict(d);
    }
}

proof fn lemma_push_distinct<KV, V>(s: Seq<Slot<KV, V>>, x: Slot<KV, V>)
    requires
        distinct_keys(s),
        !has_key(s, x.key),
    ensures
        distinct_keys(s.push(x)),
{
}

proof fn lemma_remove_valid<KV, V>(c: Lru<KV, V>, k: KV)
    requires
        c.valid(),
    ensures
        c.remove(k).valid(),
        !has_key(c.remove(k).slots, k),
{
    lemma_forget(c.slots, k);
    let after = c.remove(k).slots;
    assert forall|j: int| 0 <= j < after.len() implies (#[trigger] after[j]).bytes >= 0 by {
        if has_key(c.slots, k) {
            let m = choose|m: int| 0 <= m < c.slots.len() && #[trigger] c.slots[m] == after[j];
            assert(c.slots[m].bytes >= 0);
        }
    }
    lemma_total_nonneg(after);
    if has_key(c.slots, k) {
        let i = choose|i: int| 0 <= i < c.slots.len() && (#[trigger] c.slots[i]).key == k;
        assert(slot_of(c.slots, k).bytes >= 0);
    }
}

proof fn lemma_touch_valid<KV, V>(c: Lru<KV, V>, k: KV)
    requires
        c.valid(),
    ensures
        c.touch(k).valid(),
{
    if has_key(c.slots, k) {
        lemma_remove_valid(c, k);
        lemma_forget(c.slots, k);
        let x = slot_of(c.slots, k);
        assert(x.key == k && x.bytes >= 0);
        lemma_total_push(forget(c.slots, k), x);
        lemma_push_distinct(forget(c.slots, k), x);
    }
}

impl<K: View, V> View for ByteLru<K, V> {
    type V = Lru<K::V, V>;

    closed spec fn view(&self) -> Lru<K::V, V> {
        Lru {
            slots: recency(self.order@, self.entries@),
            bytes: self.bytes as int,
            max_bytes: self.max_bytes as int,
            max_entries: self.max_entries as int,
        }
    }
}

impl<K: CacheKey, V> ByteLru<K, V> {
    /// The table and the queue agree.
    spec fn linked(&self) -> bool {
        &&& distinct_entries(self.entries@)
        &&& increasing(self.order@)
        &&& forall|i: int|
            0 <= i < self.entries@.len() ==> self.order@.contains(
                (#[trigger] self.entries@[i]).generation,
            )
        &&& forall|p: int| 0 <= p < self.order@.len() ==> #[trigger] self.order@[p]
            <= self.generation
        &&& recency(self.order@, self.entries@).len() == self.entries@.len()
        &&& self.max_entries < usize::MAX
        &&& self.filed()
    }

    /// Every entry is listed under the hash of its key and under its generation.
    spec fn filed(&self) -> bool {
        &&& forall|n: u64, p: int| #[trigger]
            self.keys.has(n, p) == (0 <= p < self.entries@.len() && K::hashed(
                self.entries@[p].key@,
            ) == n)
        &&& forall|n: u64, p: int| #[trigger]
            self.generations.has(n, p) == (0 <= p < self.entries@.len()
                && self.entries@[p].generation == n)
    }

    /// What holds of a cache between calls.
    pub closed spec fn wf(&self) -> bool {
        &&& self.linked()
        &&& self@.valid()
    }

    /// Every well-formed cache is within its budgets and accounts for what it holds.
    pub proof fn law_caches_stay_within_budget(&self)
        requires
            self.wf(),
        ensures
            self@.valid(),
    {
    }

    /// An empty cache with the two budgets. No memory holds as many entries as the largest machine
    /// size, so that limit stands for the one below it.
    pub fn new(max_bytes: usize, max_entries: usize) -> (r: Self)
        ensures
            r.wf(),
            r@ == (Lru {
                slots: Seq::<Slot<K::V, V>>::empty(),
                bytes: 0,
                max_bytes: max_bytes as int,
                max_entries: entry_limit(max_entries),
            }),
    {
        let max_entries: usize = if max_entries == usize::MAX {
            usize::MAX - 1
        } else {
            max_entries
        };
        let r = ByteLru {
            entries: Vec::new(),
            keys: Places::new(),
            generations: Places::new(),
            order: VecDeque::new(),
            bytes: 0,
            max_bytes,
            max_entries,
            generation: 0,
        };
        assert(recency(r.order@, r.entries@) =~= Seq::<Slot<K::V, V>>::empty());
        r
    }

    fn find(&self, key: &K) -> (r: Option<usize>)
        requires
            self.filed(),
        ensures
            match r {
                Some(i) => i < self.entries@.len() && self.entries@[i as int].key@ == key@,
                None => forall|i: int|
                    0 <= i < self.entries@.len() ==> (#[trigger] self.entries@[i]).key@ != key@,
            },
    {
        let hash: u64 = key.hash_key();
        if let Some(places) = self.keys.under(hash) {
            let mut j: usize = 0;
            while j < places.len()
                invariant
                    self.filed(),
                    j <= places@.len(),
                    forall|p: int| #[trigger] self.keys.has(hash, p) == stands_in(places@, p),
                    forall|k: int|
                        0 <= k < j ==> self.entries@[#[trigger] places@[k] as int].key@ != key@,
                decreases places@.len() - j,
            {
                let i: usize = places[j];
                assert(stands_in(places@, i as int));
                assert(self.keys.has(hash, i as int));
                if self.entries[i].key.same_key(key) {
                    return Some(i);
                }
                j += 1;
            }
            assert forall|i: int| 0 <= i < self.entries@.len() implies (
            #[trigger] self.entries@[i]).key@ != key@ by {
                if self.entries@[i].key@ == key@ {
                    assert(self.keys.has(hash, i));
                    assert(stands_in(places@, i));
                }
            }
        } else {
            assert forall|i: int| 0 <= i < self.entries@.len() implies (
            #[trigger] self.entries@[i]).key@ != key@ by {
                assert(!self.keys.has(hash, i));
            }
        }
        None
    }

    fn find_generation(&self, generation: u64) -> (r: Option<usize>)
        requires
            self.filed(),
        ensures
            match r {
                Some(i) => i < self.entries@.len() && self.entries@[i as int].generation
                    == generation,
                None => !live(self.entries@, generation),
            },
    {
        if let Some(places) = self.generations.under(generation) {
            if places.len() > 0 {
                let i: usize = places[0];
                assert(stands_in(places@, i as int));
                assert(self.generations.has(generation, i as int));
                return Some(i);
            }
        }
        assert forall|i: int| 0 <= i < self.entries@.len() implies (
        #[trigger] self.entries@[i]).generation != generation by {
            assert(!self.generations.has(generation, i));
        }
        None
    }

    /// Gives entry `i` another generation.
    fn set_generation(&mut self, i: usize, generation: u64)
        requires
            old(self).filed(),
            i < old(self).entries@.len(),
        ensures
            final(self).filed(),
            final(self).entries@ == old(self).entries@.update(
                i as int,
                Entry { generation, ..old(self).entries@[i as int] },
            ),
            final(self).order == old(self).order,
            final(self).bytes == old(self).bytes,
            final(self).max_bytes == old(self).max_bytes,
            final(self).max_entries == old(self).max_entries,
            final(self).generation == old(self).generation,
    {
        let ghost es = self.entries@;
        let was: u64 = self.entries[i].generation;
        self.generations.delist(was, i);
        self.generations.enlist(generation, i);
        self.entries[i].generation = generation;
        assert(self.entries@ =~= es.update(i as int, Entry { generation, ..es[i as int] }));
    }

    /// The indices of the live entries, the least recently used first.
    fn live_indices(&self) -> (r: Vec<usize>)
        requires
            self.linked(),
        ensures
            forall|j: int|
                #![trigger r@[j]]
                0 <= j < r@.len() ==> r@[j] < self.entries@.len(),
            forall|j: int, k: int|
                0 <= j < k < r@.len() ==> self.entries@[r@[j] as int].generation
                    < self.entries@[r@[k] as int].generation,
            forall|i: int| 0 <= i < self.entries@.len() ==> #[trigger] lists(r@, i),
            recency(self.order@, self.entries@) == Seq::new(
                r@.len(),
                |j: int| slot(self.entries@[r@[j] as int]),
            ),
    {
        let mut out: Vec<usize> = Vec::new();
        let mut p: usize = 0;
        let ghost es = self.entries@;
        let ghost order = self.order@;
        assert(recency(order.subrange(0, 0), es) =~= Seq::new(
            0,
            |j: int| slot(es[out@[j] as int]),
        ));
        while p < self.order.len()
            invariant
                p <= order.len(),
                self.filed(),
                es == self.entries@,
                order == self.order@,
                distinct_entries(es),
                increasing(order),
                forall|j: int| #![trigger out@[j]] 0 <= j < out@.len() ==> out@[j] < es.len(),
                forall|j: int, q: int|
                    #![trigger out@[j], order[q]]
                    0 <= j < out@.len() && p <= q < order.len() ==> es[out@[j] as int].generation
                        < order[q],
                forall|j: int, k: int|
                    0 <= j < k < out@.len() ==> es[out@[j] as int].generation
                        < es[out@[k] as int].generation,
                recency(order.subrange(0, p as int), es) == Seq::new(
                    out@.len(),
                    |j: int| slot(es[out@[j] as int]),
                ),
            decreases order.len() - p,
        {
            let g: u64 = self.order[p];
            let ghost before = out@;
            assert(order.subrange(0, p + 1) =~= order.subrange(0, p as int).push(g));
            proof {
                lemma_recency_push(order.subrange(0, p as int), es, g);
            }
            match self.find_generation(g) {
                Some(i) => {
                    proof {
                        lemma_at_generation(es, i as int);
                    }
                    out.push(i);
                    assert(forall|j: int| 0 <= j < before.len() ==> out@[j] == before[j]);
                    assert(g == order[p as int]);
                    assert(Seq::new(before.len(), |j: int| slot(es[before[j] as int])).push(
                        slot(es[i as int]),
                    ) =~= Seq::new(out@.len(), |j: int| slot(es[out@[j] as int])));
                },
                None => {},
            }
            p += 1;
        }
        assert(order.subrange(0, p as int) =~= order);
        assert forall|i: int| 0 <= i < es.len() implies #[trigger] lists(out@, i) by {
            let j = lemma_recency_covers(order, es, i);
            let k = out@[j] as int;
            assert(slot(es[k]).key == slot(es[i]).key);
            if k < i {
                assert(es[k].key@ != es[i].key@);
            } else if i < k {
                assert(es[i].key@ != es[k].key@);
            }
        }
        out
    }

    /// Sweeps the stale generations out of the queue.
    fn rebuild_order(&mut self)
        requires
            old(self).linked(),
        ensures
            final(self).linked(),
            final(self)@ == old(self)@,
            final(self).order@.len() == final(self).entries@.len(),
            final(self).generation == old(self).generation,
    {
        let idx = self.live_indices();
        let ghost es = self.entries@;
        let mut fresh: VecDeque<u64> = VecDeque::new();
        let mut j: usize = 0;
        while j < idx.len()
            invariant
                j <= idx@.len(),
                *self == *old(self),
                es == self.entries@,
                forall|k: int| #![trigger idx@[k]] 0 <= k < idx@.len() ==> idx@[k] < es.len(),
                fresh@.len() == j,
                forall|k: int| 0 <= k < j ==> #[trigger] fresh@[k] == es[idx@[k] as int].generation,
            decreases idx@.len() - j,
        {
            fresh.push_back(self.entries[idx[j]].generation);
            j += 1;
        }
        proof {
            lemma_recency_of_indices(fresh@, es, idx@);
            assert forall|i: int| 0 <= i < es.len() implies fresh@.contains(
                (#[trigger] es[i]).generation,
            ) by {
                assert(lists(idx@, i));
                let k = choose|k: int| 0 <= k < idx@.len() && #[trigger] idx@[k] == i;
                assert(fresh@[k] == es[i].generation);
            }
            assert forall|q: int| 0 <= q < fresh@.len() implies #[trigger] fresh@[q]
                <= self.generation by {
                let i = idx@[q] as int;
                assert(self.order@.contains(es[i].generation));
            }
        }
        self.order = fresh;
    }

    fn compact_order_if_needed(&mut self)
        requires
            old(self).linked(),
        ensures
            final(self).linked(),
            final(self)@ == old(self)@,
    {
        let limit: usize = match self.entries.len().checked_mul(4) {
            Some(n) => n.saturating_add(64),
            None => usize::MAX,
        };
        if self.order.len() > limit {
            self.rebuild_order();
        }
    }

    /// Numbers the entries anew from one, the least recently used first.
    fn renumber_generations(&mut self)
        requires
            old(self).linked(),
            old(self).entries@.len() < usize::MAX,
        ensures
            final(self).linked(),
            final(self)@ == old(self)@,
            final(self).generation == final(self).entries@.len(),
            final(self).entries@.len() == old(self).entries@.len(),
            forall|i: int, j: int|
                0 <= i < final(self).entries@.len() && 0 <= j < final(self).entries@.len() ==> (
                (#[trigger] final(self).entries@[i]).generation < (
                #[trigger] final(self).entries@[j]).generation) == (old(self).entries@[i].generation
                    < old(self).entries@[j].generation),
            forall|i: int|
                0 <= i < final(self).entries@.len() ==> slot(#[trigger] final(self).entries@[i])
                    == slot(old(self).entries@[i]),
    {
        let idx = self.live_indices();
        let ghost es0 = self.entries@;
        self.order.clear();
        let mut j: usize = 0;
        while j < idx.len()
            invariant
                j <= idx@.len(),
                es0 == old(self).entries@,
                distinct_entries(es0),
                self.entries@.len() == es0.len(),
                self.bytes == old(self).bytes,
                self.max_bytes == old(self).max_bytes,
                self.max_entries == old(self).max_entries,
                self.filed(),
                idx@.len() == es0.len(),
                es0.len() < usize::MAX,
                forall|k: int| #![trigger idx@[k]] 0 <= k < idx@.len() ==> idx@[k] < es0.len(),
                forall|k: int, m: int|
                    0 <= k < m < idx@.len() ==> es0[idx@[k] as int].generation
                        < es0[idx@[m] as int].generation,
                forall|i: int|
                    0 <= i < es0.len() ==> slot(#[trigger] self.entries@[i]) == slot(es0[i]),
                self.order@.len() == j,
                forall|k: int| 0 <= k < j ==> #[trigger] self.order@[k] == k + 1,
                forall|k: int|
                    #![trigger idx@[k]]
                    0 <= k < j ==> self.entries@[idx@[k] as int].generation == k + 1,
            decreases idx@.len() - j,
        {
            let generation: u64 = j as u64 + 1;
            let i: usize = idx[j];
            let ghost before = self.entries@;
            self.set_generation(i, generation);
            self.order.push_back(generation);
            assert forall|k: int| #![trigger idx@[k]] 0 <= k < j implies self.entries@[idx@[k] as int].generation
                == k + 1 by {
                assert(es0[idx@[k] as int].generation < es0[idx@[j as int] as int].generation);
                assert(idx@[k] != i);
                assert(self.entries@[idx@[k] as int] == before[idx@[k] as int]);
            }
            assert forall|m: int| 0 <= m < es0.len() implies slot(#[trigger] self.entries@[m])
                == slot(es0[m]) by {
                assert(slot(before[m]) == slot(es0[m]));
            }
            j += 1;
        }
        self.generation = self.entries.len() as u64;
        proof {
            let es = self.entries@;
            assert forall|a: int, b: int| 0 <= a < b < es.len() implies (#[trigger] es[a]).key@ != (
            #[trigger] es[b]).key@ && es[a].generation != es[b].generation by {
                assert(slot(es[a]) == slot(es0[a]) && slot(es[b]) == slot(es0[b]));
                assert(es0[a].key@ != es0[b].key@);
                assert(lists(idx@, a));
                assert(lists(idx@, b));
                let k = choose|k: int| 0 <= k < idx@.len() && #[trigger] idx@[k] == a;
                let m = choose|m: int| 0 <= m < idx@.len() && #[trigger] idx@[m] == b;
                assert(es[idx@[k] as int].generation == k + 1);
                assert(es[idx@[m] as int].generation == m + 1);
            }
            assert(distinct_entries(es));
            assert forall|a: int, b: int| 0 <= a < es.len() && 0 <= b < es.len() implies ((
            #[trigger] es[a]).generation < (#[trigger] es[b]).generation) == (es0[a].generation
                < es0[b].generation) by {
                assert(lists(idx@, a));
                assert(lists(idx@, b));
                let k = choose|k: int| 0 <= k < idx@.len() && #[trigger] idx@[k] == a;
                let m = choose|m: int| 0 <= m < idx@.len() && #[trigger] idx@[m] == b;
                assert(es[idx@[k] as int].generation == k + 1);
                assert(es[idx@[m] as int].generation == m + 1);
                if m < k {
                    assert(es0[idx@[m] as int].generation < es0[idx@[k] as int].generation);
                }
            }
            assert forall|k: int| #![trigger idx@[k]] 0 <= k < idx@.len() implies idx@[k] < es.len()
                && self.order@[k] == es[idx@[k] as int].generation by {}
            lemma_recency_of_indices(self.order@, es, idx@);
            assert(Seq::new(idx@.len(), |k: int| slot(es[idx@[k] as int])) =~= Seq::new(
                idx@.len(),
                |k: int| slot(es0[idx@[k] as int]),
            ));
            assert forall|i: int| 0 <= i < es.len() implies self.order@.contains(
                (#[trigger] es[i]).generation,
            ) by {
                assert(lists(idx@, i));
                let k = choose|k: int| 0 <= k < idx@.len() && #[trigger] idx@[k] == i;
                assert(self.order@[k] == es[i].generation);
            }
        }
    }

    /// The newest generation.
    pub closed spec fn newest(&self) -> u64 {
        self.generation
    }

    /// The generation of the entry under a key.
    pub closed spec fn generation_of(&self, k: K::V) -> u64 {
        let i = choose|i: int| 0 <= i < self.entries@.len() && (#[trigger] self.entries@[i]).key@ == k;
        self.entries@[i].generation
    }

    /// The same entries in the same order of generations, all of them older than `r`.
    pub closed spec fn follows(&self, before: &Self, r: u64) -> bool {
        &&& forall|p: int| 0 <= p < self.order@.len() ==> #[trigger] self.order@[p] < r
        &&& forall|i: int|
            0 <= i < self.entries@.len() ==> (#[trigger] self.entries@[i]).generation < r
        &&& forall|i: int, j: int|
            0 <= i < self.entries@.len() && 0 <= j < self.entries@.len() ==> ((
            #[trigger] self.entries@[i]).generation < (#[trigger] self.entries@[j]).generation) == (
            before.entries@[i].generation < before.entries@[j].generation)
        &&& self.entries@.len() == before.entries@.len()
        &&& forall|i: int|
            0 <= i < self.entries@.len() ==> slot(#[trigger] self.entries@[i]) == slot(
                before.entries@[i],
            )
    }

    /// The entry that a listed slot belongs to.
    proof fn lemma_entry_of(&self, k: K::V) -> (i: int)
        requires
            self.linked(),
            has_key(self@.slots, k),
        ensures
            0 <= i < self.entries@.len(),
            self.entries@[i].key@ == k,
            self.generation_of(k) == self.entries@[i].generation,
    {
        let j = choose|j: int| 0 <= j < self@.slots.len() && (#[trigger] self@.slots[j]).key == k;
        lemma_recency_member(self.order@, self.entries@, j);
        let m = choose|m: int|
            0 <= m < self.entries@.len() && self@.slots[j] == slot(#[trigger] self.entries@[m])
                && self.order@.contains(self.entries@[m].generation);
        assert(self.entries@[m].key@ == k);
        let i = choose|i: int| 0 <= i < self.entries@.len() && (#[trigger] self.entries@[i]).key@ == k;
        if i < m {
            assert(self.entries@[i].key@ != self.entries@[m].key@);
        } else if m < i {
            assert(self.entries@[m].key@ != self.entries@[i].key@);
        }
        i
    }

    /// A generation newer than every one in use. The newest of all generations is followed by
    /// numbering the entries anew, in the same order.
    pub fn next_generation(&mut self) -> (r: u64)
        requires
            old(self).wf(),
        ensures
            final(self).wf(),
            final(self)@ == old(self)@,
            r == final(self).newest(),
            forall|k: K::V|
                has_key(final(self)@.slots, k) ==> #[trigger] final(self).generation_of(k) < r,
            forall|k: K::V, m: K::V|
                has_key(final(self)@.slots, k) && has_key(final(self)@.slots, m) ==> (
                #[trigger] final(self).generation_of(k) < #[trigger] final(self).generation_of(m))
                    == (old(self).generation_of(k) < old(self).generation_of(m)),
            final(self).follows(old(self), r),
    {
        if self.generation == u64::MAX {
            self.renumber_generations();
        }
        assert forall|i: int| 0 <= i < self.entries@.len() implies (
        #[trigger] self.entries@[i]).generation <= self.generation by {
            let g = self.entries@[i].generation;
            assert(self.order@.contains(g));
            let p = choose|p: int| 0 <= p < self.order@.len() && self.order@[p] == g;
            assert(self.order@[p] <= self.generation);
        }
        self.generation += 1;
        proof {
            assert forall|k: K::V| has_key(self@.slots, k) implies #[trigger] self.generation_of(k)
                < self.generation by {
                let i = self.lemma_entry_of(k);
            }
            assert forall|k: K::V, m: K::V|
                has_key(self@.slots, k) && has_key(self@.slots, m) implies (
            #[trigger] self.generation_of(k) < #[trigger] self.generation_of(m)) == (old(
                self,
            ).generation_of(k) < old(self).generation_of(m)) by {
                let i = self.lemma_entry_of(k);
                let j = self.lemma_entry_of(m);
                let x = old(self).lemma_entry_of(k);
                let y = old(self).lemma_entry_of(m);
                assert(slot(self.entries@[x]) == slot(old(self).entries@[x]));
                assert(slot(self.entries@[y]) == slot(old(self).entries@[y]));
                assert(slot(self.entries@[i]) == slot(old(self).entries@[i]));
                assert(slot(self.entries@[j]) == slot(old(self).entries@[j]));
                if i < x {
                    assert(self.entries@[i].key@ != self.entries@[x].key@);
                } else if x < i {
                    assert(self.entries@[x].key@ != self.entries@[i].key@);
                }
                if j < y {
                    assert(self.entries@[j].key@ != self.entries@[y].key@);
                } else if y < j {
                    assert(self.entries@[y].key@ != self.entries@[j].key@);
                }
            }
        }
        self.generation
    }

    /// Takes entry `i` out.
    fn remove_at(&mut self, i: usize)
        requires
            old(self).linked(),
            i < old(self).entries@.len(),
        ensures
            final(self).linked(),
            final(self)@ == old(self)@.remove(old(self).entries@[i as int].key@),
            final(self).entries@.len() == old(self).entries@.len() - 1,
            final(self).order == old(self).order,
            has_key(old(self)@.slots, old(self).entries@[i as int].key@),
            !live(final(self).entries@, old(self).entries@[i as int].generation),
            final(self).max_bytes == old(self).max_bytes,
            final(self).max_entries == old(self).max_entries,
            forall|j: int| #![trigger final(self).entries@[j]]
                0 <= j < final(self).entries@.len() ==> final(self).entries@[j].key@
                    != old(self).entries@[i as int].key@,
    {
        let ghost es = self.entries@;
        let ghost order = self.order@;
        let last: usize = self.entries.len() - 1;
        let hash: u64 = self.entries[i].key.hash_key();
        let moved: u64 = self.entries[last].key.hash_key();
        let moved_generation: u64 = self.entries[last].generation;
        let entry = self.entries.swap_remove(i);
        self.keys.delist(hash, i);
        self.generations.delist(entry.generation, i);
        if i < last {
            self.keys.delist(moved, last);
            self.keys.enlist(moved, i);
            self.generations.delist(moved_generation, last);
            self.generations.enlist(moved_generation, i);
        }
        self.bytes = self.bytes.saturating_sub(entry.bytes);
        proof {
            let es2 = self.entries@;
            let n = es.len() - 1;
            // Where each remaining entry stood before.
            assert forall|j: int| 0 <= j < es2.len() implies #[trigger] es2[j] == es[if j == i {
                n
            } else {
                j
            }] by {}
            assert(distinct_entries(es2));
            assert forall|p: int| #![trigger order[p]] 0 <= p < order.len() implies {
                &&& live(es2, order[p]) == (live(es, order[p]) && order[p] != es[i as int].generation)
                &&& live(es2, order[p]) ==> at_generation(es2, order[p]) == at_generation(
                    es,
                    order[p],
                )
            } by {
                let g = order[p];
                if live(es2, g) {
                    let j = choose|j: int| 0 <= j < es2.len() && (#[trigger] es2[j]).generation == g;
                    lemma_at_generation(es2, j);
                    let m = if j == i { n } else { j };
                    lemma_at_generation(es, m);
                }
                if live(es, g) && g != es[i as int].generation {
                    let m = choose|m: int| 0 <= m < es.len() && (#[trigger] es[m]).generation == g;
                    let j = if m == n { i as int } else { m };
                    assert(es2[j] == es[m]);
                }
            }
            lemma_recency_without(order, es, es2, i as int);
            lemma_recency_distinct(order, es);
            let s = recency(order, es);
            let j = lemma_recency_covers(order, es, i as int);
            lemma_slot_at(s, j);
            lemma_forget(s, es[i as int].key@);
            assert forall|j: int| 0 <= j < es2.len() implies order.contains(
                (#[trigger] es2[j]).generation,
            ) by {
                let m = if j == i { n } else { j };
                assert(es2[j] == es[m]);
            }
        }
    }

    fn remove(&mut self, key: &K)
        requires
            old(self).wf(),
        ensures
            final(self).wf(),
            final(self)@ == old(self)@.remove(key@),
    {
        match self.find(key) {
            Some(i) => {
                proof {
                    lemma_recency_distinct(self.order@, self.entries@);
                    lemma_forget(self@.slots, key@);
                }
                let ghost before = self@.slots;
                self.remove_at(i);
                proof {
                    let after = self@.slots;
                    assert forall|j: int| 0 <= j < after.len() implies (#[trigger] after[j]).bytes
                        >= 0 by {
                        let m = choose|m: int|
                            0 <= m < before.len() && #[trigger] before[m] == after[j];
                        assert(before[m].bytes >= 0);
                    }
                    lemma_total_nonneg(after);
                }
            },
            None => {
                proof {
                    assert forall|j: int| 0 <= j < self@.slots.len() implies (
                    #[trigger] self@.slots[j]).key != key@ by {
                        lemma_recency_member(self.order@, self.entries@, j);
                    }
                }
            },
        }
    }

    fn evict_to_budget(&mut self)
        requires
            old(self).linked(),
        ensures
            final(self).linked(),
            final(self)@ == old(self)@.evict(),
    {
        while self.bytes > self.max_bytes || self.entries.len() > self.max_entries
            invariant
                self.linked(),
                self@.evict() == old(self)@.evict(),
            ensures
                self.linked(),
                self@ == old(self)@.evict(),
            decreases self.order@.len(),
        {
            let ghost now = self@;
            let ghost order = self.order@;
            if self.order.len() == 0 {
                assert(now.slots =~= Seq::empty());
                break;
            }
            let generation: u64 = self.order[0];
            match self.find_generation(generation) {
                Some(i) => {
                    proof {
                        lemma_at_generation(self.entries@, i as int);
                        lemma_recency_distinct(order, self.entries@);
                        assert(now.slots[0] == slot(self.entries@[i as int]));
                        lemma_slot_at(now.slots, 0);
                        let rest = now.slots.drop_first();
                        assert forall|j: int| 0 <= j < rest.len() implies (#[trigger] rest[j]).key
                            != now.slots[0].key by {
                            assert(rest[j] == now.slots[j + 1]);
                        }
                        lemma_forget_absent(rest, now.slots[0].key);
                    }
                    self.remove_at(i);
                },
                None => {},
            }
            let ghost es = self.entries@;
            let ghost listed = self@.slots;
            let _ = self.order.pop_front();
            proof {
                let rest = order.drop_first();
                assert(self.order@ =~= rest);
                assert(listed == recency(rest, es));
                assert forall|p: int| 0 <= p < rest.len() implies #[trigger] rest[p]
                    <= self.generation by {
                    assert(rest[p] == order[p + 1]);
                }
                assert forall|i: int| 0 <= i < es.len() implies rest.contains(
                    (#[trigger] es[i]).generation,
                ) by {
                    assert(live(es, es[i].generation));
                    let p = choose|p: int| 0 <= p < order.len() && order[p] == es[i].generation;
                    assert(rest[p - 1] == es[i].generation);
                }
            }
        }
    }

    /// The entry that carries the newest generation stands last.
    proof fn lemma_newest_is_last(&self, i: int)
        requires
            self.linked(),
            0 <= i < self.entries@.len(),
            self.entries@[i].generation == self.generation,
        ensures
            self@.slots.len() > 0,
            self@.slots.last() == slot(self.entries@[i]),
    {
        let order = self.order@;
        let es = self.entries@;
        assert(order.contains(es[i].generation));
        let p = choose|p: int| 0 <= p < order.len() && order[p] == es[i].generation;
        let last = order.len() - 1;
        if p < last {
            assert(order[p] < order[last]);
        }
        assert(order =~= order.drop_last().push(order[last]));
        lemma_at_generation(es, i);
        lemma_recency_push(order.drop_last(), es, order[last]);
    }

    /// Gives entry `i` the new generation and queues it.
    fn renew(&mut self, i: usize, generation: u64)
        requires
            old(self).linked(),
            i < old(self).entries@.len(),
            generation == old(self).generation,
            forall|p: int| 0 <= p < old(self).order@.len() ==> #[trigger] old(self).order@[p]
                < generation,
        ensures
            final(self).linked(),
            final(self)@ == old(self)@.touch(old(self).entries@[i as int].key@),
            final(self).entries@.len() == old(self).entries@.len(),
            final(self).entries@[i as int] == (Entry {
                generation,
                ..old(self).entries@[i as int]
            }),
            final(self).generation == generation,
            final(self)@.slots.last() == slot(final(self).entries@[i as int]),
            final(self).order@.len() > 0,
            final(self).order@.last() == generation,
    {
        let ghost es = self.entries@;
        let ghost order = self.order@;
        self.set_generation(i, generation);
        self.order.push_back(generation);
        proof {
            let es2 = self.entries@;
            assert forall|a: int| 0 <= a < es.len() implies (#[trigger] es[a]).generation
                < generation by {
                assert(order.contains(es[a].generation));
            }
            assert(es2 =~= es.update(i as int, es2[i as int]));
            assert(distinct_entries(es2)) by {
                assert forall|a: int, b: int| 0 <= a < b < es2.len() implies (
                #[trigger] es2[a]).key@ != (#[trigger] es2[b]).key@ && es2[a].generation
                    != es2[b].generation by {
                    assert(es[a].key@ != es[b].key@ && es[a].generation != es[b].generation);
                    assert(es[a].generation < generation && es[b].generation < generation);
                }
            }
            assert forall|p: int| #![trigger order[p]] 0 <= p < order.len() implies {
                &&& live(es2, order[p]) == (live(es, order[p]) && order[p] != es[i as int].generation)
                &&& live(es2, order[p]) ==> at_generation(es2, order[p]) == at_generation(
                    es,
                    order[p],
                )
            } by {
                let g = order[p];
                if live(es2, g) {
                    let j = choose|j: int| 0 <= j < es2.len() && (#[trigger] es2[j]).generation == g;
                    lemma_at_generation(es2, j);
                    lemma_at_generation(es, j);
                    if g == es[i as int].generation {
                        if j < i {
                            assert(es[j].generation != es[i as int].generation);
                        } else if i < j {
                            assert(es[i as int].generation != es[j].generation);
                        }
                    }
                }
                if live(es, g) && g != es[i as int].generation {
                    let j = choose|j: int| 0 <= j < es.len() && (#[trigger] es[j]).generation == g;
                    assert(es2[j] == es[j]);
                }
            }
            lemma_recency_without(order, es, es2, i as int);
            lemma_recency_push(order, es2, generation);
            lemma_at_generation(es2, i as int);
            lemma_recency_distinct(order, es);
            let j = lemma_recency_covers(order, es, i as int);
            lemma_slot_at(recency(order, es), j);
            lemma_forget(recency(order, es), es[i as int].key@);
            assert(self.order@ == order.push(generation));
            assert forall|a: int| 0 <= a < es2.len() implies self.order@.contains(
                (#[trigger] es2[a]).generation,
            ) by {
                if a == i {
                    assert(self.order@[order.len() as int] == generation);
                } else {
                    assert(es2[a] == es[a]);
                    let p = choose|p: int| 0 <= p < order.len() && order[p] == es[a].generation;
                    assert(self.order@[p] == es[a].generation);
                }
            }
            assert forall|p: int| 0 <= p < self.order@.len() implies #[trigger] self.order@[p]
                <= self.generation by {
                if p < order.len() {
                    assert(self.order@[p] == order[p]);
                }
            }
            assert forall|p: int, q: int| 0 <= p < q < self.order@.len() implies self.order@[p]
                < self.order@[q] by {
                assert(self.order@[p] == order[p]);
                if q < order.len() {
                    assert(self.order@[q] == order[q]);
                }
            }
        }
    }

    /// Replaces what the newest entry holds.
    fn put(&mut self, i: usize, value: V, bytes: usize)
        requires
            old(self).linked(),
            i < old(self).entries@.len(),
            old(self).order@.len() > 0,
            old(self).order@.last() == old(self).entries@[i as int].generation,
        ensures
            final(self).linked(),
            final(self)@ == (Lru {
                slots: old(self)@.slots.drop_last().push(
                    Slot { key: old(self).entries@[i as int].key@, value, bytes: bytes as int },
                ),
                ..old(self)@
            }),
    {
        let ghost es = self.entries@;
        let ghost order = self.order@;
        self.entries[i].value = value;
        self.entries[i].bytes = bytes;
        proof {
            let es2 = self.entries@;
            let front = order.drop_last();
            let g = order.last();
            assert(order =~= front.push(g));
            assert(es2 =~= es.update(i as int, es2[i as int]));
            assert(distinct_entries(es2)) by {
                assert forall|a: int, b: int| 0 <= a < b < es2.len() implies (
                #[trigger] es2[a]).key@ != (#[trigger] es2[b]).key@ && es2[a].generation
                    != es2[b].generation by {
                    assert(es[a].key@ != es[b].key@ && es[a].generation != es[b].generation);
                }
            }
            assert forall|p: int| #![trigger front[p]] 0 <= p < front.len() implies {
                &&& live(es2, front[p]) == live(es, front[p])
                &&& live(es2, front[p]) ==> at_generation(es2, front[p]) == at_generation(
                    es,
                    front[p],
                )
            } by {
                let h = front[p];
                assert(order[p] < order[order.len() - 1]);
                if live(es2, h) {
                    let j = choose|j: int| 0 <= j < es2.len() && (#[trigger] es2[j]).generation == h;
                    assert(es2[j] == es[j]);
                    lemma_at_generation(es2, j);
                    lemma_at_generation(es, j);
                }
                if live(es, h) {
                    let j = choose|j: int| 0 <= j < es.len() && (#[trigger] es[j]).generation == h;
                    assert(es2[j] == es[j]);
                }
            }
            lemma_recency_frame(front, es, es2);
            lemma_recency_push(front, es, g);
            lemma_recency_push(front, es2, g);
            lemma_at_generation(es, i as int);
            lemma_at_generation(es2, i as int);
            assert(recency(order, es).drop_last() =~= recency(front, es));
            assert forall|a: int| 0 <= a < es2.len() implies order.contains(
                (#[trigger] es2[a]).generation,
            ) by {
                assert(es2[a].generation == es[a].generation);
            }
        }
    }

    /// Adds an entry under a key that is not yet there.
    fn append(&mut self, entry: Entry<K, V>)
        requires
            old(self).linked(),
            entry.generation == old(self).generation,
            forall|p: int| 0 <= p < old(self).order@.len() ==> #[trigger] old(self).order@[p]
                < entry.generation,
            forall|i: int|
                0 <= i < old(self).entries@.len() ==> (#[trigger] old(self).entries@[i]).key@
                    != entry.key@,
        ensures
            final(self).linked(),
            final(self)@ == (Lru { slots: old(self)@.slots.push(slot(entry)), ..old(self)@ }),
    {
        let ghost es = self.entries@;
        let ghost order = self.order@;
        let ghost g = entry.generation;
        let at: usize = self.entries.len();
        self.keys.enlist(entry.key.hash_key(), at);
        self.generations.enlist(entry.generation, at);
        self.order.push_back(entry.generation);
        self.entries.push(entry);
        proof {
            let es2 = self.entries@;
            assert forall|a: int| 0 <= a < es.len() implies (#[trigger] es[a]).generation < g by {
                assert(order.contains(es[a].generation));
            }
            assert forall|a: int| 0 <= a < es.len() implies #[trigger] es2[a] == es[a] by {}
            assert(distinct_entries(es2)) by {
                assert forall|a: int, b: int| 0 <= a < b < es2.len() implies (
                #[trigger] es2[a]).key@ != (#[trigger] es2[b]).key@ && es2[a].generation
                    != es2[b].generation by {
                    assert(es2[a] == es[a]);
                    if b < es.len() {
                        assert(es[a].key@ != es[b].key@ && es[a].generation != es[b].generation);
                    }
                }
            }
            assert forall|p: int| #![trigger order[p]] 0 <= p < order.len() implies {
                &&& live(es2, order[p]) == live(es, order[p])
                &&& live(es2, order[p]) ==> at_generation(es2, order[p]) == at_generation(
                    es,
                    order[p],
                )
            } by {
                let h = order[p];
                if live(es2, h) {
                    let j = choose|j: int| 0 <= j < es2.len() && (#[trigger] es2[j]).generation == h;
                    assert(es2[j] == es[j]);
                    lemma_at_generation(es2, j);
                    lemma_at_generation(es, j);
                }
                if live(es, h) {
                    let j = choose|j: int| 0 <= j < es.len() && (#[trigger] es[j]).generation == h;
                    assert(es2[j] == es[j]);
                }
            }
            lemma_recency_frame(order, es, es2);
            lemma_recency_push(order, es2, g);
            lemma_at_generation(es2, es.len() as int);
            assert(self.order@ == order.push(g));
            assert forall|a: int| 0 <= a < es2.len() implies self.order@.contains(
                (#[trigger] es2[a]).generation,
            ) by {
                if a == es.len() {
                    assert(self.order@[order.len() as int] == g);
                } else {
                    let p = choose|p: int| 0 <= p < order.len() && order[p] == es[a].generation;
                    assert(self.order@[p] == es[a].generation);
                }
            }
        }
    }

    /// The value under `key`, which becomes the most recently used.
    pub fn get_cloned(&mut self, key: &K) -> (r: Option<V>)
        where V: Clone
        requires
            old(self).wf(),
        ensures
            final(self).wf(),
            final(self)@ == old(self)@.touch(key@),
            match old(self)@.lookup(key@) {
                Some(v) => r is Some && cloned(v, r->0),
                None => r is None,
            },
    {
        match self.find(key) {
            None => {
                proof {
                    assert forall|j: int| 0 <= j < self@.slots.len() implies (
                    #[trigger] self@.slots[j]).key != key@ by {
                        lemma_recency_member(self.order@, self.entries@, j);
                    }
                }
                None
            },
            Some(i) => {
                let ghost s = self@.slots;
                proof {
                    lemma_recency_distinct(self.order@, self.entries@);
                    let j = lemma_recency_covers(self.order@, self.entries@, i as int);
                    lemma_slot_at(s, j);
                    lemma_forget(s, key@);
                }
                if self.entries[i].generation == self.generation {
                    proof {
                        self.lemma_newest_is_last(i as int);
                        lemma_forget_last(s);
                        assert(s.drop_last().push(s.last()) =~= s);
                    }
                    return Some(self.entries[i].value.clone());
                }
                let generation: u64 = self.next_generation();
                self.renew(i, generation);
                proof {
                    lemma_total_push(forget(s, key@), slot_of(s, key@));
                    lemma_touch_valid(old(self)@, key@);
                }
                let value = self.entries[i].value.clone();
                self.compact_order_if_needed();
                Some(value)
            },
        }
    }

    /// Stores `value` under `key`, as the most recently used, and makes room for it.
    pub fn insert(&mut self, key: K, value: V, bytes: usize)
        requires
            old(self).wf(),
        ensures
            final(self).wf(),
            final(self)@ == old(self)@.insert(key@, value, bytes as int),
    {
        if bytes > self.max_bytes || self.max_entries == 0 {
            self.remove(&key);
            return;
        }
        proof {
            lemma_remove_valid(self@, key@);
        }
        let generation: u64 = self.next_generation();
        let ghost k = key@;
        let ghost now = self@;
        match self.find(&key) {
            Some(i) => {
                proof {
                    lemma_recency_distinct(self.order@, self.entries@);
                    let j = lemma_recency_covers(self.order@, self.entries@, i as int);
                    lemma_slot_at(now.slots, j);
                    lemma_forget(now.slots, k);
                }
                self.renew(i, generation);
                let previous: usize = self.entries[i].bytes;
                assert(self@.slots.drop_last() =~= forget(now.slots, k));
                assert(previous == slot_of(now.slots, k).bytes);
                self.put(i, value, bytes);
                self.bytes = self.bytes.saturating_sub(previous);
            },
            None => {
                proof {
                    assert forall|j: int| 0 <= j < now.slots.len() implies (
                    #[trigger] now.slots[j]).key != k by {
                        lemma_recency_member(self.order@, self.entries@, j);
                    }
                }
                self.append(Entry { key, value, bytes, generation });
            },
        }
        self.bytes = self.bytes.saturating_add(bytes);
        proof {
            let m = now.remove(k);
            assert(self@.slots =~= m.push(k, value, bytes as int).slots);
            assert(self@.bytes == m.push(k, value, bytes as int).bytes);
            lemma_total_push(m.slots, Slot { key: k, value, bytes: bytes as int });
            lemma_push_distinct(m.slots, Slot { key: k, value, bytes: bytes as int });
            lemma_evict(self@);
        }
        self.evict_to_budget();
        self.compact_order_if_needed();
    }

    /// The number of entries and the bytes they account for.
    pub fn stats(&self) -> (r: (usize, usize))
        requires
            self.wf(),
        ensures
            r.0 == self@.slots.len(),
            r.1 == self@.bytes,
    {
        (self.entries.len(), self.bytes)
    }

    /// The live entries, in no particular order, and the storage that the table and the recency
    /// queue own. The queue may have room to spare; what the table has to spare and what its hash
    /// index takes are not accounted for, so the storage is not an exact count.
    pub fn scan_retained_memory(&self) -> (r: (Vec<(&K, &V)>, usize, bool))
        requires
            self.wf(),
        ensures
            visited(r.0@, self@.slots),
            takes::<K, V>(self@.slots.len(), r.1 as int),
            !r.2,
    {
        let mut seen: Vec<(&K, &V)> = Vec::new();
        let ghost mut p: Seq<int> = Seq::empty();
        let mut i: usize = 0;
        while i < self.entries.len()
            invariant
                self.wf(),
                i <= self.entries@.len(),
                seen@.len() == i,
                p.len() == i,
                forall|j: int|
                    #![trigger p[j]]
                    0 <= j < i ==> {
                        &&& 0 <= p[j] < self@.slots.len()
                        &&& self@.slots[p[j]] == slot(self.entries@[j])
                        &&& seen@[j].0@ == self@.slots[p[j]].key
                        &&& *seen@[j].1 == self@.slots[p[j]].value
                    },
            decreases self.entries@.len() - i,
        {
            let e = &self.entries[i];
            proof {
                let j = lemma_recency_covers(self.order@, self.entries@, i as int);
                p = p.push(j);
            }
            seen.push((&e.key, &e.value));
            i += 1;
        }
        proof {
            assert forall|a: int, b: int| 0 <= a < b < p.len() implies p[a] != p[b] by {
                assert(self.entries@[a].key@ != self.entries@[b].key@);
                assert(slot(self.entries@[a]).key != slot(self.entries@[b]).key);
            }
            assert(visits(seen@, self@.slots, p));
            assert(visited(seen@, self@.slots));
            lemma_recency_distinct(self.order@, self.entries@);
        }
        let room: usize = queue_capacity(&self.order);
        let table: usize = at_most_largest(self.entries.len(), core::mem::size_of::<Entry<K, V>>());
        let queue: usize = at_most_largest(room, core::mem::size_of::<u64>());
        let bytes: usize = table.saturating_add(queue);
        proof {
            let a = self.entries@.len() * size_of::<Entry<K, V>>();
            let b = room as nat * size_of::<u64>();
            assert(a >= 0 && b >= 0) by (nonlinear_arith)
                requires
                    a == self.entries@.len() * size_of::<Entry<K, V>>(),
                    b == room as nat * size_of::<u64>(),
            ;
            assert(bytes == storage_bytes::<K, V>(self@.slots.len(), room as nat));
            assert(takes::<K, V>(self@.slots.len(), bytes as int));
        }
        (seen, bytes, false)
    }
}

/// The visited entries are the slots at the listed places, each once.
pub open spec fn visits<K: View, V>(
    seen: Seq<(&K, &V)>,
    slots: Seq<Slot<K::V, V>>,
    p: Seq<int>,
) -> bool {
    &&& seen.len() == slots.len()
    &&& p.len() == slots.len()
    &&& forall|a: int, b: int| 0 <= a < b < p.len() ==> #[trigger] p[a] != #[trigger] p[b]
    &&& forall|j: int|
        #![trigger p[j]]
        0 <= j < p.len() ==> {
            &&& 0 <= p[j] < slots.len()
            &&& seen[j].0@ == slots[p[j]].key
            &&& *seen[j].1 == slots[p[j]].value
        }
}

/// The visited entries are all the slots, each once.
pub open spec fn visited<K: View, V>(seen: Seq<(&K, &V)>, slots: Seq<Slot<K::V, V>>) -> bool {
    exists|p: Seq<int>| visits(seen, slots, p)
}

/// The bytes of a table of `n` entries and of a queue that has room for as many at least.
pub open spec fn takes<K, V>(n: nat, bytes: int) -> bool {
    exists|room: nat| room >= n && bytes == #[trigger] storage_bytes::<K, V>(n, room)
}

/// The bytes of a table of `n` entries and of a queue with room for `room` generations, held at
/// the largest machine size.
pub closed spec fn storage_bytes<K, V>(n: nat, room: nat) -> int {
    saturated((n * size_of::<Entry<K, V>>() + room * size_of::<u64>()) as int)
}

/// `VecDeque::capacity`: the room that a deque has, which is never less than what it holds. How
/// much more it is rests with the allocator, and nothing is said of it.
#[verifier::external_body]
fn queue_capacity(q: &VecDeque<u64>) -> (r: usize)
    ensures
        r >= q@.len(),
{
    q.capacity()
}

/// `a * b`, held at the largest machine size.
fn at_most_largest(a: usize, b: usize) -> (r: usize)
    ensures
        r == saturated(a * b),
{
    match a.checked_mul(b) {
        Some(r) => r,
        None => usize::MAX,
    }
}

/// What a compiled RegExp program is found by.
pub struct ProgramKey {
    pub source: String,
    pub flags: String,
}

impl View for ProgramKey {
    type V = (Seq<char>, Seq<char>);

    open spec fn view(&self) -> (Seq<char>, Seq<char>) {
        (self.source@, self.flags@)
    }
}

impl CacheKey for ProgramKey {
    open spec fn hashed(key: (Seq<char>, Seq<char>)) -> u64 {
        (text_hashed(key.0) * 31 + text_hashed(key.1)) as u64
    }

    fn hash_key(&self) -> (r: u64) {
        hash_text(self.source.as_str()) * 31 + hash_text(self.flags.as_str())
    }

    fn same_key(&self, other: &Self) -> (r: bool) {
        same_text(self.source.as_str(), other.source.as_str()) && same_text(
            self.flags.as_str(),
            other.flags.as_str(),
        )
    }
}

impl ProgramKey {
    fn new(source: &str, flags: &str) -> (r: Self)
        ensures
            r@ == (source@, flags@),
    {
        ProgramKey { source: source.to_owned(), flags: flags.to_owned() }
    }
}

/// Compiled RegExp programs by source and flags, with one byte and recency account across every
/// pair.
pub struct RegexpProgramCache<P> {
    programs: ByteLru<ProgramKey, P>,
}

impl<P> View for RegexpProgramCache<P> {
    type V = Lru<(Seq<char>, Seq<char>), P>;

    closed spec fn view(&self) -> Lru<(Seq<char>, Seq<char>), P> {
        self.programs@
    }
}

impl<P> RegexpProgramCache<P> {
    /// What holds of a cache between calls.
    pub closed spec fn wf(&self) -> bool {
        self.programs.wf()
    }

    /// Every well-formed cache is within its budgets and accounts for what it holds.
    pub proof fn law_caches_stay_within_budget(&self)
        requires
            self.wf(),
        ensures
            self@.valid(),
    {
    }

    /// An empty cache with the two budgets.
    pub fn new(max_bytes: usize, max_entries: usize) -> (r: Self)
        ensures
            r.wf(),
            r@ == (Lru {
                slots: Seq::<Slot<(Seq<char>, Seq<char>), P>>::empty(),
                bytes: 0,
                max_bytes: max_bytes as int,
                max_entries: entry_limit(max_entries),
            }),
    {
        RegexpProgramCache { programs: ByteLru::new(max_bytes, max_entries) }
    }

    /// The program for the pair, which becomes the most recently used.
    pub fn get(&mut self, source: &str, flags: &str) -> (r: Option<P>)
        where P: Clone
        requires
            old(self).wf(),
        ensures
            final(self).wf(),
            final(self)@ == old(self)@.touch((source@, flags@)),
            match old(self)@.lookup((source@, flags@)) {
                Some(v) => r is Some && cloned(v, r->0),
                None => r is None,
            },
    {
        let key = ProgramKey::new(source, flags);
        self.programs.get_cloned(&key)
    }

    /// Stores a program of `bytes` bytes for the pair and makes room for it.
    pub fn insert(&mut self, source: &str, flags: &str, value: P, bytes: usize)
        requires
            old(self).wf(),
        ensures
            final(self).wf(),
            final(self)@ == old(self)@.insert((source@, flags@), value, bytes as int),
    {
        let key = ProgramKey::new(source, flags);
        self.programs.insert(key, value, bytes);
    }

    /// The number of programs and the bytes they account for.
    pub fn stats(&self) -> (r: (usize, usize))
        requires
            self.wf(),
        ensures
            r.0 == self@.slots.len(),
            r.1 == self@.bytes,
    {
        self.programs.stats()
    }

    /// The live programs with their pairs, in no particular order, and the storage that the table
    /// and the recency queue own.
    pub fn scan_retained_memory(&self) -> (r: (Vec<(&ProgramKey, &P)>, usize, bool))
        requires
            self.wf(),
        ensures
            visited(r.0@, self@.slots),
            takes::<ProgramKey, P>(self@.slots.len(), r.1 as int),
            !r.2,
    {
        self.programs.scan_retained_memory()
    }
}

/// The cache after its `n` least recent slots are dropped.
pub open spec fn shed<KV, V>(c: Lru<KV, V>, n: nat) -> Lru<KV, V>
    decreases n,
{
    if n == 0 || c.slots.len() == 0 {
        c
    } else {
        shed(
            Lru {
                slots: c.slots.drop_first(),
                bytes: sat_minus(c.bytes, c.slots[0].bytes),
                ..c
            },
            (n - 1) as nat,
        )
    }
}

/// Eviction drops least recent slots only, and no more of them than the budgets ask for: after
/// any smaller number of drops the cache is still over budget.
pub proof fn law_eviction_is_minimal<KV, V>(c: Lru<KV, V>) -> (n: nat)
    ensures
        n <= c.slots.len(),
        c.evict() == shed(c, n),
        c.evict().slots == c.slots.skip(n as int),
        forall|m: nat| m < n ==> (#[trigger] shed(c, m)).over_budget(),
    decreases c.slots.len(),
{
    if c.over_budget() && c.slots.len() > 0 {
        let d = Lru {
            slots: c.slots.drop_first(),
            bytes: sat_minus(c.bytes, c.slots[0].bytes),
            ..c
        };
        let n = law_eviction_is_minimal(d);
        assert(c.slots.drop_first().skip(n as int) =~= c.slots.skip((n + 1) as int));
        assert forall|m: nat| m < n + 1 implies (#[trigger] shed(c, m)).over_budget() by {
            if m > 0 {
                assert(shed(c, m) == shed(d, (m - 1) as nat));
            }
        }
        n + 1
    } else {
        assert(c.slots.skip(0) =~= c.slots);
        0
    }
}

/// Each operation keeps a valid cache valid: within both budgets, one slot for a key, and with
/// its bytes accounted for.
pub proof fn law_operations_keep_valid<KV, V>(c: Lru<KV, V>, k: KV, v: V, bytes: int)
    requires
        c.valid(),
        0 <= bytes <= usize::MAX,
    ensures
        c.touch(k).valid(),
        c.remove(k).valid(),
        c.insert(k, v, bytes).valid(),
{
    lemma_touch_valid(c, k);
    lemma_remove_valid(c, k);
    if bytes <= c.max_bytes && c.max_entries != 0 {
        let m = c.remove(k);
        let x = Slot { key: k, value: v, bytes };
        lemma_total_push(m.slots, x);
        lemma_push_distinct(m.slots, x);
        lemma_evict(m.push(k, v, bytes));
    }
}

/// A slot that fits the byte budget alone is never evicted by its own insertion.
proof fn lemma_evict_keeps_last<KV, V>(c: Lru<KV, V>)
    requires
        c.slots.len() > 0,
        c.max_entries >= 1,
        0 <= c.bytes <= total(c.slots),
        c.slots.last().bytes <= c.max_bytes,
        forall|i: int| 0 <= i < c.slots.len() ==> (#[trigger] c.slots[i]).bytes >= 0,
    ensures
        c.evict().slots.len() > 0,
        c.evict().slots.last() == c.slots.last(),
    decreases c.slots.len(),
{
    if c.over_budget() {
        if c.slots.len() == 1 {
            assert(c.slots.drop_first() =~= Seq::empty());
            assert(total(c.slots) == c.slots[0].bytes + total(c.slots.drop_first()));
            assert(total(c.slots.drop_first()) == 0);
            assert(false);
        }
        let rest = c.slots.drop_first();
        assert(c.slots[0].bytes >= 0);
        assert forall|i: int| 0 <= i < rest.len() implies (#[trigger] rest[i]).bytes >= 0 by {
            assert(rest[i] == c.slots[i + 1]);
        }
        lemma_total_nonneg(rest);
        lemma_evict_keeps_last(
            Lru { slots: rest, bytes: sat_minus(c.bytes, c.slots[0].bytes), ..c },
        );
    }
}

/// A read gives back what was last written, unless the value alone exceeds a budget.
pub proof fn law_lookup_after_insert<KV, V>(c: Lru<KV, V>, k: KV, v: V, bytes: int)
    requires
        c.valid(),
        0 <= bytes <= usize::MAX,
    ensures
        c.insert(k, v, bytes).lookup(k) == if bytes <= c.max_bytes && c.max_entries > 0 {
            Some(v)
        } else {
            None
        },
{
    lemma_remove_valid(c, k);
    law_operations_keep_valid(c, k, v, bytes);
    if bytes <= c.max_bytes && c.max_entries > 0 {
        let m = c.remove(k);
        let x = Slot { key: k, value: v, bytes };
        let p = m.push(k, v, bytes);
        lemma_total_push(m.slots, x);
        lemma_evict_keeps_last(p);
        let s = p.evict().slots;
        lemma_slot_at(s, s.len() - 1);
    }
}

/// A slot other than the inserted one keeps its value or is gone.
pub proof fn law_insert_leaves_others<KV, V>(c: Lru<KV, V>, k: KV, v: V, bytes: int, other: KV)
    requires
        c.valid(),
        0 <= bytes <= usize::MAX,
        other != k,
    ensures
        c.insert(k, v, bytes).lookup(other) is Some ==> c.insert(k, v, bytes).lookup(other)
            == c.lookup(other),
{
    law_operations_keep_valid(c, k, v, bytes);
    let r = c.insert(k, v, bytes);
    if has_key(r.slots, other) {
        lemma_remove_valid(c, k);
        lemma_forget(c.slots, k);
        let i = choose|i: int| 0 <= i < r.slots.len() && (#[trigger] r.slots[i]).key == other;
        let m = c.remove(k);
        let a: int = if bytes > c.max_bytes || c.max_entries == 0 {
            i
        } else {
            let p = m.push(k, v, bytes);
            let n = law_eviction_is_minimal(p);
            assert(p.slots.skip(n as int)[i] == p.slots[n + i]);
            assert(p.slots.last().key == k);
            n + i
        };
        assert(0 <= a < m.slots.len());
        assert(m.slots[a] == r.slots[i]);
        if has_key(c.slots, k) {
            let b = choose|b: int| 0 <= b < c.slots.len() && #[trigger] c.slots[b] == m.slots[a];
            lemma_slot_at(c.slots, b);
        } else {
            lemma_slot_at(c.slots, a);
        }
        lemma_slot_at(r.slots, i);
    }
}

/// A use changes no value; it only makes the used slot the last to go.
pub proof fn law_touch_keeps_values<KV, V>(c: Lru<KV, V>, k: KV, other: KV)
    requires
        c.valid(),
    ensures
        c.touch(k).lookup(other) == c.lookup(other),
        has_key(c.slots, k) ==> c.touch(k).slots.last().key == k,
{
    if has_key(c.slots, k) {
        lemma_touch_valid(c, k);
        lemma_forget(c.slots, k);
        let f = forget(c.slots, k);
        let x = slot_of(c.slots, k);
        let t = f.push(x);
        if has_key(t, other) {
            let i = choose|i: int| 0 <= i < t.len() && (#[trigger] t[i]).key == other;
            lemma_slot_at(t, i);
            if i < f.len() {
                let b = choose|b: int| 0 <= b < c.slots.len() && #[trigger] c.slots[b] == f[i];
                lemma_slot_at(c.slots, b);
            }
        }
        if has_key(c.slots, other) && other != k {
            lemma_forget_keeps(c.slots, k, other);
            let j = choose|j: int| 0 <= j < f.len() && (#[trigger] f[j]).key == other;
            assert(t[j].key == other);
        }
        if other == k {
            assert(t[f.len() as int].key == k);
        }
    }
}

proof fn lemma_forget_keeps<KV, V>(s: Seq<Slot<KV, V>>, k: KV, other: KV)
    requires
        has_key(s, other),
        other != k,
    ensures
        has_key(forget(s, k), other),
    decreases s.len(),
{
    let i = choose|i: int| 0 <= i < s.len() && (#[trigger] s[i]).key == other;
    let rest = s.drop_first();
    let f = forget(s, k);
    if i == 0 {
        assert(f[0].key == other);
    } else {
        assert(rest[i - 1].key == other);
        lemma_forget_keeps(rest, k, other);
        let fr = forget(rest, k);
        let j = choose|j: int| 0 <= j < fr.len() && (#[trigger] fr[j]).key == other;
        if s[0].key == k {
            assert(f[j].key == other);
        } else {
            assert(f[j + 1].key == other);
        }
    }
}

} // verus!
