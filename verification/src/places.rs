//! Positions listed under numbers, found by one hash lookup.
use std::collections::HashMap;
use vstd::prelude::*;
use vstd::std_specs::hash::*;

verus! {

broadcast use group_hash_axioms;

/// Which positions stand under which number. Several positions may share one.
pub struct Places {
    buckets: HashMap<u64, Vec<usize>>,
}

/// Whether a list of positions holds `p`.
pub open spec fn stands_in(bucket: Seq<usize>, p: int) -> bool {
    exists|j: int| 0 <= j < bucket.len() && #[trigger] bucket[j] == p
}

impl Places {
    /// Whether position `p` stands under `number`.
    pub closed spec fn has(&self, number: u64, p: int) -> bool {
        self.buckets@.contains_key(number) && stands_in(self.buckets@[number]@, p)
    }

    pub fn new() -> (r: Places)
        ensures
            forall|n: u64, p: int| !#[trigger] r.has(n, p),
    {
        Places { buckets: HashMap::new() }
    }

    /// The positions under `number`.
    pub fn under(&self, number: u64) -> (r: Option<&Vec<usize>>)
        ensures
            forall|p: int| #[trigger]
                self.has(number, p) == (r is Some && stands_in(r->0@, p)),
    {
        self.buckets.get(&number)
    }

    /// Lists position `p` under `number`.
    pub fn enlist(&mut self, number: u64, p: usize)
        ensures
            forall|n: u64, q: int| #[trigger]
                final(self).has(n, q) == (old(self).has(n, q) || (n == number && q == p)),
    {
        let ghost before = *self;
        let mut bucket: Vec<usize> = match self.buckets.remove(&number) {
            Some(b) => b,
            None => Vec::new(),
        };
        let ghost listed = bucket@;
        bucket.push(p);
        let ghost now = bucket@;
        self.buckets.insert(number, bucket);
        assert forall|n: u64, q: int| #[trigger]
            self.has(n, q) == (before.has(n, q) || (n == number && q == p)) by {
            if n == number {
                lemma_pushed(listed, p);
                assert(stands_in(now, q) == (stands_in(listed, q) || q == p));
            }
        }
    }

    /// Strikes position `p` off the list under `number`.
    pub fn delist(&mut self, number: u64, p: usize)
        ensures
            forall|n: u64, q: int| #[trigger]
                final(self).has(n, q) == (old(self).has(n, q) && !(n == number && q == p)),
    {
        let ghost before = *self;
        if let Some(bucket) = self.buckets.remove(&number) {
            let mut kept: Vec<usize> = Vec::new();
            let mut j: usize = 0;
            while j < bucket.len()
                invariant
                    j <= bucket@.len(),
                    forall|q: int| #[trigger]
                        stands_in(kept@, q) == (stands_in(bucket@.subrange(0, j as int), q) && q
                            != p),
                decreases bucket@.len() - j,
            {
                let ghost was = kept@;
                let ghost seen = bucket@.subrange(0, j as int);
                let x: usize = bucket[j];
                if x != p {
                    kept.push(x);
                }
                proof {
                    let now = bucket@.subrange(0, j + 1);
                    assert(now =~= seen.push(x));
                    lemma_pushed(seen, x);
                    lemma_pushed(was, x);
                }
                j += 1;
            }
            assert(bucket@.subrange(0, j as int) =~= bucket@);
            let ghost left = kept@;
            if kept.len() > 0 {
                self.buckets.insert(number, kept);
            }
            assert forall|n: u64, q: int| #[trigger]
                self.has(n, q) == (before.has(n, q) && !(n == number && q == p)) by {
                if n == number {
                    assert(stands_in(left, q) == (stands_in(bucket@, q) && q != p));
                }
            }
        }
    }
}

proof fn lemma_pushed(s: Seq<usize>, x: usize)
    ensures
        forall|q: int| #[trigger] stands_in(s.push(x), q) == (stands_in(s, q) || q == x),
{
    let t = s.push(x);
    assert forall|q: int| #[trigger] stands_in(t, q) == (stands_in(s, q) || q == x) by {
        assert(t[s.len() as int] == x);
        if stands_in(s, q) {
            let j = choose|j: int| 0 <= j < s.len() && #[trigger] s[j] == q;
            assert(t[j] == q);
        }
        if stands_in(t, q) && q != x {
            let j = choose|j: int| 0 <= j < t.len() && #[trigger] t[j] == q;
            assert(s[j] == q);
        }
    }
}

} // verus!
