//! Stable sorting: `Array.prototype.sort` and `toSorted`.
use vstd::prelude::*;
use crate::array::{
    arr_to_object, array_get_present_index, checked_array_len, checked_length, present, receiver,
};
use crate::array_callbacks::{array_of, read_elements, read_from};
use crate::interp::{arg, arg_at, ErrorKind, Interp, Key, Op, Outcome, Value, World};
use crate::num;

verus! {

// The order of strings

/// `a` comes before `b` by code units, a prefix first.
pub open spec fn units_below(a: Seq<u16>, b: Seq<u16>) -> bool
    decreases a.len(),
{
    if b.len() == 0 {
        false
    } else if a.len() == 0 {
        true
    } else if a[0] != b[0] {
        a[0] < b[0]
    } else {
        units_below(a.drop_first(), b.drop_first())
    }
}

/// Code-unit order is a strict total order.
pub proof fn law_unit_order(a: Seq<u16>, b: Seq<u16>, c: Seq<u16>)
    ensures
        !units_below(a, a),
        units_below(a, b) ==> !units_below(b, a),
        units_below(a, b) && units_below(b, c) ==> units_below(a, c),
        units_below(a, b) || units_below(b, a) || a == b,
    decreases a.len() + b.len(),
{
    if a.len() > 0 && b.len() > 0 {
        if c.len() > 0 {
            law_unit_order(a.drop_first(), b.drop_first(), c.drop_first());
        } else {
            law_unit_order(a.drop_first(), b.drop_first(), c);
        }
        if a[0] == b[0] && a.drop_first() == b.drop_first() {
            assert(a =~= seq![a[0]] + a.drop_first());
            assert(b =~= seq![b[0]] + b.drop_first());
        }
        if b.len() > 0 {
            law_unit_self(a);
        }
    } else if a.len() == 0 && b.len() == 0 {
        assert(a =~= b);
    } else {
        law_unit_self(a);
    }
}

proof fn law_unit_self(a: Seq<u16>)
    ensures
        !units_below(a, a),
    decreases a.len(),
{
    if a.len() > 0 {
        law_unit_self(a.drop_first());
    }
}

pub fn is_units_below(a: &Vec<u16>, b: &Vec<u16>) -> (r: bool)
    ensures
        r == units_below(a@, b@),
{
    let mut j: usize = 0;
    assert(a@.skip(0) =~= a@ && b@.skip(0) =~= b@);
    while j < a.len() && j < b.len()
        invariant
            j <= a@.len(),
            j <= b@.len(),
            units_below(a@, b@) == units_below(a@.skip(j as int), b@.skip(j as int)),
        decreases a@.len() - j,
    {
        if a[j] != b[j] {
            return a[j] < b[j];
        }
        assert(a@.skip(j as int).drop_first() =~= a@.skip(j + 1));
        assert(b@.skip(j as int).drop_first() =~= b@.skip(j + 1));
        j += 1;
    }
    j < b.len()
}

/// A sort key: none, which stands for undefined, goes to the end.
pub type SortKey = Option<Seq<u16>>;

/// Key `a` comes before key `b`.
pub open spec fn key_below(a: SortKey, b: SortKey) -> bool {
    match (a, b) {
        (Some(a), Some(b)) => units_below(a, b),
        (Some(_), None) => true,
        (None, _) => false,
    }
}

// Stable orders

/// Position `a` comes before position `b`: by key, and by position among equal keys.
pub open spec fn before(keys: Seq<SortKey>, a: int, b: int) -> bool {
    key_below(keys[a], keys[b]) || (keys[a] == keys[b] && a < b)
}

proof fn lemma_before(keys: Seq<SortKey>, a: int, b: int, c: int)
    requires
        0 <= a < keys.len(),
        0 <= b < keys.len(),
        0 <= c < keys.len(),
    ensures
        before(keys, a, b) ==> !before(keys, b, a),
        a != b ==> before(keys, a, b) || before(keys, b, a),
        before(keys, a, b) && before(keys, b, c) ==> before(keys, a, c),
{
    let e = Seq::<u16>::empty();
    let ka = if keys[a] is Some { keys[a]->0 } else { e };
    let kb = if keys[b] is Some { keys[b]->0 } else { e };
    let kc = if keys[c] is Some { keys[c]->0 } else { e };
    law_unit_order(ka, kb, kc);
    law_unit_order(kb, ka, kc);
    law_unit_order(ka, kb, kb);
    law_unit_order(kb, kc, ka);
}

/// Every later position comes after every earlier one.
pub open spec fn ordered(keys: Seq<SortKey>, p: Seq<int>) -> bool {
    forall|i: int, j: int| 0 <= i < j < p.len() ==> before(keys, #[trigger] p[i], #[trigger] p[j])
}

/// `p` lists each position below `n` once.
pub open spec fn lists_all(p: Seq<int>, n: int) -> bool {
    &&& p.len() == n
    &&& forall|i: int| 0 <= i < n ==> 0 <= #[trigger] p[i] < n
    &&& forall|k: int| 0 <= k < n ==> #[trigger] p.contains(k)
}

/// The one order of the positions by key, equal keys by position.
pub open spec fn stable_order(keys: Seq<SortKey>) -> Seq<int> {
    choose|p: Seq<int>| lists_all(p, keys.len() as int) && ordered(keys, p)
}

/// There is only one such order.
pub proof fn law_stable_order_is_unique(keys: Seq<SortKey>, p: Seq<int>, q: Seq<int>)
    requires
        lists_all(p, keys.len() as int),
        ordered(keys, p),
        lists_all(q, keys.len() as int),
        ordered(keys, q),
    ensures
        p == q,
{
    assert forall|i: int| 0 <= i < p.len() implies p[i] == q[i] by {
        lemma_same_at(keys, p, q, i);
    }
    assert(p =~= q);
}

proof fn lemma_same_at(keys: Seq<SortKey>, p: Seq<int>, q: Seq<int>, i: int)
    requires
        lists_all(p, keys.len() as int),
        ordered(keys, p),
        lists_all(q, keys.len() as int),
        ordered(keys, q),
        0 <= i < p.len(),
    ensures
        p[i] == q[i],
    decreases i,
{
    assert forall|k: int| 0 <= k < i implies p[k] == q[k] by {
        lemma_same_at(keys, p, q, k);
    }
    if p[i] != q[i] {
        assert(q.contains(p[i]));
        let j = choose|j: int| 0 <= j < q.len() && q[j] == p[i];
        assert(p.contains(q[i]));
        let k = choose|k: int| 0 <= k < p.len() && p[k] == q[i];
        if j < i {
            assert(p[j] == q[j]);
            assert(before(keys, p[j], p[i]));
            lemma_before(keys, p[i], p[i], p[i]);
        }
        if k < i {
            assert(p[k] == q[k]);
            assert(before(keys, q[k], q[i]));
            lemma_before(keys, q[i], q[i], q[i]);
        }
        assert(before(keys, q[i], q[j]));
        assert(before(keys, p[i], p[k]));
        lemma_before(keys, p[i], q[i], p[i]);
    }
}

/// How many of the positions of an ordered list come before position `n`, counted from `k` on.
spec fn place_of(keys: Seq<SortKey>, p: Seq<int>, n: int, k: int) -> int
    decreases p.len() - k,
{
    if k < 0 || k >= p.len() || !before(keys, p[k], n) {
        k
    } else {
        place_of(keys, p, n, k + 1)
    }
}

proof fn lemma_place_of(keys: Seq<SortKey>, p: Seq<int>, n: int, k: int)
    requires
        0 <= k <= p.len(),
        forall|i: int| 0 <= i < k ==> before(keys, #[trigger] p[i], n),
    ensures
        k <= place_of(keys, p, n, k) <= p.len(),
        forall|i: int| 0 <= i < place_of(keys, p, n, k) ==> before(keys, #[trigger] p[i], n),
        place_of(keys, p, n, k) < p.len() ==> !before(keys, p[place_of(keys, p, n, k)], n),
    decreases p.len() - k,
{
    if k < p.len() && before(keys, p[k], n) {
        lemma_place_of(keys, p, n, k + 1);
    }
}

/// A stable order of the first `n` positions.
proof fn lemma_order_upto(keys: Seq<SortKey>, n: int) -> (q: Seq<int>)
    requires
        0 <= n <= keys.len(),
    ensures
        lists_all(q, n),
        ordered(keys, q),
    decreases n,
{
    if n == 0 {
        Seq::empty()
    } else {
        let m = n - 1;
        let p = lemma_order_upto(keys, m);
        lemma_place_of(keys, p, m, 0);
        let k = place_of(keys, p, m, 0);
        let q = p.insert(k, m);
        assert forall|j: int| 0 <= j < n implies #[trigger] q.contains(j) by {
            if j == m {
                assert(q[k] == m);
            } else {
                assert(p.contains(j));
                let i = choose|i: int| 0 <= i < p.len() && p[i] == j;
                if i < k {
                    assert(q[i] == j);
                } else {
                    assert(q[i + 1] == j);
                }
            }
        }
        assert forall|i: int| 0 <= i < n implies 0 <= #[trigger] q[i] < n by {
            if i < k {
                assert(q[i] == p[i]);
            } else if i > k {
                assert(q[i] == p[i - 1]);
            }
        }
        assert forall|j: int| k <= j < p.len() implies before(keys, m, #[trigger] p[j]) by {
            lemma_before(keys, p[k], m, m);
            assert(before(keys, m, p[k]));
            if j > k {
                assert(before(keys, p[k], p[j]));
                lemma_before(keys, m, p[k], p[j]);
            }
        }
        assert forall|i: int, j: int| 0 <= i < j < q.len() implies before(
            keys,
            #[trigger] q[i],
            #[trigger] q[j],
        ) by {
            if j < k {
                assert(q[i] == p[i] && q[j] == p[j]);
            } else if j == k {
                assert(q[i] == p[i]);
            } else if i < k {
                assert(q[i] == p[i] && q[j] == p[j - 1]);
            } else if i == k {
                assert(q[j] == p[j - 1]);
            } else {
                assert(q[i] == p[i - 1] && q[j] == p[j - 1]);
            }
        }
        q
    }
}

/// There is such an order: it lists every position once, lower keys first and equal keys in the
/// order of their positions.
pub proof fn law_stable_order_exists(keys: Seq<SortKey>)
    ensures
        lists_all(stable_order(keys), keys.len() as int),
        ordered(keys, stable_order(keys)),
{
    let q = lemma_order_upto(keys, keys.len() as int);
    assert(lists_all(q, keys.len() as int) && ordered(keys, q));
}

/// The items in the stable order of their keys.
pub open spec fn arranged(items: Seq<Value>, keys: Seq<SortKey>) -> Seq<Value> {
    let p = stable_order(keys);
    Seq::new(p.len(), |i: int| items[p[i]])
}

pub open spec fn key_views(keys: Seq<Option<Vec<u16>>>) -> Seq<SortKey> {
    keys.map_values(
        |k: Option<Vec<u16>>|
            match k {
                Some(u) => Some(u@),
                None => None,
            },
    )
}

fn is_key_below(keys: &Vec<Option<Vec<u16>>>, a: usize, b: usize) -> (r: bool)
    requires
        a < keys@.len(),
        b < keys@.len(),
    ensures
        r == key_below(key_views(keys@)[a as int], key_views(keys@)[b as int]),
{
    match &keys[a] {
        None => false,
        Some(x) => match &keys[b] {
            None => true,
            Some(y) => is_units_below(x, y),
        },
    }
}

pub open spec fn as_ints(p: Seq<usize>) -> Seq<int> {
    p.map_values(|x: usize| x as int)
}

/// `p` lists exactly the positions from `lo` to `hi`, in stable order.
spec fn run_of(keys: Seq<SortKey>, p: Seq<usize>, lo: int, hi: int) -> bool {
    &&& p.len() == hi - lo
    &&& forall|i: int| 0 <= i < p.len() ==> lo <= #[trigger] p[i] < hi
    &&& forall|k: int| lo <= k < hi ==> #[trigger] as_ints(p).contains(k)
    &&& forall|i: int, j: int|
        0 <= i < j < p.len() ==> before(keys, #[trigger] p[i] as int, #[trigger] p[j] as int)
}

/// Merges two neighbouring runs; among equal keys the left one goes first.
fn merge_runs(
    keys: &Vec<Option<Vec<u16>>>,
    a: &Vec<usize>,
    b: &Vec<usize>,
    Ghost(lo): Ghost<int>,
    Ghost(mid): Ghost<int>,
    Ghost(hi): Ghost<int>,
) -> (r: Vec<usize>)
    requires
        0 <= lo <= mid <= hi <= keys@.len(),
        run_of(key_views(keys@), a@, lo, mid),
        run_of(key_views(keys@), b@, mid, hi),
    ensures
        run_of(key_views(keys@), r@, lo, hi),
{
    let ghost ks = key_views(keys@);
    let mut out: Vec<usize> = Vec::new();
    let mut x: usize = 0;
    let mut y: usize = 0;
    while x < a.len() || y < b.len()
        invariant
            0 <= lo <= mid <= hi <= keys@.len(),
            ks == key_views(keys@),
            run_of(ks, a@, lo, mid),
            run_of(ks, b@, mid, hi),
            x <= a@.len(),
            y <= b@.len(),
            out@.len() == x + y,
            forall|i: int| 0 <= i < out@.len() ==> lo <= #[trigger] out@[i] < hi,
            forall|i: int| 0 <= i < x ==> #[trigger] as_ints(out@).contains(a@[i] as int),
            forall|i: int| 0 <= i < y ==> #[trigger] as_ints(out@).contains(b@[i] as int),
            forall|i: int, j: int|
                0 <= i < j < out@.len() ==> before(
                    ks,
                    #[trigger] out@[i] as int,
                    #[trigger] out@[j] as int,
                ),
            forall|i: int, j: int|
                0 <= i < out@.len() && x <= j < a@.len() ==> before(
                    ks,
                    #[trigger] out@[i] as int,
                    #[trigger] a@[j] as int,
                ),
            forall|i: int, j: int|
                0 <= i < out@.len() && y <= j < b@.len() ==> before(
                    ks,
                    #[trigger] out@[i] as int,
                    #[trigger] b@[j] as int,
                ),
        decreases a@.len() - x + b@.len() - y,
    {
        let take_left = if x >= a.len() {
            false
        } else if y >= b.len() {
            true
        } else {
            !is_key_below(keys, b[y], a[x])
        };
        let ghost was = out@;
        let next: usize = if take_left {
            a[x]
        } else {
            b[y]
        };
        proof {
            // The chosen position comes before everything that is left.
            if take_left {
                assert forall|j: int| y <= j < b@.len() implies before(
                    ks,
                    next as int,
                    #[trigger] b@[j] as int,
                ) by {
                    let f = b@[y as int] as int;
                    lemma_before(ks, next as int, f, b@[j] as int);
                    let e = Seq::<u16>::empty();
                    let kx = if ks[next as int] is Some { ks[next as int]->0 } else { e };
                    let ky = if ks[f] is Some { ks[f]->0 } else { e };
                    law_unit_order(kx, ky, e);
                    law_unit_order(ky, kx, e);
                    assert(before(ks, next as int, f));
                    if j > y {
                        assert(before(ks, f, b@[j] as int));
                    }
                }
                assert forall|j: int| x < j < a@.len() implies before(
                    ks,
                    next as int,
                    #[trigger] a@[j] as int,
                ) by {
                    assert(before(ks, a@[x as int] as int, a@[j] as int));
                }
            } else {
                assert forall|j: int| x <= j < a@.len() implies before(
                    ks,
                    next as int,
                    #[trigger] a@[j] as int,
                ) by {
                    let f = a@[x as int] as int;
                    lemma_before(ks, next as int, f, a@[j] as int);
                    assert(before(ks, next as int, f));
                    if j > x {
                        assert(before(ks, f, a@[j] as int));
                    }
                }
                assert forall|j: int| y < j < b@.len() implies before(
                    ks,
                    next as int,
                    #[trigger] b@[j] as int,
                ) by {
                    assert(before(ks, b@[y as int] as int, b@[j] as int));
                }
            }
        }
        out.push(next);
        proof {
            assert forall|k: int| #[trigger] as_ints(was).contains(k) implies as_ints(out@).contains(
                k,
            ) by {
                let i = choose|i: int| 0 <= i < as_ints(was).len() && as_ints(was)[i] == k;
                assert(as_ints(out@)[i] == k);
            }
            assert(as_ints(out@)[was.len() as int] == next);
            assert(as_ints(out@).contains(next as int));
            assert forall|i: int| 0 <= i < x implies #[trigger] as_ints(out@).contains(
                a@[i] as int,
            ) by {
                assert(as_ints(was).contains(a@[i] as int));
            }
            assert forall|i: int| 0 <= i < y implies #[trigger] as_ints(out@).contains(
                b@[i] as int,
            ) by {
                assert(as_ints(was).contains(b@[i] as int));
            }
        }
        if take_left {
            x += 1;
        } else {
            y += 1;
        }
    }
    proof {
        assert forall|k: int| lo <= k < hi implies #[trigger] as_ints(out@).contains(k) by {
            if k < mid {
                assert(as_ints(a@).contains(k));
                let i = choose|i: int| 0 <= i < as_ints(a@).len() && as_ints(a@)[i] == k;
                assert(as_ints(out@).contains(a@[i] as int));
            } else {
                assert(as_ints(b@).contains(k));
                let i = choose|i: int| 0 <= i < as_ints(b@).len() && as_ints(b@)[i] == k;
                assert(as_ints(out@).contains(b@[i] as int));
            }
        }
    }
    out
}

/// The stable order of the positions from `lo` to `hi`.
fn sort_run(keys: &Vec<Option<Vec<u16>>>, lo: usize, hi: usize) -> (r: Vec<usize>)
    requires
        lo <= hi <= keys@.len(),
    ensures
        run_of(key_views(keys@), r@, lo as int, hi as int),
    decreases hi - lo,
{
    if hi - lo <= 1 {
        let mut out: Vec<usize> = Vec::new();
        if hi > lo {
            out.push(lo);
            assert(as_ints(out@)[0] == lo);
        }
        assert forall|k: int| lo <= k < hi implies #[trigger] as_ints(out@).contains(k) by {
            assert(as_ints(out@)[0] == k);
        }
        return out;
    }
    let mid: usize = lo + (hi - lo) / 2;
    let a: Vec<usize> = sort_run(keys, lo, mid);
    let b: Vec<usize> = sort_run(keys, mid, hi);
    merge_runs(keys, &a, &b, Ghost(lo as int), Ghost(mid as int), Ghost(hi as int))
}

/// The items in the stable order of their precomputed keys.
pub fn merge_sort_with_keys(items: &Vec<Value>, keys: &Vec<Option<Vec<u16>>>) -> (r: Vec<Value>)
    requires
        items@.len() == keys@.len(),
    ensures
        r@ == arranged(items@, key_views(keys@)),
{
    let n: usize = items.len();
    let order: Vec<usize> = sort_run(keys, 0, n);
    let ghost ks = key_views(keys@);
    let ghost p = as_ints(order@);
    proof {
        assert(lists_all(p, n as int));
        assert forall|i: int, j: int| 0 <= i < j < p.len() implies before(
            ks,
            #[trigger] p[i],
            #[trigger] p[j],
        ) by {
            assert(before(ks, order@[i] as int, order@[j] as int));
        }
        assert(ordered(ks, p));
        let q = stable_order(ks);
        law_stable_order_is_unique(ks, p, q);
    }
    let mut out: Vec<Value> = Vec::new();
    let mut i: usize = 0;
    while i < n
        invariant
            i <= n,
            n == items@.len(),
            order@.len() == n,
            p == as_ints(order@),
            forall|k: int| 0 <= k < n ==> #[trigger] order@[k] < n,
            out@.len() == i,
            forall|k: int| 0 <= k < i ==> #[trigger] out@[k] == items@[p[k]],
        decreases n - i,
    {
        out.push(items[order[i]]);
        i += 1;
    }
    assert(out@ =~= arranged(items@, ks));
    out
}

// Comparing values

/// Whether `a` must go behind `b`: undefined goes behind everything else, then the comparator or
/// the strings decide.
pub open spec fn goes_behind(w: World, order: Value, a: Value, b: Value) -> Outcome<bool> {
    if a == Value::Undefined {
        (w, Ok(b != Value::Undefined))
    } else if b == Value::Undefined {
        (w, Ok(false))
    } else if order.callable() {
        let (w, r) = w.call(order, Value::Undefined, seq![a, b]);
        match r {
            Err(e) => (w, Err(e)),
            Ok(r) => {
                let (w, n) = w.number(r);
                match n {
                    Err(e) => (w, Err(e)),
                    Ok(n) => (w, Ok(num::less(0, n))),
                }
            },
        }
    } else {
        let (w, sa) = w.text(a);
        match sa {
            Err(e) => (w, Err(e)),
            Ok(sa) => {
                let (w, sb) = w.text(b);
                match sb {
                    Err(e) => (w, Err(e)),
                    Ok(sb) => (w, Ok(units_below(w.units(sb), w.units(sa)))),
                }
            },
        }
    }
}

fn must_go_behind(i: &mut Interp, order: Value, a: Value, b: Value) -> (r: Result<bool, Value>)
    ensures
        (final(i)@, r) == goes_behind(old(i)@, order, a, b),
{
    // `undefined` always sorts to the end.
    if a.is_undefined() {
        return Ok(!b.is_undefined());
    }
    if b.is_undefined() {
        return Ok(false);
    }
    if order.is_callable() {
        let list = vec![a, b];
        assert(list@ =~= seq![a, b]);
        let r = i.call(order, Value::Undefined, list)?;
        let n: u64 = i.to_number(r)?;
        return Ok(num::is_less(0, n));
    }
    let sa: u64 = i.to_text(a)?;
    let sb: u64 = i.to_text(b)?;
    let ua = i.units(sa);
    let ub = i.units(sb);
    Ok(is_units_below(&ub, &ua))
}

// Merging with a comparator

/// How far it is from `a` up to `b`.
pub open spec fn gap(a: int, b: int) -> nat {
    if a < b {
        (b - a) as nat
    } else {
        0
    }
}

/// The rest of merging `src[left..mid]` with `src[right..end]` behind `out`.
pub open spec fn merged(
    w: World,
    order: Value,
    src: Seq<Value>,
    left: int,
    mid: int,
    right: int,
    end: int,
    out: Seq<Value>,
) -> Outcome<Seq<Value>>
    decreases gap(left, mid) + gap(right, end),
{
    if left < mid && right < end {
        let (w1, g) = goes_behind(w, order, src[left], src[right]);
        match g {
            Err(e) => (w1, Err(e)),
            Ok(false) => merged(w1, order, src, left + 1, mid, right, end, out.push(src[left])),
            Ok(true) => merged(w1, order, src, left, mid, right + 1, end, out.push(src[right])),
        }
    } else if left < mid {
        merged(w, order, src, left + 1, mid, right, end, out.push(src[left]))
    } else if right < end {
        merged(w, order, src, left, mid, right + 1, end, out.push(src[right]))
    } else {
        (w, Ok(out))
    }
}

pub open spec fn at_most(a: int, b: int) -> int {
    if a < b {
        a
    } else {
        b
    }
}

/// The rest of one pass over runs of `width`, from `start` on.
pub open spec fn passed(w: World, order: Value, src: Seq<Value>, width: int, start: int, out: Seq<Value>) -> Outcome<
    Seq<Value>,
>
    decreases src.len() - start,
{
    let n = src.len() as int;
    if start >= n || width <= 0 {
        (w, Ok(out))
    } else {
        let mid = at_most(start + width, n);
        let end = at_most(mid + width, n);
        let (w1, m) = merged(w, order, src, start, mid, mid, end, out);
        match m {
            Err(e) => (w1, Err(e)),
            Ok(m) => passed(w1, order, src, width, end, m),
        }
    }
}

/// The passes from runs of `width` on.
pub open spec fn sorted_from(w: World, order: Value, src: Seq<Value>, width: int, passes: nat) -> Outcome<
    Seq<Value>,
>
    decreases passes,
{
    let (w1, dst) = passed(w, order, src, width, 0, Seq::empty());
    match dst {
        Err(e) => (w1, Err(e)),
        Ok(dst) => if 2 * width >= src.len() || passes == 0 {
            (w1, Ok(dst))
        } else {
            sorted_from(w1, order, dst, width * 2, (passes - 1) as nat)
        },
    }
}

/// The sort keys of primitive items from `j` on; none where an item is an object or a symbol,
/// whose comparison may run code or throw.
pub open spec fn keys_from(w: World, items: Seq<Value>, j: int, acc: Seq<SortKey>) -> Outcome<
    Option<Seq<SortKey>>,
>
    decreases items.len() - j,
{
    if j < 0 || j >= items.len() {
        (w, Ok(Some(acc)))
    } else {
        match items[j] {
            Value::Undefined => keys_from(w, items, j + 1, acc.push(None)),
            Value::Obj(_) => (w, Ok(None)),
            Value::Sym(_) => (w, Ok(None)),
            _ => {
                let (w1, s) = w.text(items[j]);
                match s {
                    Err(e) => (w1, Err(e)),
                    Ok(s) => keys_from(w1, items, j + 1, acc.push(Some(w1.units(s)))),
                }
            },
        }
    }
}

/// The items sorted: by precomputed keys where there is no comparator and no item could run code,
/// otherwise by merging runs of doubling width.
pub open spec fn sorted(w: World, items: Seq<Value>, order: Value) -> Outcome<Seq<Value>> {
    if items.len() <= 1 {
        (w, Ok(items))
    } else {
        let (w, keys) = if order.callable() {
            (w, Ok(None))
        } else {
            keys_from(w, items, 0, Seq::empty())
        };
        match keys {
            Err(e) => (w, Err(e)),
            Ok(Some(keys)) => (w, Ok(arranged(items, keys))),
            Ok(None) => sorted_from(w, order, items, 1, items.len()),
        }
    }
}

fn default_sort_keys(i: &mut Interp, items: &Vec<Value>) -> (r: Result<
    Option<Vec<Option<Vec<u16>>>>,
    Value,
>)
    ensures
        final(i)@ == keys_from(old(i)@, items@, 0, Seq::empty()).0,
        match r {
            Ok(Some(k)) => k@.len() == items@.len() && keys_from(
                old(i)@,
                items@,
                0,
                Seq::empty(),
            ).1 == Ok::<Option<Seq<SortKey>>, Value>(Some(key_views(k@))),
            Ok(None) => keys_from(old(i)@, items@, 0, Seq::empty()).1 == Ok::<
                Option<Seq<SortKey>>,
                Value,
            >(None),
            Err(e) => keys_from(old(i)@, items@, 0, Seq::empty()).1 == Err::<
                Option<Seq<SortKey>>,
                Value,
            >(e),
        },
{
    let mut keys: Vec<Option<Vec<u16>>> = Vec::new();
    let mut j: usize = 0;
    assert(key_views(keys@) =~= Seq::<SortKey>::empty());
    while j < items.len()
        invariant
            j <= items@.len(),
            keys@.len() == j,
            keys_from(old(i)@, items@, 0, Seq::empty()) == keys_from(
                i@,
                items@,
                j as int,
                key_views(keys@),
            ),
        decreases items@.len() - j,
    {
        let ghost was = keys@;
        match items[j] {
            Value::Undefined => {
                keys.push(None);
                assert(key_views(keys@) =~= key_views(was).push(None));
            },
            // Objects may invoke user-defined coercion; Symbols throw from ToString. Preserve the
            // ordinary comparator so its exact completion behavior remains observable.
            Value::Obj(_) => return Ok(None),
            Value::Sym(_) => return Ok(None),
            _ => {
                let s: u64 = i.to_text(items[j])?;
                let u = i.units(s);
                let ghost uv = u@;
                keys.push(Some(u));
                assert(key_views(keys@) =~= key_views(was).push(Some(uv)));
            },
        }
        j += 1;
    }
    Ok(Some(keys))
}

fn merge_into(
    i: &mut Interp,
    order: Value,
    src: &Vec<Value>,
    start: usize,
    mid: usize,
    end: usize,
    out: &mut Vec<Value>,
) -> (r: Result<(), Value>)
    requires
        start <= mid <= end <= src@.len(),
    ensures
        final(i)@ == merged(
            old(i)@,
            order,
            src@,
            start as int,
            mid as int,
            mid as int,
            end as int,
            old(out)@,
        ).0,
        match r {
            Ok(_) => merged(
                old(i)@,
                order,
                src@,
                start as int,
                mid as int,
                mid as int,
                end as int,
                old(out)@,
            ).1 == Ok::<Seq<Value>, Value>(final(out)@),
            Err(e) => merged(
                old(i)@,
                order,
                src@,
                start as int,
                mid as int,
                mid as int,
                end as int,
                old(out)@,
            ).1 == Err::<Seq<Value>, Value>(e),
        },
{
    let mut left: usize = start;
    let mut right: usize = mid;
    while left < mid || right < end
        invariant
            left <= mid <= right <= end <= src@.len(),
            merged(
                old(i)@,
                order,
                src@,
                start as int,
                mid as int,
                mid as int,
                end as int,
                old(out)@,
            ) == merged(
                i@,
                order,
                src@,
                left as int,
                mid as int,
                right as int,
                end as int,
                out@,
            ),
        decreases (mid - left) + (end - right),
    {
        let take_right = if left < mid && right < end {
            must_go_behind(i, order, src[left], src[right])?
        } else {
            left >= mid
        };
        if take_right {
            out.push(src[right]);
            right += 1;
        } else {
            out.push(src[left]);
            left += 1;
        }
    }
    Ok(())
}

fn run_pass(i: &mut Interp, order: Value, src: &Vec<Value>, width: usize) -> (r: Result<
    Vec<Value>,
    Value,
>)
    requires
        width > 0,
    ensures
        final(i)@ == passed(old(i)@, order, src@, width as int, 0, Seq::empty()).0,
        match r {
            Ok(d) => passed(old(i)@, order, src@, width as int, 0, Seq::empty()).1 == Ok::<
                Seq<Value>,
                Value,
            >(d@),
            Err(e) => passed(old(i)@, order, src@, width as int, 0, Seq::empty()).1 == Err::<
                Seq<Value>,
                Value,
            >(e),
        },
{
    let n: usize = src.len();
    let mut out: Vec<Value> = Vec::new();
    let mut start: usize = 0;
    assert(out@ =~= Seq::<Value>::empty());
    while start < n
        invariant
            start <= n,
            n == src@.len(),
            width > 0,
            passed(old(i)@, order, src@, width as int, 0, Seq::empty()) == passed(
                i@,
                order,
                src@,
                width as int,
                start as int,
                out@,
            ),
        decreases n - start,
    {
        let mid: usize = if width < n - start {
            start + width
        } else {
            n
        };
        let end: usize = if width < n - mid {
            mid + width
        } else {
            n
        };
        merge_into(i, order, src, start, mid, end, &mut out)?;
        start = end;
    }
    Ok(out)
}

proof fn lemma_merged_len(
    w: World,
    order: Value,
    src: Seq<Value>,
    left: int,
    mid: int,
    right: int,
    end: int,
    out: Seq<Value>,
)
    requires
        0 <= left <= mid <= src.len(),
        0 <= right <= end <= src.len(),
    ensures
        merged(w, order, src, left, mid, right, end, out).1 matches Ok(m) ==> m.len() == out.len() + (
        mid - left) + (end - right) && m.to_multiset() == out.to_multiset().add(
            src.subrange(left, mid).to_multiset(),
        ).add(src.subrange(right, end).to_multiset()),
    decreases (mid - left) + (end - right),
{
    broadcast use vstd::seq_lib::group_to_multiset_ensures;

    if left < mid && right < end {
        let (w1, g) = goes_behind(w, order, src[left], src[right]);
        if let Ok(b) = g {
            if b {
                lemma_merged_len(w1, order, src, left, mid, right + 1, end, out.push(src[right]));
                lemma_front_multiset(src, right, end);
            } else {
                lemma_merged_len(w1, order, src, left + 1, mid, right, end, out.push(src[left]));
                lemma_front_multiset(src, left, mid);
            }
            let m = merged(w, order, src, left, mid, right, end, out).1;
            if let Ok(m) = m {
                assert(m.to_multiset() =~= out.to_multiset().add(
                    src.subrange(left, mid).to_multiset(),
                ).add(src.subrange(right, end).to_multiset()));
            }
        }
    } else if left < mid {
        lemma_merged_len(w, order, src, left + 1, mid, right, end, out.push(src[left]));
        lemma_front_multiset(src, left, mid);
        let m = merged(w, order, src, left, mid, right, end, out).1;
        if let Ok(m) = m {
            assert(m.to_multiset() =~= out.to_multiset().add(
                src.subrange(left, mid).to_multiset(),
            ).add(src.subrange(right, end).to_multiset()));
        }
    } else if right < end {
        lemma_merged_len(w, order, src, left, mid, right + 1, end, out.push(src[right]));
        lemma_front_multiset(src, right, end);
        let m = merged(w, order, src, left, mid, right, end, out).1;
        if let Ok(m) = m {
            assert(m.to_multiset() =~= out.to_multiset().add(
                src.subrange(left, mid).to_multiset(),
            ).add(src.subrange(right, end).to_multiset()));
        }
    } else {
        assert(src.subrange(left, mid) =~= Seq::empty());
        assert(src.subrange(right, end) =~= Seq::empty());
        assert(out.to_multiset() =~= out.to_multiset().add(
            src.subrange(left, mid).to_multiset(),
        ).add(src.subrange(right, end).to_multiset()));
    }
}

proof fn lemma_front_multiset(src: Seq<Value>, a: int, b: int)
    requires
        0 <= a < b <= src.len(),
    ensures
        src.subrange(a, b).to_multiset() == src.subrange(a + 1, b).to_multiset().insert(src[a]),
{
    broadcast use vstd::seq_lib::group_to_multiset_ensures;

    let rest = src.subrange(a + 1, b);
    assert(src.subrange(a, b) =~= seq![src[a]] + rest);
    vstd::seq_lib::lemma_multiset_commutative(seq![src[a]], rest);
    assert(seq![src[a]] =~= Seq::<Value>::empty().push(src[a]));
    assert((seq![src[a]] + rest).to_multiset() =~= rest.to_multiset().insert(src[a]));
}

proof fn lemma_passed(w: World, order: Value, src: Seq<Value>, width: int, start: int, out: Seq<Value>)
    requires
        width > 0,
        0 <= start <= src.len(),
    ensures
        passed(w, order, src, width, start, out).1 matches Ok(m) ==> m.len() == out.len() + (src.len()
            - start) && m.to_multiset() == out.to_multiset().add(src.skip(start).to_multiset()),
    decreases src.len() - start,
{
    broadcast use vstd::seq_lib::group_to_multiset_ensures;

    let n = src.len() as int;
    if start >= n {
        assert(src.skip(start) =~= Seq::empty());
        assert(out.to_multiset() =~= out.to_multiset().add(src.skip(start).to_multiset()));
    } else {
        let mid = at_most(start + width, n);
        let end = at_most(mid + width, n);
        lemma_merged_len(w, order, src, start, mid, mid, end, out);
        let (w1, m) = merged(w, order, src, start, mid, mid, end, out);
        if let Ok(m) = m {
            lemma_passed(w1, order, src, width, end, m);
            let a = src.subrange(start, mid);
            let b = src.subrange(mid, end);
            let c = src.skip(end);
            assert(src.skip(start) =~= a + (b + c));
            vstd::seq_lib::lemma_multiset_commutative(a, b + c);
            vstd::seq_lib::lemma_multiset_commutative(b, c);
            if let Ok(d) = passed(w, order, src, width, start, out).1 {
                assert(d.to_multiset() =~= out.to_multiset().add(src.skip(start).to_multiset()));
            }
        }
    }
}

/// A sort without keys rearranges the items and neither loses nor invents one.
pub proof fn law_sort_rearranges(w: World, order: Value, src: Seq<Value>, width: int, passes: nat)
    requires
        width > 0,
    ensures
        sorted_from(w, order, src, width, passes).1 matches Ok(m) ==> m.len() == src.len()
            && m.to_multiset() == src.to_multiset(),
    decreases passes,
{
    broadcast use vstd::seq_lib::group_to_multiset_ensures;

    lemma_passed(w, order, src, width, 0, Seq::empty());
    assert(src.skip(0) =~= src);
    let (w1, dst) = passed(w, order, src, width, 0, Seq::empty());
    if let Ok(dst) = dst {
        assert(dst.to_multiset() =~= src.to_multiset());
        if !(2 * width >= src.len() || passes == 0) {
            law_sort_rearranges(w1, order, dst, width * 2, (passes - 1) as nat);
        }
    }
}

/// Sorts the items. SortIndexedProperties permits any stable implementation-defined comparison
/// sequence; an abrupt comparator completion leaves the given items untouched.
pub fn merge_sort(i: &mut Interp, items: Vec<Value>, order: Value) -> (r: Result<Vec<Value>, Value>)
    ensures
        final(i)@ == sorted(old(i)@, items@, order).0,
        match r {
            Ok(s) => sorted(old(i)@, items@, order).1 == Ok::<Seq<Value>, Value>(s@),
            Err(e) => sorted(old(i)@, items@, order).1 == Err::<Seq<Value>, Value>(e),
        },
{
    let n: usize = items.len();
    if n <= 1 {
        return Ok(items);
    }
    // Primitive values have no user code in ToString, so precompute their stable sort keys once.
    if !order.is_callable() {
        if let Some(keys) = default_sort_keys(i, &items)? {
            return Ok(merge_sort_with_keys(&items, &keys));
        }
    }
    let mut src: Vec<Value> = items;
    let mut width: usize = 1;
    let ghost mut passes: nat = n as nat;
    loop
        invariant
            n == src@.len(),
            n == items@.len(),
            width > 0,
            width + passes > n,
            width <= n,
            sorted(old(i)@, items@, order) == sorted_from(
                i@,
                order,
                src@,
                width as int,
                passes,
            ),
        decreases n - width,
    {
        proof {
            lemma_passed(i@, order, src@, width as int, 0, Seq::empty());
        }
        src = run_pass(i, order, &src, width)?;
        if width >= n - width {
            return Ok(src);
        }
        width = width * 2;
        proof {
            passes = (passes - 1) as nat;
        }
    }
}

// What a comparator sort promises

/// An order by which values may be sorted: `behind(a, b)` says that `a` must go behind `b`.
pub open spec fn weak_order(behind: spec_fn(Value, Value) -> bool) -> bool {
    &&& forall|a: Value, b: Value| #[trigger] behind(a, b) ==> !behind(b, a)
    &&& forall|a: Value, b: Value, c: Value|
        #![trigger behind(a, b), behind(b, c)]
        !behind(a, b) && !behind(b, c) ==> !behind(a, c)
}

/// Position `a` comes before position `b`: by the order, and by position among equals.
pub open spec fn precedes(
    items: Seq<Value>,
    behind: spec_fn(Value, Value) -> bool,
    a: int,
    b: int,
) -> bool {
    behind(items[b], items[a]) || (!behind(items[a], items[b]) && a < b)
}

proof fn lemma_precedes(
    items: Seq<Value>,
    behind: spec_fn(Value, Value) -> bool,
    a: int,
    b: int,
    c: int,
)
    requires
        weak_order(behind),
    ensures
        precedes(items, behind, a, b) ==> !precedes(items, behind, b, a),
        a != b ==> precedes(items, behind, a, b) || precedes(items, behind, b, a),
        precedes(items, behind, a, b) && precedes(items, behind, b, c) ==> precedes(
            items,
            behind,
            a,
            c,
        ),
{
    let x = items[a];
    let y = items[b];
    let z = items[c];
    assert(behind(x, y) ==> !behind(y, x));
    assert(behind(y, x) ==> !behind(x, y));
    assert(behind(y, z) ==> !behind(z, y));
    assert(behind(z, y) ==> !behind(y, z));
    assert(behind(x, z) ==> !behind(z, x));
    assert(!behind(x, y) && !behind(y, z) ==> !behind(x, z));
    assert(!behind(y, z) && !behind(z, x) ==> !behind(y, x));
    assert(!behind(z, x) && !behind(x, y) ==> !behind(z, y));
}

/// Every comparison of a merge is answered by the order.
pub open spec fn merge_agrees(
    w: World,
    order: Value,
    behind: spec_fn(Value, Value) -> bool,
    src: Seq<Value>,
    left: int,
    mid: int,
    right: int,
    end: int,
) -> bool
    decreases gap(left, mid) + gap(right, end),
{
    if left < mid && right < end {
        let (w1, g) = goes_behind(w, order, src[left], src[right]);
        &&& g == Ok::<bool, Value>(behind(src[left], src[right]))
        &&& if behind(src[left], src[right]) {
            merge_agrees(w1, order, behind, src, left, mid, right + 1, end)
        } else {
            merge_agrees(w1, order, behind, src, left + 1, mid, right, end)
        }
    } else {
        true
    }
}

/// Every comparison of a pass is answered by the order.
pub open spec fn pass_agrees(
    w: World,
    order: Value,
    behind: spec_fn(Value, Value) -> bool,
    src: Seq<Value>,
    width: int,
    start: int,
    out: Seq<Value>,
) -> bool
    decreases src.len() - start,
{
    let n = src.len() as int;
    if start >= n || width <= 0 {
        true
    } else {
        let mid = at_most(start + width, n);
        let end = at_most(mid + width, n);
        let (w1, m) = merged(w, order, src, start, mid, mid, end, out);
        &&& merge_agrees(w, order, behind, src, start, mid, mid, end)
        &&& match m {
            Err(_) => true,
            Ok(m) => pass_agrees(w1, order, behind, src, width, end, m),
        }
    }
}

/// Every comparison of a sort is answered by the order.
pub open spec fn sort_agrees(
    w: World,
    order: Value,
    behind: spec_fn(Value, Value) -> bool,
    src: Seq<Value>,
    width: int,
    passes: nat,
) -> bool
    decreases passes,
{
    let (w1, dst) = passed(w, order, src, width, 0, Seq::empty());
    &&& pass_agrees(w, order, behind, src, width, 0, Seq::empty())
    &&& match dst {
        Err(_) => true,
        Ok(dst) => if 2 * width >= src.len() || passes == 0 {
            true
        } else {
            sort_agrees(w1, order, behind, dst, width * 2, (passes - 1) as nat)
        },
    }
}

/// The values are the items at the listed positions.
spec fn picks(items: Seq<Value>, src: Seq<Value>, p: Seq<int>) -> bool {
    &&& src.len() == p.len()
    &&& forall|j: int| 0 <= j < p.len() ==> #[trigger] src[j] == items[p[j]]
}

/// From `s` to `e` the list holds exactly the positions from `s` to `e`, in order.
spec fn run_at(
    items: Seq<Value>,
    behind: spec_fn(Value, Value) -> bool,
    p: Seq<int>,
    s: int,
    e: int,
) -> bool {
    &&& forall|j: int| s <= j < e ==> s <= #[trigger] p[j] < e
    &&& forall|k: int| s <= k < e ==> listed(p, s, e, k)
    &&& forall|i: int, j: int|
        s <= i < j < e ==> precedes(items, behind, #[trigger] p[i], #[trigger] p[j])
}

spec fn listed(p: Seq<int>, s: int, e: int, k: int) -> bool {
    exists|j: int| s <= j < e && #[trigger] p[j] == k
}

/// From `start` on the list is made of runs of a width.
spec fn runs_from(
    items: Seq<Value>,
    behind: spec_fn(Value, Value) -> bool,
    p: Seq<int>,
    width: int,
    start: int,
) -> bool
    decreases p.len() - start,
{
    let n = p.len() as int;
    if start >= n || width <= 0 {
        true
    } else {
        let end = at_most(start + width, n);
        run_at(items, behind, p, start, end) && runs_from(items, behind, p, width, end)
    }
}

proof fn lemma_run_prefix(
    items: Seq<Value>,
    behind: spec_fn(Value, Value) -> bool,
    p: Seq<int>,
    q: Seq<int>,
    s: int,
    e: int,
)
    requires
        run_at(items, behind, p, s, e),
        0 <= s <= e <= p.len() <= q.len(),
        q.take(p.len() as int) == p,
    ensures
        run_at(items, behind, q, s, e),
{
    assert forall|j: int| 0 <= j < p.len() implies q[j] == p[j] by {
        assert(q.take(p.len() as int)[j] == q[j]);
    }
    assert forall|k: int| s <= k < e implies listed(q, s, e, k) by {
        assert(listed(p, s, e, k));
        let j = choose|j: int| s <= j < e && #[trigger] p[j] == k;
        assert(q[j] == k);
    }
    assert forall|j: int| s <= j < e implies s <= #[trigger] q[j] < e by {
        assert(q[j] == p[j]);
    }
    assert forall|i: int, j: int| s <= i < j < e implies precedes(
        items,
        behind,
        #[trigger] q[i],
        #[trigger] q[j],
    ) by {
        assert(q[i] == p[i] && q[j] == p[j]);
        assert(precedes(items, behind, p[i], p[j]));
    }
}

/// How far a merge has come: `po` lists the positions that have been written from `s` on.
spec fn merging(
    items: Seq<Value>,
    behind: spec_fn(Value, Value) -> bool,
    p: Seq<int>,
    po: Seq<int>,
    s: int,
    left: int,
    mid: int,
    right: int,
    end: int,
) -> bool {
    &&& po.len() == left + (right - mid)
    &&& forall|j: int| s <= j < po.len() ==> s <= #[trigger] po[j] < end
    &&& forall|j: int| s <= j < left ==> listed(po, s, po.len() as int, #[trigger] p[j])
    &&& forall|j: int| mid <= j < right ==> listed(po, s, po.len() as int, #[trigger] p[j])
    &&& forall|i: int, j: int|
        s <= i < j < po.len() ==> precedes(items, behind, #[trigger] po[i], #[trigger] po[j])
    &&& forall|i: int, j: int|
        s <= i < po.len() && left <= j < mid ==> precedes(
            items,
            behind,
            #[trigger] po[i],
            #[trigger] p[j],
        )
    &&& forall|i: int, j: int|
        s <= i < po.len() && right <= j < end ==> precedes(
            items,
            behind,
            #[trigger] po[i],
            #[trigger] p[j],
        )
}

/// Writing the next position keeps the list in order.
proof fn lemma_written(
    items: Seq<Value>,
    behind: spec_fn(Value, Value) -> bool,
    p: Seq<int>,
    po: Seq<int>,
    s: int,
    left: int,
    mid: int,
    right: int,
    end: int,
    from_left: bool,
)
    requires
        weak_order(behind),
        0 <= s <= left <= mid <= right <= end <= p.len(),
        run_at(items, behind, p, s, mid),
        run_at(items, behind, p, mid, end),
        merging(items, behind, p, po, s, left, mid, right, end),
        from_left ==> left < mid && (right < end ==> !behind(items[p[left]], items[p[right]])),
        !from_left ==> right < end && (left < mid ==> behind(items[p[left]], items[p[right]])),
    ensures
        from_left ==> merging(items, behind, p, po.push(p[left]), s, left + 1, mid, right, end),
        !from_left ==> merging(items, behind, p, po.push(p[right]), s, left, mid, right + 1, end),
{
    let x = if from_left {
        p[left]
    } else {
        p[right]
    };
    let q = po.push(x);
    let l2 = if from_left {
        left + 1
    } else {
        left
    };
    let r2 = if from_left {
        right
    } else {
        right + 1
    };
    assert(s <= x < end);
    // What is written comes before everything that is left.
    assert forall|j: int| l2 <= j < mid implies precedes(items, behind, x, #[trigger] p[j]) by {
        if !from_left {
            let f = p[left];
            assert(precedes(items, behind, x, f));
            if j > left {
                assert(precedes(items, behind, f, p[j]));
                lemma_precedes(items, behind, x, f, p[j]);
            }
        }
    }
    assert forall|j: int| r2 <= j < end implies precedes(items, behind, x, #[trigger] p[j]) by {
        if from_left {
            let f = p[right];
            assert(p[left] < mid && mid <= p[right]);
            assert(precedes(items, behind, x, f));
            if j > right {
                assert(precedes(items, behind, f, p[j]));
                lemma_precedes(items, behind, x, f, p[j]);
            }
        }
    }
    assert forall|k: int| listed(po, s, po.len() as int, k) implies listed(
        q,
        s,
        q.len() as int,
        k,
    ) by {
        let j = choose|j: int| s <= j < po.len() && #[trigger] po[j] == k;
        assert(q[j] == k);
    }
    assert(q[po.len() as int] == x);
    assert(listed(q, s, q.len() as int, x));
    assert forall|j: int| s <= j < q.len() implies s <= #[trigger] q[j] < end by {
        if j < po.len() {
            assert(q[j] == po[j]);
        }
    }
    assert forall|i: int, j: int| s <= i < j < q.len() implies precedes(
        items,
        behind,
        #[trigger] q[i],
        #[trigger] q[j],
    ) by {
        assert(q[i] == po[i]);
        if j < po.len() {
            assert(q[j] == po[j]);
        } else if from_left {
            assert(precedes(items, behind, po[i], p[left]));
        } else {
            assert(precedes(items, behind, po[i], p[right]));
        }
    }
    assert forall|i: int, j: int| s <= i < q.len() && l2 <= j < mid implies precedes(
        items,
        behind,
        #[trigger] q[i],
        #[trigger] p[j],
    ) by {
        if i < po.len() {
            assert(q[i] == po[i]);
            assert(precedes(items, behind, po[i], p[j]));
        }
    }
    assert forall|i: int, j: int| s <= i < q.len() && r2 <= j < end implies precedes(
        items,
        behind,
        #[trigger] q[i],
        #[trigger] p[j],
    ) by {
        if i < po.len() {
            assert(q[i] == po[i]);
            assert(precedes(items, behind, po[i], p[j]));
        }
    }
    assert forall|j: int| s <= j < l2 implies listed(q, s, q.len() as int, #[trigger] p[j]) by {
        if j < left {
            assert(listed(po, s, po.len() as int, p[j]));
        }
    }
    assert forall|j: int| mid <= j < r2 implies listed(q, s, q.len() as int, #[trigger] p[j]) by {
        if j < right {
            assert(listed(po, s, po.len() as int, p[j]));
        }
    }
}

/// Merging two neighbouring runs gives one.
proof fn lemma_merged_run(
    w: World,
    order: Value,
    items: Seq<Value>,
    behind: spec_fn(Value, Value) -> bool,
    src: Seq<Value>,
    p: Seq<int>,
    s: int,
    left: int,
    mid: int,
    right: int,
    end: int,
    out: Seq<Value>,
    po: Seq<int>,
) -> (q: Seq<int>)
    requires
        weak_order(behind),
        picks(items, src, p),
        picks(items, out, po),
        0 <= s <= left <= mid <= right <= end <= p.len(),
        run_at(items, behind, p, s, mid),
        run_at(items, behind, p, mid, end),
        merging(items, behind, p, po, s, left, mid, right, end),
        merge_agrees(w, order, behind, src, left, mid, right, end),
        s <= po.len(),
    ensures
        q.len() == end,
        q.take(s) == po.take(s),
        run_at(items, behind, q, s, end),
        merged(w, order, src, left, mid, right, end, out).1 matches Ok(m) ==> picks(items, m, q),
    decreases (mid - left) + (end - right),
{
    if left < mid && right < end {
        let (w1, _) = goes_behind(w, order, src[left], src[right]);
        if behind(src[left], src[right]) {
            lemma_written(items, behind, p, po, s, left, mid, right, end, false);
            let q = lemma_merged_run(
                w1,
                order,
                items,
                behind,
                src,
                p,
                s,
                left,
                mid,
                right + 1,
                end,
                out.push(src[right]),
                po.push(p[right]),
            );
            assert(po.push(p[right]).take(s) =~= po.take(s));
            q
        } else {
            lemma_written(items, behind, p, po, s, left, mid, right, end, true);
            let q = lemma_merged_run(
                w1,
                order,
                items,
                behind,
                src,
                p,
                s,
                left + 1,
                mid,
                right,
                end,
                out.push(src[left]),
                po.push(p[left]),
            );
            assert(po.push(p[left]).take(s) =~= po.take(s));
            q
        }
    } else if left < mid {
        lemma_written(items, behind, p, po, s, left, mid, right, end, true);
        let q = lemma_merged_run(
            w,
            order,
            items,
            behind,
            src,
            p,
            s,
            left + 1,
            mid,
            right,
            end,
            out.push(src[left]),
            po.push(p[left]),
        );
        assert(po.push(p[left]).take(s) =~= po.take(s));
        q
    } else if right < end {
        lemma_written(items, behind, p, po, s, left, mid, right, end, false);
        let q = lemma_merged_run(
            w,
            order,
            items,
            behind,
            src,
            p,
            s,
            left,
            mid,
            right + 1,
            end,
            out.push(src[right]),
            po.push(p[right]),
        );
        assert(po.push(p[right]).take(s) =~= po.take(s));
        q
    } else {
        assert forall|k: int| s <= k < end implies listed(po, s, end, k) by {
            if k < mid {
                assert(listed(p, s, mid, k));
                let j = choose|j: int| s <= j < mid && #[trigger] p[j] == k;
                assert(listed(po, s, po.len() as int, p[j]));
            } else {
                assert(listed(p, mid, end, k));
                let j = choose|j: int| mid <= j < end && #[trigger] p[j] == k;
                assert(listed(po, s, po.len() as int, p[j]));
            }
        }
        po
    }
}

/// A pass over runs of a width gives runs of twice the width.
proof fn lemma_passed_runs(
    w: World,
    order: Value,
    items: Seq<Value>,
    behind: spec_fn(Value, Value) -> bool,
    src: Seq<Value>,
    p: Seq<int>,
    width: int,
    start: int,
    out: Seq<Value>,
    po: Seq<int>,
) -> (q: Seq<int>)
    requires
        weak_order(behind),
        width > 0,
        picks(items, src, p),
        picks(items, out, po),
        0 <= start <= p.len(),
        po.len() == start,
        runs_from(items, behind, p, width, start),
        pass_agrees(w, order, behind, src, width, start, out),
        passed(w, order, src, width, start, out).1 is Ok,
    ensures
        q.len() == p.len(),
        q.take(start) == po,
        runs_from(items, behind, q, 2 * width, start),
        passed(w, order, src, width, start, out).1 matches Ok(m) ==> picks(items, m, q),
    decreases p.len() - start,
{
    let n = src.len() as int;
    if start >= n {
        assert(po.take(start) =~= po);
        po
    } else {
        let mid = at_most(start + width, n);
        let end = at_most(mid + width, n);
        let (w1, m) = merged(w, order, src, start, mid, mid, end, out);
        let m = m->Ok_0;
        assert(runs_from(items, behind, p, width, mid));
        assert(run_at(items, behind, p, mid, end));
        let pm = lemma_merged_run(
            w,
            order,
            items,
            behind,
            src,
            p,
            start,
            start,
            mid,
            mid,
            end,
            out,
            po,
        );
        assert(runs_from(items, behind, p, width, end));
        let q = lemma_passed_runs(
            w1,
            order,
            items,
            behind,
            src,
            p,
            width,
            end,
            m,
            pm,
        );
        lemma_run_prefix(items, behind, pm, q, start, end);
        assert(q.take(start) =~= po) by {
            assert(po.take(start) =~= po);
            assert forall|j: int| 0 <= j < start implies q[j] == po[j] by {
                assert(q.take(end)[j] == q[j]);
                assert(pm.take(start)[j] == pm[j]);
            }
        }
        q
    }
}

proof fn lemma_sorted_from(
    w: World,
    order: Value,
    items: Seq<Value>,
    behind: spec_fn(Value, Value) -> bool,
    src: Seq<Value>,
    p: Seq<int>,
    width: int,
    passes: nat,
) -> (q: Seq<int>)
    requires
        weak_order(behind),
        width > 0,
        width + passes > src.len(),
        src.len() > 0,
        p.len() == items.len(),
        picks(items, src, p),
        runs_from(items, behind, p, width, 0),
        sort_agrees(w, order, behind, src, width, passes),
        sorted_from(w, order, src, width, passes).1 is Ok,
    ensures
        sorted_from(w, order, src, width, passes).1 matches Ok(m) ==> picks(items, m, q),
        q.len() == items.len(),
        run_at(items, behind, q, 0, items.len() as int),
    decreases passes,
{
    let (w1, dst) = passed(w, order, src, width, 0, Seq::empty());
    let dst = dst->Ok_0;
    let q = lemma_passed_runs(
        w,
        order,
        items,
        behind,
        src,
        p,
        width,
        0,
        Seq::empty(),
        Seq::empty(),
    );
    if 2 * width >= src.len() || passes == 0 {
        q
    } else {
        lemma_sorted_from(w1, order, items, behind, dst, q, width * 2, (passes - 1) as nat)
    }
}

/// The positions in their place are runs of one.
proof fn lemma_single_runs(
    items: Seq<Value>,
    behind: spec_fn(Value, Value) -> bool,
    p: Seq<int>,
    start: int,
)
    requires
        0 <= start <= p.len(),
        forall|j: int| 0 <= j < p.len() ==> #[trigger] p[j] == j,
    ensures
        runs_from(items, behind, p, 1, start),
    decreases p.len() - start,
{
    if start < p.len() {
        lemma_single_runs(items, behind, p, start + 1);
        assert(p[start] == start);
        assert forall|k: int| start <= k < start + 1 implies #[trigger] listed(p, start, start + 1, k) by {
            assert(p[start] == k);
        }
    }
}

/// `q` lists the places that the sorted values had among the items: each once, no value before one
/// that must go in front of it, and equal values in their old order.
pub open spec fn stably_sorted(
    items: Seq<Value>,
    behind: spec_fn(Value, Value) -> bool,
    out: Seq<Value>,
    q: Seq<int>,
) -> bool {
    &&& lists_all(q, items.len() as int)
    &&& out.len() == q.len()
    &&& forall|j: int| 0 <= j < q.len() ==> #[trigger] out[j] == items[q[j]]
    &&& forall|i: int, j: int|
        0 <= i < j < q.len() ==> precedes(items, behind, #[trigger] q[i], #[trigger] q[j])
}

/// Whether a sort compares values pair by pair: it does with a comparator, and without one where
/// the values have no texts that could be read beforehand.
pub open spec fn compares_pairs(w: World, order: Value, items: Seq<Value>) -> bool {
    order.callable() || keys_from(w, items, 0, Seq::empty()).1 == Ok::<
        Option<Seq<SortKey>>,
        Value,
    >(None)
}

/// The transcript at the first comparison.
pub open spec fn at_first_comparison(w: World, order: Value, items: Seq<Value>) -> World {
    if order.callable() {
        w
    } else {
        keys_from(w, items, 0, Seq::empty()).0
    }
}

/// The order by text: undefined goes last.
pub open spec fn text_behind(text: spec_fn(Value) -> Seq<u16>) -> spec_fn(Value, Value) -> bool {
    |a: Value, b: Value|
        if a == Value::Undefined {
            b != Value::Undefined
        } else {
            b != Value::Undefined && units_below(text(b), text(a))
        }
}

/// The order by text is one that values may be sorted by, whatever text each value has.
pub proof fn law_text_order_is_weak(text: spec_fn(Value) -> Seq<u16>)
    ensures
        weak_order(text_behind(text)),
{
    let behind = text_behind(text);
    assert forall|a: Value, b: Value| #[trigger] behind(a, b) implies !behind(b, a) by {
        law_unit_order(text(a), text(b), text(a));
    }
    assert forall|a: Value, b: Value, c: Value|
        #![trigger behind(a, b), behind(b, c)]
        !behind(a, b) && !behind(b, c) implies !behind(a, c) by {
        law_unit_order(text(a), text(b), text(c));
        law_unit_order(text(c), text(b), text(a));
        law_unit_order(text(b), text(a), text(c));
        law_unit_order(text(c), text(a), text(b));
    }
}

/// A sort whose comparisons are all answered by one order sorts by it, and keeps equal values in
/// their old order; with a comparator, and without one where values are compared pair by pair.
pub proof fn law_comparator_sort_is_stable(
    w: World,
    order: Value,
    items: Seq<Value>,
    behind: spec_fn(Value, Value) -> bool,
)
    requires
        compares_pairs(w, order, items),
        weak_order(behind),
        items.len() > 1 ==> sort_agrees(
            at_first_comparison(w, order, items),
            order,
            behind,
            items,
            1,
            items.len(),
        ),
    ensures
        sorted(w, items, order).1 matches Ok(out) ==> exists|q: Seq<int>|
            stably_sorted(items, behind, out, q),
{
    let n = items.len() as int;
    let p = Seq::new(items.len(), |j: int| j);
    match sorted(w, items, order).1 {
        Err(_) => {},
        Ok(out) => {
            lemma_single_runs(items, behind, p, 0);
            let q = if n <= 1 {
                p
            } else {
                lemma_sorted_from(
                    at_first_comparison(w, order, items),
                    order,
                    items,
                    behind,
                    items,
                    p,
                    1,
                    items.len(),
                )
            };
            assert forall|k: int| 0 <= k < n implies #[trigger] q.contains(k) by {
                if n <= 1 {
                    assert(q[k] == k);
                } else {
                    assert(listed(q, 0, n, k));
                    let j = choose|j: int| 0 <= j < n && #[trigger] q[j] == k;
                    assert(q[j] == k);
                }
            }
            assert(stably_sorted(items, behind, out, q));
        },
    }
}

// The methods

/// The elements that are there, from `k` on, after `acc`.
pub open spec fn present_from(w: World, o: Value, k: int, len: int, acc: Seq<Value>) -> Outcome<Seq<Value>>
    decreases len - k,
{
    if k >= len {
        (w, Ok(acc))
    } else {
        let (w1, v) = present(w, o, k as u64);
        match v {
            Err(e) => (w1, Err(e)),
            Ok(None) => present_from(w1, o, k + 1, len, acc),
            Ok(Some(v)) => present_from(w1, o, k + 1, len, acc.push(v)),
        }
    }
}

fn read_present(i: &mut Interp, o: Value, len: u64) -> (r: Result<Vec<Value>, Value>)
    ensures
        final(i)@ == present_from(old(i)@, o, 0, len as int, Seq::empty()).0,
        match r {
            Ok(l) => l@.len() <= len && present_from(old(i)@, o, 0, len as int, Seq::empty()).1
                == Ok::<Seq<Value>, Value>(l@),
            Err(e) => present_from(old(i)@, o, 0, len as int, Seq::empty()).1 == Err::<
                Seq<Value>,
                Value,
            >(e),
        },
{
    let mut items: Vec<Value> = Vec::new();
    let mut k: u64 = 0;
    assert(items@ =~= Seq::<Value>::empty());
    while k < len
        invariant
            k <= len,
            items@.len() <= k,
            present_from(old(i)@, o, 0, len as int, Seq::empty()) == present_from(
                i@,
                o,
                k as int,
                len as int,
                items@,
            ),
        decreases len - k,
    {
        if let Some(v) = array_get_present_index(i, o, k)? {
            items.push(v);
        }
        k += 1;
    }
    Ok(items)
}

/// Writes the sorted items back from `j` on, then deletes up to the length.
pub open spec fn written_back(w: World, o: Value, items: Seq<Value>, j: int, len: int) -> Outcome<Value>
    decreases len - j,
{
    if j >= len {
        (w, Ok(o))
    } else if 0 <= j < items.len() {
        let (w1, r) = w.value(Op::SetFor(o, Key::Index(j as u64), items[j], o), Seq::empty());
        match r {
            Err(e) => (w1, Err(e)),
            Ok(r) => if r == Value::Bool(true) {
                written_back(w1, o, items, j + 1, len)
            } else {
                w1.throw_about(
                    ErrorKind::Type,
                    "cannot assign to read-only element {}",
                    Value::Num(num::number(j)),
                )
            },
        }
    } else {
        let (w1, r) = w.value(Op::Remove(o, Key::Index(j as u64)), Seq::empty());
        match r {
            Err(e) => (w1, Err(e)),
            Ok(_) => written_back(w1, o, items, j + 1, len),
        }
    }
}

/// `Array.prototype.sort`: holes are not read, and end up behind the items.
pub open spec fn sorted_in_place(w: World, this: Value, args: Seq<Value>, limit: u64) -> Outcome<Value> {
    let order = arg_at(args, 0);
    if order != Value::Undefined && !order.callable() {
        w.throw(ErrorKind::Type, "the comparator must be a function or undefined")
    } else {
        let (w, o) = receiver(w, this);
        match o {
            Err(e) => (w, Err(e)),
            Ok(o) => {
                let (w, len) = checked_length(w, o, limit);
                match len {
                    Err(e) => (w, Err(e)),
                    Ok(len) => {
                        let (w, items) = present_from(w, o, 0, len as int, Seq::empty());
                        match items {
                            Err(e) => (w, Err(e)),
                            Ok(items) => {
                                let (w, s) = sorted(w, items, order);
                                match s {
                                    Err(e) => (w, Err(e)),
                                    Ok(s) => written_back(w, o, s, 0, len as int),
                                }
                            },
                        }
                    },
                }
            },
        }
    }
}

pub fn array_sort(i: &mut Interp, this: Value, args: &[Value], limit: u64) -> (r: Result<
    Value,
    Value,
>)
    ensures
        (final(i)@, r) == sorted_in_place(old(i)@, this, args@, limit),
{
    let order = arg(args, 0);
    if !order.is_undefined() && !order.is_callable() {
        return i.type_error("the comparator must be a function or undefined");
    }
    let o = arr_to_object(i, this)?;
    let len: u64 = checked_array_len(i, o, limit)?;
    // SortIndexedProperties: read only the present indices (holes are skipped, not read).
    let items: Vec<Value> = read_present(i, o, len)?;
    let s: Vec<Value> = merge_sort(i, items, order)?;
    // Set(O, k, v, true): a failed write (non-writable element) always throws. Vacated trailing
    // indices are deleted in ascending order.
    let mut j: u64 = 0;
    while j < len
        invariant
            len <= num::MAX_SAFE,
            sorted_in_place(old(i)@, this, args@, limit) == written_back(
                i@,
                o,
                s@,
                j as int,
                len as int,
            ),
        decreases len - j,
    {
        if j < s.len() as u64 {
            let v = s[j as usize];
            let ok = i.value_of(Op::SetFor(o, Key::Index(j), v, o))?;
            if ok != Value::Bool(true) {
                return i.type_error_about(
                    "cannot assign to read-only element {}",
                    Value::Num(num::of_u64(j)),
                );
            }
        } else {
            i.value_of(Op::Remove(o, Key::Index(j)))?;
        }
        j += 1;
    }
    Ok(o)
}

/// `Array.prototype.toSorted`: the comparator is validated before the receiver is read.
pub open spec fn sorted_copy(w: World, this: Value, args: Seq<Value>, limit: u64) -> Outcome<Value> {
    let order = arg_at(args, 0);
    if order != Value::Undefined && !order.callable() {
        w.throw(ErrorKind::Type, "comparator is not callable")
    } else {
        let (w, o) = receiver(w, this);
        match o {
            Err(e) => (w, Err(e)),
            Ok(o) => {
                let (w, len) = checked_length(w, o, limit);
                match len {
                    Err(e) => (w, Err(e)),
                    Ok(len) => {
                        let (w, items) = read_from(w, o, 0, len as int, Seq::empty());
                        match items {
                            Err(e) => (w, Err(e)),
                            Ok(items) => array_of(sorted(w, items, order)),
                        }
                    },
                }
            },
        }
    }
}

pub fn array_to_sorted(i: &mut Interp, this: Value, args: &[Value], limit: u64) -> (r: Result<
    Value,
    Value,
>)
    ensures
        (final(i)@, r) == sorted_copy(old(i)@, this, args@, limit),
{
    let order = arg(args, 0);
    if !order.is_undefined() && !order.is_callable() {
        return i.type_error("comparator is not callable");
    }
    let o = arr_to_object(i, this)?;
    let len: u64 = checked_array_len(i, o, limit)?;
    let mut items: Vec<Value> = Vec::new();
    assert(items@ =~= Seq::<Value>::empty());
    read_elements(i, o, 0, len, &mut items)?;
    let s: Vec<Value> = merge_sort(i, items, order)?;
    Ok(i.make_array(s))
}

} // verus!
