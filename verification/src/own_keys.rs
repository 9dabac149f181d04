//! The order of own keys, and well-known symbols by name.
use vstd::prelude::*;
use crate::interp::{Interp, Op, Outcome, Value, WellKnown, World};
use crate::num;
use crate::num_format::{number_units, push_number};
use crate::string::Units;
use crate::text::same_text;

verus! {

// Array indices

/// The number that a run of digits writes, from `p` on.
pub open spec fn digits_value(u: Units, n: int) -> int
    decreases n,
{
    if n <= 0 {
        0
    } else {
        digits_value(u, n - 1) * 10 + (u[n - 1] - 0x30)
    }
}

/// A canonical array index: digits without a leading zero, below 2^32 - 1.
pub open spec fn array_index(u: Units) -> Option<int> {
    if u.len() == 0 || u.len() > 10 || !(forall|j: int|
        0 <= j < u.len() ==> 0x30 <= #[trigger] u[j] <= 0x39) || (u[0] == 0x30 && u.len() > 1)
        || digits_value(u, u.len() as int) >= 0xffff_ffff {
        None
    } else {
        Some(digits_value(u, u.len() as int))
    }
}

/// The array index that a string writes.
pub fn read_array_index(u: &Vec<u16>) -> (r: Option<u32>)
    ensures
        match r {
            Some(n) => array_index(u@) == Some(n as int),
            None => array_index(u@) is None,
        },
{
    if u.len() == 0 || u.len() > 10 || (u[0] == 0x30 && u.len() > 1) {
        return None;
    }
    let mut n: u64 = 0;
    let mut bound: u64 = 1;
    let mut j: usize = 0;
    while j < u.len()
        invariant
            j <= u@.len() <= 10,
            n == digits_value(u@, j as int),
            n < bound,
            bound == pow10(j as int),
            bound <= 10_000_000_000,
            forall|k: int| 0 <= k < j ==> 0x30 <= #[trigger] u@[k] <= 0x39,
        decreases u@.len() - j,
    {
        if u[j] < 0x30 || u[j] > 0x39 {
            assert(!(0x30 <= u@[j as int] <= 0x39));
            return None;
        }
        proof {
            lemma_pow10(j as int);
        }
        n = n * 10 + (u[j] - 0x30) as u64;
        bound = bound * 10;
        j += 1;
    }
    if n >= 0xffff_ffff {
        None
    } else {
        Some(n as u32)
    }
}

spec fn pow10(n: int) -> int
    decreases n,
{
    if n <= 0 {
        1
    } else {
        pow10(n - 1) * 10
    }
}

proof fn lemma_pow10(n: int)
    requires
        0 <= n < 10,
    ensures
        pow10(n + 1) == pow10(n) * 10,
        pow10(n) * 10 <= 10_000_000_000,
{
    reveal_with_fuel(pow10, 11);
}

// Order

/// The index that a key is, if it is one.
pub open spec fn key_index(w: World, k: Value) -> Option<int> {
    match k {
        Value::Str(s) => array_index(w.units(s)),
        _ => None,
    }
}

fn read_key_index(i: &Interp, k: Value) -> (r: Option<u32>)
    ensures
        match r {
            Some(n) => key_index(i@, k) == Some(n as int),
            None => key_index(i@, k) is None,
        },
{
    match k {
        Value::Str(s) => {
            let u = i.units(s);
            read_array_index(&u)
        },
        _ => None,
    }
}

/// What an own key is.
pub open spec fn is_index(w: World, k: Value) -> bool {
    key_index(w, k) is Some
}

pub open spec fn is_plain_string(w: World, k: Value) -> bool {
    k is Str && !is_index(w, k)
}

pub open spec fn is_symbol(k: Value) -> bool {
    !(k is Str)
}

/// An index key put in its place among ascending ones, unless its index is there already.
pub open spec fn placed(w: World, l: Seq<Value>, k: Value) -> Seq<Value>
    decreases l.len(),
{
    if l.len() == 0 || key_index(w, l.last()).unwrap() < key_index(w, k).unwrap() {
        l.push(k)
    } else if key_index(w, l.last()).unwrap() == key_index(w, k).unwrap() {
        l
    } else {
        placed(w, l.drop_last(), k).push(l.last())
    }
}

/// The index keys, ascending and each once.
pub open spec fn ascending(w: World, keys: Seq<Value>) -> Seq<Value>
    decreases keys.len(),
{
    if keys.len() == 0 {
        Seq::empty()
    } else if is_index(w, keys.last()) {
        placed(w, ascending(w, keys.drop_last()), keys.last())
    } else {
        ascending(w, keys.drop_last())
    }
}

/// OrdinaryOwnPropertyKeys: array indices ascending, then other string keys in insertion order, then
/// symbol keys in insertion order.
pub open spec fn ordered(w: World, keys: Seq<Value>) -> Seq<Value> {
    ascending(w, keys) + strings_of(w, keys) + symbols_of(keys)
}

pub open spec fn strings_of(w: World, keys: Seq<Value>) -> Seq<Value>
    decreases keys.len(),
{
    if keys.len() == 0 {
        Seq::empty()
    } else if is_plain_string(w, keys.last()) {
        strings_of(w, keys.drop_last()).push(keys.last())
    } else {
        strings_of(w, keys.drop_last())
    }
}

pub open spec fn symbols_of(keys: Seq<Value>) -> Seq<Value>
    decreases keys.len(),
{
    if keys.len() == 0 {
        Seq::empty()
    } else if is_symbol(keys.last()) {
        symbols_of(keys.drop_last()).push(keys.last())
    } else {
        symbols_of(keys.drop_last())
    }
}

/// All keys of a list are indices.
pub open spec fn all_indices(w: World, l: Seq<Value>) -> bool {
    forall|j: int| 0 <= j < l.len() ==> is_index(w, #[trigger] l[j])
}

fn place(i: &Interp, l: &mut Vec<Value>, k: Value)
    requires
        is_index(i@, k),
        all_indices(i@, old(l)@),
    ensures
        final(l)@ == placed(i@, old(l)@, k),
        all_indices(i@, final(l)@),
{
    let ghost before = l@;
    let n: usize = l.len();
    let key: u32 = match read_key_index(i, k) {
        Some(x) => x,
        None => 0,
    };
    let mut j: usize = n;
    assert(before.take(n as int) =~= before);
    assert(before.skip(n as int) =~= Seq::<Value>::empty());
    assert(placed(i@, before, k) + Seq::<Value>::empty() =~= placed(i@, before, k));
    while j > 0
        invariant
            j <= n,
            n == before.len(),
            before == old(l)@,
            l@ == before,
            all_indices(i@, before),
            is_index(i@, k),
            key == key_index(i@, k).unwrap(),
            placed(i@, before.take(j as int), k) + before.skip(j as int) == placed(i@, before, k),
        decreases j,
    {
        let p = l[j - 1];
        assert(is_index(i@, before[j - 1]));
        let other: u32 = match read_key_index(i, p) {
            Some(x) => x,
            None => 0,
        };
        assert(before.take(j as int).last() == p);
        assert(before.take(j as int).drop_last() =~= before.take(j - 1));
        if other == key {
            assert(before.take(j as int) + before.skip(j as int) =~= before);
            return;
        }
        if other < key {
            put_at(i, l, k, j);
            return;
        }
        assert(placed(i@, before.take(j - 1), k) + before.skip(j - 1) =~= placed(
            i@,
            before.take(j as int),
            k,
        ) + before.skip(j as int));
        j -= 1;
    }
    put_at(i, l, k, 0);
}

/// Puts an index key at a position.
fn put_at(i: &Interp, l: &mut Vec<Value>, k: Value, j: usize)
    requires
        j <= old(l)@.len(),
        is_index(i@, k),
        all_indices(i@, old(l)@),
    ensures
        final(l)@ == old(l)@.take(j as int).push(k) + old(l)@.skip(j as int),
        all_indices(i@, final(l)@),
{
    let ghost before = l@;
    l.insert(j, k);
    assert(l@ =~= before.take(j as int).push(k) + before.skip(j as int));
    assert forall|m: int| 0 <= m < l@.len() implies is_index(i@, #[trigger] l@[m]) by {
        if m < j {
            assert(l@[m] == before[m]);
        } else if m > j {
            assert(l@[m] == before[m - 1]);
        }
    }
}

fn append(out: &mut Vec<Value>, more: &Vec<Value>)
    ensures
        final(out)@ == old(out)@ + more@,
{
    let ghost before = out@;
    let mut j: usize = 0;
    assert(out@ =~= before + more@.take(0));
    while j < more.len()
        invariant
            j <= more@.len(),
            out@ == before + more@.take(j as int),
        decreases more@.len() - j,
    {
        out.push(more[j]);
        assert(out@ =~= before + more@.take(j + 1));
        j += 1;
    }
    assert(more@.take(j as int) =~= more@);
}

/// The index keys from `k` up to `n`, as a platform supplies them, behind `out`.
pub open spec fn supplied_keys(w: World, k: int, n: int, out: Seq<Value>) -> (World, Seq<Value>)
    decreases n - k,
{
    if k >= n {
        (w, out)
    } else {
        let (w, s) = w.intern(number_units(k));
        supplied_keys(w, k + 1, n, out.push(Value::Str(s)))
    }
}

fn list_supplied_keys(i: &mut Interp, n: u32) -> (r: Vec<Value>)
    ensures
        (final(i)@, r@) == supplied_keys(old(i)@, 0, n as int, Seq::empty()),
{
    let mut out: Vec<Value> = Vec::new();
    let mut k: u32 = 0;
    assert(out@ =~= Seq::<Value>::empty());
    while k < n
        invariant
            k <= n,
            supplied_keys(old(i)@, 0, n as int, Seq::empty()) == supplied_keys(
                i@,
                k as int,
                n as int,
                out@,
            ),
        decreases n - k,
    {
        let mut u: Vec<u16> = Vec::new();
        push_number(&mut u, k);
        assert(u@ =~= number_units(k as int));
        let s: u64 = i.intern(u);
        out.push(Value::Str(s));
        k += 1;
    }
    out
}

/// OrdinaryOwnPropertyKeys of an object with these stored keys, whose platform supplies so many
/// indices.
pub open spec fn all_ordered(w: World, supplied: int, keys: Seq<Value>) -> (World, Seq<Value>) {
    let (w, s) = supplied_keys(w, 0, supplied, Seq::empty());
    (w, ordered(w, s + keys))
}

/// OrdinaryOwnPropertyKeys from the stored keys in insertion order and the number of indices that a
/// platform supplies: each index is listed once.
pub fn ordinary_own_keys_ordered(i: &mut Interp, supplied: u32, keys: &Vec<Value>) -> (r: Vec<Value>)
    ensures
        (final(i)@, r@) == all_ordered(old(i)@, supplied as int, keys@),
{
    let mut all: Vec<Value> = list_supplied_keys(i, supplied);
    append(&mut all, keys);
    order_keys(i, &all)
}

/// The number of indices that a platform supplies, as it is answered.
pub open spec fn supplied_count(v: Value) -> int {
    match v {
        Value::Num(n) => if num::cast_u64(n) > u32::MAX {
            u32::MAX as int
        } else {
            num::cast_u64(n)
        },
        _ => 0,
    }
}

/// The own keys of an object that is no proxy.
pub open spec fn ordinary_keys(w: World, o: Value) -> Outcome<Seq<Value>> {
    let (w, n) = w.plain(Op::SuppliedLength(o), Seq::empty());
    let (w, keys) = w.list(Op::OwnKeys(o));
    match keys {
        Err(e) => (w, Err(e)),
        Ok(keys) => {
            let (w, l) = all_ordered(w, supplied_count(n), keys);
            (w, Ok(l))
        },
    }
}

/// OrdinaryOwnPropertyKeys of an object.
pub fn read_ordinary_keys(i: &mut Interp, o: Value) -> (r: Result<Vec<Value>, Value>)
    ensures
        final(i)@ == ordinary_keys(old(i)@, o).0,
        match r {
            Ok(l) => ordinary_keys(old(i)@, o).1 == Ok::<Seq<Value>, Value>(l@),
            Err(e) => ordinary_keys(old(i)@, o).1 == Err::<Seq<Value>, Value>(e),
        },
{
    let n: u32 = match i.perform(Op::SuppliedLength(o)) {
        Value::Num(n) => {
            let x: u64 = num::as_u64(n);
            if x > 0xffff_ffff {
                0xffff_ffff
            } else {
                x as u32
            }
        },
        _ => 0,
    };
    let keys: Vec<Value> = i.ask_list(Op::OwnKeys(o))?;
    Ok(ordinary_own_keys_ordered(i, n, &keys))
}

fn order_keys(i: &Interp, keys: &Vec<Value>) -> (r: Vec<Value>)
    ensures
        r@ == ordered(i@, keys@),
{
    let mut indices: Vec<Value> = Vec::new();
    let mut strings: Vec<Value> = Vec::new();
    let mut symbols: Vec<Value> = Vec::new();
    let mut k: usize = 0;
    assert(indices@ =~= ascending(i@, keys@.take(0)));
    assert(strings@ =~= strings_of(i@, keys@.take(0)));
    assert(symbols@ =~= symbols_of(keys@.take(0)));
    while k < keys.len()
        invariant
            k <= keys@.len(),
            all_indices(i@, indices@),
            indices@ == ascending(i@, keys@.take(k as int)),
            strings@ == strings_of(i@, keys@.take(k as int)),
            symbols@ == symbols_of(keys@.take(k as int)),
        decreases keys@.len() - k,
    {
        assert(keys@.take(k + 1).drop_last() =~= keys@.take(k as int));
        let key = keys[k];
        let text = match key {
            Value::Str(_) => true,
            _ => false,
        };
        match read_key_index(i, key) {
            Some(_) => {
                place(i, &mut indices, key);
            },
            None => {
                if text {
                    strings.push(key);
                } else {
                    symbols.push(key);
                }
            },
        }
        k += 1;
    }
    assert(keys@.take(k as int) =~= keys@);
    append(&mut indices, &strings);
    append(&mut indices, &symbols);
    indices
}

proof fn lemma_placed(w: World, l: Seq<Value>, k: Value)
    requires
        all_indices(w, l),
        is_index(w, k),
        ascends(w, l),
    ensures
        all_indices(w, placed(w, l, k)),
        ascends(w, placed(w, l, k)),
        forall|x: Value| #[trigger] placed(w, l, k).contains(x) ==> l.contains(x) || x == k,
        forall|x: Value| #[trigger] l.contains(x) ==> placed(w, l, k).contains(x),
        has_index(w, placed(w, l, k), key_index(w, k).unwrap()),
        placed(w, l, k).len() > 0,
        forall|j: int|
            0 <= j < placed(w, l, k).len() ==> key_index(w, #[trigger] placed(w, l, k)[j]).unwrap()
                <= key_index(w, k).unwrap() || (l.len() > 0 && key_index(
                w,
                placed(w, l, k)[j],
            ).unwrap() <= key_index(w, l.last()).unwrap()),
    decreases l.len(),
{
    let r = placed(w, l, k);
    let x = key_index(w, k).unwrap();
    if l.len() == 0 || key_index(w, l.last()).unwrap() < x {
        assert forall|j: int| 0 <= j < r.len() implies is_index(w, #[trigger] r[j]) by {
            if j < l.len() {
                assert(r[j] == l[j]);
            }
        }
        assert forall|a: int, b: int| 0 <= a < b < r.len() implies key_index(
            w,
            #[trigger] r[a],
        ).unwrap() < key_index(w, #[trigger] r[b]).unwrap() by {
            if b == l.len() && a < l.len() - 1 {
                assert(key_index(w, l[a]).unwrap() < key_index(w, l[l.len() - 1]).unwrap());
            }
        }
        assert(r[l.len() as int] == k);
        assert forall|v: Value| #[trigger] l.contains(v) implies r.contains(v) by {
            let j = choose|j: int| 0 <= j < l.len() && l[j] == v;
            assert(r[j] == v);
        }
        assert forall|v: Value| #[trigger] r.contains(v) implies l.contains(v) || v == k by {
            let j = choose|j: int| 0 <= j < r.len() && r[j] == v;
            if j < l.len() {
                assert(l[j] == v);
            }
        }
        assert forall|j: int| 0 <= j < r.len() implies key_index(w, #[trigger] r[j]).unwrap() <= x
            || (l.len() > 0 && key_index(w, r[j]).unwrap() <= key_index(w, l.last()).unwrap()) by {
            if j < l.len() - 1 {
                assert(key_index(w, l[j]).unwrap() < key_index(w, l[l.len() - 1]).unwrap());
            }
        }
    } else if key_index(w, l.last()).unwrap() == x {
        assert(key_index(w, l[l.len() - 1]) == Some(x)) by {
            assert(is_index(w, l[l.len() - 1]));
        }
        assert forall|j: int| 0 <= j < r.len() implies key_index(w, #[trigger] r[j]).unwrap()
            <= x by {
            if j < l.len() - 1 {
                assert(key_index(w, l[j]).unwrap() < key_index(w, l[l.len() - 1]).unwrap());
            }
        }
    } else {
        let t = l.drop_last();
        assert forall|j: int| 0 <= j < t.len() implies is_index(w, #[trigger] t[j]) by {
            assert(t[j] == l[j]);
        }
        assert forall|a: int, b: int| 0 <= a < b < t.len() implies key_index(
            w,
            #[trigger] t[a],
        ).unwrap() < key_index(w, #[trigger] t[b]).unwrap() by {
            assert(key_index(w, l[a]).unwrap() < key_index(w, l[b]).unwrap());
        }
        lemma_placed(w, t, k);
        let s = placed(w, t, k);
        assert(r == s.push(l.last()));
        assert(is_index(w, l[l.len() - 1]));
        assert forall|j: int| 0 <= j < s.len() implies key_index(w, #[trigger] s[j]).unwrap()
            < key_index(w, l.last()).unwrap() by {
            if t.len() > 0 {
                assert(key_index(w, l[l.len() - 2]).unwrap() < key_index(w, l[l.len() - 1]).unwrap());
            }
        }
        assert forall|j: int| 0 <= j < r.len() implies is_index(w, #[trigger] r[j]) by {
            if j < s.len() {
                assert(r[j] == s[j]);
            }
        }
        assert forall|a: int, b: int| 0 <= a < b < r.len() implies key_index(
            w,
            #[trigger] r[a],
        ).unwrap() < key_index(w, #[trigger] r[b]).unwrap() by {
            assert(r[a] == s[a]);
            if b < s.len() {
                assert(r[b] == s[b]);
            }
        }
        assert forall|v: Value| #[trigger] l.contains(v) implies r.contains(v) by {
            let j = choose|j: int| 0 <= j < l.len() && l[j] == v;
            if j < t.len() {
                assert(t[j] == v);
                assert(t.contains(v));
                let m = choose|m: int| 0 <= m < s.len() && s[m] == v;
                assert(r[m] == v);
            } else {
                assert(r[s.len() as int] == v);
            }
        }
        assert forall|v: Value| #[trigger] r.contains(v) implies l.contains(v) || v == k by {
            let j = choose|j: int| 0 <= j < r.len() && r[j] == v;
            if j < s.len() {
                assert(s[j] == v);
                assert(s.contains(v));
                if t.contains(v) {
                    let m = choose|m: int| 0 <= m < t.len() && t[m] == v;
                    assert(l[m] == v);
                }
            } else {
                assert(l[l.len() - 1] == v);
            }
        }
        let m = choose|m: int| 0 <= m < s.len() && key_index(w, #[trigger] s[m]) == Some(x);
        assert(r[m] == s[m]);
        assert forall|j: int| 0 <= j < r.len() implies key_index(w, #[trigger] r[j]).unwrap() <= x
            || (l.len() > 0 && key_index(w, r[j]).unwrap() <= key_index(w, l.last()).unwrap()) by {
            if j < s.len() {
                assert(r[j] == s[j]);
            }
        }
    }
}

/// The indices of a list ascend, and none is there twice.
pub open spec fn ascends(w: World, l: Seq<Value>) -> bool {
    forall|a: int, b: int|
        0 <= a < b < l.len() ==> key_index(w, #[trigger] l[a]).unwrap() < key_index(
            w,
            #[trigger] l[b],
        ).unwrap()
}

/// A key of a list is the index.
pub open spec fn has_index(w: World, l: Seq<Value>, x: int) -> bool {
    exists|j: int| 0 <= j < l.len() && key_index(w, #[trigger] l[j]) == Some(x)
}

/// Index keys come out in ascending order and each once, every index and every other key comes out,
/// and no key is made up.
pub proof fn law_own_keys_are_ordered(w: World, keys: Seq<Value>)
    ensures
        ascends(w, ascending(w, keys)),
        all_indices(w, ascending(w, keys)),
        forall|j: int|
            0 <= j < keys.len() ==> if is_index(w, #[trigger] keys[j]) {
                has_index(w, ascending(w, keys), key_index(w, keys[j]).unwrap())
            } else {
                ordered(w, keys).contains(keys[j])
            },
        forall|x: Value| #[trigger] ordered(w, keys).contains(x) ==> keys.contains(x),
    decreases keys.len(),
{
    lemma_parts(w, keys);
    let a = ascending(w, keys);
    let s = strings_of(w, keys);
    let y = symbols_of(keys);
    assert forall|j: int| 0 <= j < keys.len() implies if is_index(w, #[trigger] keys[j]) {
        has_index(w, ascending(w, keys), key_index(w, keys[j]).unwrap())
    } else {
        ordered(w, keys).contains(keys[j])
    } by {
        if !is_index(w, keys[j]) {
            if keys[j] is Str {
                let m = choose|m: int| 0 <= m < s.len() && s[m] == keys[j];
                assert(ordered(w, keys)[a.len() + m] == keys[j]);
            } else {
                let m = choose|m: int| 0 <= m < y.len() && y[m] == keys[j];
                assert(ordered(w, keys)[a.len() + s.len() + m] == keys[j]);
            }
        }
    }
    assert forall|x: Value| #[trigger] ordered(w, keys).contains(x) implies keys.contains(x) by {
        let j = choose|j: int| 0 <= j < ordered(w, keys).len() && ordered(w, keys)[j] == x;
        if j < a.len() {
            assert(a[j] == x);
            assert(a.contains(x));
        } else if j < a.len() + s.len() {
            assert(s[j - a.len()] == x);
            assert(s.contains(x));
        } else {
            assert(y[j - a.len() - s.len()] == x);
            assert(y.contains(x));
        }
    }
}

proof fn lemma_parts(w: World, keys: Seq<Value>)
    ensures
        ascends(w, ascending(w, keys)),
        all_indices(w, ascending(w, keys)),
        forall|j: int|
            0 <= j < keys.len() && is_index(w, #[trigger] keys[j]) ==> has_index(
                w,
                ascending(w, keys),
                key_index(w, keys[j]).unwrap(),
            ),
        forall|j: int|
            0 <= j < keys.len() && is_plain_string(w, #[trigger] keys[j]) ==> strings_of(
                w,
                keys,
            ).contains(keys[j]),
        forall|j: int|
            0 <= j < keys.len() && is_symbol(#[trigger] keys[j]) ==> symbols_of(keys).contains(
                keys[j],
            ),
        forall|x: Value| #[trigger] ascending(w, keys).contains(x) ==> keys.contains(x),
        forall|x: Value| #[trigger] strings_of(w, keys).contains(x) ==> keys.contains(x),
        forall|x: Value| #[trigger] symbols_of(keys).contains(x) ==> keys.contains(x),
    decreases keys.len(),
{
    if keys.len() > 0 {
        let rest = keys.drop_last();
        let k = keys.last();
        lemma_parts(w, rest);
        assert(keys[keys.len() - 1] == k);
        assert forall|x: Value| rest.contains(x) implies keys.contains(x) by {
            let j = choose|j: int| 0 <= j < rest.len() && rest[j] == x;
            assert(keys[j] == x);
        }
        if is_index(w, k) {
            lemma_placed(w, ascending(w, rest), k);
            assert forall|j: int| 0 <= j < keys.len() && is_index(
                w,
                #[trigger] keys[j],
            ) implies has_index(w, ascending(w, keys), key_index(w, keys[j]).unwrap()) by {
                if j < rest.len() {
                    assert(rest[j] == keys[j]);
                    let x = key_index(w, keys[j]).unwrap();
                    let l = ascending(w, rest);
                    let m = choose|m: int| 0 <= m < l.len() && key_index(w, #[trigger] l[m]) == Some(x);
                    assert(l.contains(l[m]));
                    let all = ascending(w, keys);
                    let q = choose|q: int| 0 <= q < all.len() && all[q] == l[m];
                    assert(key_index(w, all[q]) == Some(x));
                }
            }
        } else if k is Str {
            let s = strings_of(w, rest);
            assert(s.push(k)[s.len() as int] == k);
            assert forall|j: int| 0 <= j < rest.len() && is_plain_string(
                w,
                #[trigger] rest[j],
            ) implies s.push(k).contains(rest[j]) by {
                let m = choose|m: int| 0 <= m < s.len() && s[m] == rest[j];
                assert(s.push(k)[m] == rest[j]);
            }
            assert forall|x: Value| #[trigger] s.push(k).contains(x) implies keys.contains(x) by {
                let m = choose|m: int| 0 <= m < s.push(k).len() && s.push(k)[m] == x;
                if m < s.len() {
                    assert(s.contains(x));
                }
            }
        } else {
            let s = symbols_of(rest);
            assert(s.push(k)[s.len() as int] == k);
            assert forall|j: int| 0 <= j < rest.len() && is_symbol(#[trigger] rest[j]) implies s.push(
                k,
            ).contains(rest[j]) by {
                let m = choose|m: int| 0 <= m < s.len() && s[m] == rest[j];
                assert(s.push(k)[m] == rest[j]);
            }
            assert forall|x: Value| #[trigger] s.push(k).contains(x) implies keys.contains(x) by {
                let m = choose|m: int| 0 <= m < s.push(k).len() && s.push(k)[m] == x;
                if m < s.len() {
                    assert(s.contains(x));
                }
            }
        }
        assert forall|j: int| 0 <= j < keys.len() && j != keys.len() - 1 implies #[trigger] keys[j]
            == rest[j] by {}
        assert forall|x: Value| #[trigger] symbols_of(keys).contains(x) implies keys.contains(x) by {
            if symbols_of(rest).contains(x) {
                assert(rest.contains(x));
            }
        }
    }
}

// Well-known symbols

/// A well-known symbol by its name.
pub open spec fn symbol_named(name: Seq<char>) -> Option<WellKnown> {
    if name == "iterator"@ {
        Some(WellKnown::Iterator)
    } else if name == "asyncIterator"@ {
        Some(WellKnown::AsyncIterator)
    } else if name == "hasInstance"@ {
        Some(WellKnown::HasInstance)
    } else if name == "isConcatSpreadable"@ {
        Some(WellKnown::IsConcatSpreadable)
    } else if name == "match"@ {
        Some(WellKnown::Match)
    } else if name == "matchAll"@ {
        Some(WellKnown::MatchAll)
    } else if name == "replace"@ {
        Some(WellKnown::Replace)
    } else if name == "search"@ {
        Some(WellKnown::Search)
    } else if name == "species"@ {
        Some(WellKnown::Species)
    } else if name == "split"@ {
        Some(WellKnown::Split)
    } else if name == "toPrimitive"@ {
        Some(WellKnown::ToPrimitive)
    } else if name == "toStringTag"@ {
        Some(WellKnown::ToStringTag)
    } else if name == "unscopables"@ {
        Some(WellKnown::Unscopables)
    } else if name == "dispose"@ {
        Some(WellKnown::Dispose)
    } else if name == "asyncDispose"@ {
        Some(WellKnown::AsyncDispose)
    } else if name == "metadata"@ {
        Some(WellKnown::Metadata)
    } else {
        None
    }
}

/// The well-known `Symbol.<name>`.
pub fn well_known_key(name: &str) -> (r: Option<WellKnown>)
    ensures
        r == symbol_named(name@),
{
    if same_text(name, "iterator") {
        Some(WellKnown::Iterator)
    } else if same_text(name, "asyncIterator") {
        Some(WellKnown::AsyncIterator)
    } else if same_text(name, "hasInstance") {
        Some(WellKnown::HasInstance)
    } else if same_text(name, "isConcatSpreadable") {
        Some(WellKnown::IsConcatSpreadable)
    } else if same_text(name, "match") {
        Some(WellKnown::Match)
    } else if same_text(name, "matchAll") {
        Some(WellKnown::MatchAll)
    } else if same_text(name, "replace") {
        Some(WellKnown::Replace)
    } else if same_text(name, "search") {
        Some(WellKnown::Search)
    } else if same_text(name, "species") {
        Some(WellKnown::Species)
    } else if same_text(name, "split") {
        Some(WellKnown::Split)
    } else if same_text(name, "toPrimitive") {
        Some(WellKnown::ToPrimitive)
    } else if same_text(name, "toStringTag") {
        Some(WellKnown::ToStringTag)
    } else if same_text(name, "unscopables") {
        Some(WellKnown::Unscopables)
    } else if same_text(name, "dispose") {
        Some(WellKnown::Dispose)
    } else if same_text(name, "asyncDispose") {
        Some(WellKnown::AsyncDispose)
    } else if same_text(name, "metadata") {
        Some(WellKnown::Metadata)
    } else {
        None
    }
}

} // verus!
