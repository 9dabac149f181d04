//! Regular expressions: what a match means to JavaScript code. Matching itself is the engine's.
use vstd::prelude::*;
use crate::array::{put, set_throw};
use crate::interp::{arg, arg_at, Brand, ErrorKind, Interp, Key, Op, Outcome, Property, Value, World};
use crate::num;
use crate::realm::{plain_property, set_data, stored};
use crate::proxy::{length_of_number, number_to_length};
use crate::string::{advance_string_index, advanced, between, cut_between, Units};

verus! {

/// ToLength of a value.
pub open spec fn value_length(w: World, v: Value) -> Outcome<u64> {
    let (w, n) = w.number(v);
    match n {
        Err(e) => (w, Err(e)),
        Ok(n) => (w, Ok(length_of_number(n) as u64)),
    }
}

/// ToLength of a value (clamped to a non-negative integer).
pub fn to_length_val(i: &mut Interp, v: Value) -> (r: Result<u64, Value>)
    ensures
        (final(i)@, r) == value_length(old(i)@, v),
        r matches Ok(n) ==> n <= num::MAX_SAFE,
{
    let n: u64 = i.to_number(v)?;
    Ok(number_to_length(n))
}

/// ToIndex.
pub open spec fn index_of_value(w: World, v: Value) -> Outcome<u64> {
    let (w, n) = w.number(v);
    match n {
        Err(e) => (w, Err(e)),
        Ok(n) => if num::nan(n) {
            (w, Ok(0))
        } else if num::infinite(n) || num::integer_part(n) < 0 || num::integer_part(n)
            > num::MAX_SAFE {
            w.throw(ErrorKind::Range, "index out of range")
        } else {
            (w, Ok(num::integer_part(n) as u64))
        },
    }
}

/// ToIndex: a non-negative integer in [0, 2^53-1]; anything else is a RangeError.
pub fn to_index(i: &mut Interp, v: Value) -> (r: Result<u64, Value>)
    ensures
        (final(i)@, r) == index_of_value(old(i)@, v),
{
    let n: u64 = i.to_number(v)?;
    if num::is_nan(n) {
        return Ok(0);
    }
    proof {
        num::lemma_magnitude_nonneg(n);
    }
    if num::is_infinite(n) {
        return i.fail(ErrorKind::Range, "index out of range");
    }
    let m: u64 = num::magnitude_u64(n);
    if (num::is_negative(n) && m > 0) || m > num::MAX_SAFE {
        return i.fail(ErrorKind::Range, "index out of range");
    }
    Ok(m)
}

/// The program of a regular expression, as far as its matches are concerned.
pub struct Program {
    pub global: bool,
    pub sticky: bool,
    pub unicode: bool,
    pub indices: bool,
    pub groups: u64,
    pub names: Vec<(Value, u64)>,
}

/// A program as contracts speak of it.
pub struct Shape {
    pub global: bool,
    pub sticky: bool,
    pub unicode: bool,
    pub indices: bool,
    pub groups: u64,
    pub names: Seq<(Value, u64)>,
}

impl View for Program {
    type V = Shape;

    open spec fn view(&self) -> Shape {
        Shape {
            global: self.global,
            sticky: self.sticky,
            unicode: self.unicode,
            indices: self.indices,
            groups: self.groups,
            names: self.names@,
        }
    }
}

/// A listed number; anything else counts as 0.
pub open spec fn listed_number(v: Value) -> int {
    match v {
        Value::Num(n) => num::cast_u64(n),
        _ => 0,
    }
}

fn read_number(v: Value) -> (r: u64)
    ensures
        r == listed_number(v),
{
    match v {
        Value::Num(n) => num::as_u64(n),
        _ => 0,
    }
}

fn is_yes(v: Value) -> (r: bool)
    ensures
        r == (v == Value::Bool(true)),
{
    match v {
        Value::Bool(b) => b,
        _ => false,
    }
}

/// The names listed from `k` on, each with its group.
pub open spec fn names_from(l: Seq<Value>, k: int) -> Seq<(Value, u64)>
    decreases l.len() - k,
{
    if k < 0 || k + 1 >= l.len() {
        Seq::empty()
    } else {
        seq![(l[k], listed_number(l[k + 1]) as u64)] + names_from(l, k + 2)
    }
}

/// A described program; a list that is too short describes none.
pub open spec fn shape_of(l: Seq<Value>) -> Option<Shape> {
    if l.len() < 5 {
        None
    } else {
        Some(
            Shape {
                global: l[0] == Value::Bool(true),
                sticky: l[1] == Value::Bool(true),
                unicode: l[2] == Value::Bool(true),
                indices: l[3] == Value::Bool(true),
                groups: listed_number(l[4]) as u64,
                names: names_from(l, 5),
            },
        )
    }
}

fn read_shape(l: &Vec<Value>) -> (r: Option<Program>)
    ensures
        match r {
            Some(p) => shape_of(l@) == Some(p@),
            None => shape_of(l@) is None,
        },
{
    if l.len() < 5 {
        return None;
    }
    let mut names: Vec<(Value, u64)> = Vec::new();
    let mut k: usize = 5;
    assert(names@ + names_from(l@, 5) =~= names_from(l@, 5));
    while k < l.len() && l.len() - k > 1
        invariant
            5 <= k <= l@.len(),
            names@ + names_from(l@, k as int) == names_from(l@, 5),
        decreases l@.len() - k,
    {
        let ghost before = names@;
        names.push((l[k], read_number(l[k + 1])));
        assert(names@ + names_from(l@, k + 2) =~= before + names_from(l@, k as int));
        k += 2;
    }
    assert(names@ =~= names_from(l@, 5));
    Some(
        Program {
            global: is_yes(l[0]),
            sticky: is_yes(l[1]),
            unicode: is_yes(l[2]),
            indices: is_yes(l[3]),
            groups: read_number(l[4]),
            names,
        },
    )
}

/// The program of a regular expression object.
pub open spec fn program_of(w: World, rx: Value) -> Outcome<Shape> {
    let (w, l) = w.list(Op::RegExpShape(rx));
    match l {
        Err(e) => (w, Err(e)),
        Ok(l) => match shape_of(l) {
            None => w.throw(ErrorKind::Type, "exec on non-RegExp"),
            Some(s) => (w, Ok(s)),
        },
    }
}

pub fn read_program(i: &mut Interp, rx: Value) -> (r: Result<Program, Value>)
    ensures
        final(i)@ == program_of(old(i)@, rx).0,
        match r {
            Ok(p) => program_of(old(i)@, rx).1 == Ok::<Shape, Value>(p@),
            Err(e) => program_of(old(i)@, rx).1 == Err::<Shape, Value>(e),
        },
{
    let l: Vec<Value> = i.ask_list(Op::RegExpShape(rx))?;
    match read_shape(&l) {
        None => i.type_error("exec on non-RegExp"),
        Some(p) => Ok(p),
    }
}

/// The span of a group among the listed spans.
pub open spec fn span(l: Seq<Value>, g: int) -> Option<(int, int)> {
    if g < 0 || 2 * g + 1 >= l.len() {
        None
    } else {
        match (l[2 * g], l[2 * g + 1]) {
            (Value::Num(a), Value::Num(b)) => Some((num::cast_u64(a), num::cast_u64(b))),
            _ => None,
        }
    }
}

pub fn read_span(l: &Vec<Value>, g: u64) -> (r: Option<(u64, u64)>)
    ensures
        match r {
            Some(p) => span(l@, g as int) == Some((p.0 as int, p.1 as int)),
            None => span(l@, g as int) is None,
        },
{
    if g >= l.len() as u64 {
        return None;
    }
    let h: usize = g as usize;
    if h >= l.len() - h || l.len() - 2 * h < 2 {
        return None;
    }
    match (l[2 * h], l[2 * h + 1]) {
        (Value::Num(a), Value::Num(b)) => Some((num::as_u64(a), num::as_u64(b))),
        _ => None,
    }
}

/// The text of a span; a span that does not lie in the string has none.
pub open spec fn span_text(s: Units, p: (int, int)) -> Units {
    between(s, p.0, p.1)
}

pub fn read_span_text(s: &Vec<u16>, p: (u64, u64)) -> (r: Vec<u16>)
    ensures
        r@ == span_text(s@, (p.0 as int, p.1 as int)),
{
    if p.0 < p.1 && p.1 <= s.len() as u64 {
        cut_between(s, p.0 as usize, p.1 as usize)
    } else {
        let r: Vec<u16> = Vec::new();
        assert(r@ =~= Seq::<u16>::empty());
        r
    }
}

/// The text of a span as a value, undefined where there is no span.
pub open spec fn span_value(w: World, s: Units, p: Option<(int, int)>) -> (World, Value) {
    match p {
        None => (w, Value::Undefined),
        Some(p) => {
            let (w, h) = w.intern(span_text(s, p));
            (w, Value::Str(h))
        },
    }
}

fn make_span_value(i: &mut Interp, s: &Vec<u16>, p: Option<(u64, u64)>) -> (r: Value)
    ensures
        (final(i)@, r) == span_value(
            old(i)@,
            s@,
            match p {
                None => None,
                Some(p) => Some((p.0 as int, p.1 as int)),
            },
        ),
{
    match p {
        None => Value::Undefined,
        Some(p) => {
            let t = read_span_text(s, p);
            Value::Str(i.intern(t))
        },
    }
}

/// The texts of the groups from `g` on, behind `out`.
pub open spec fn group_texts(
    w: World,
    s: Units,
    l: Seq<Value>,
    g: int,
    groups: int,
    out: Seq<Value>,
) -> (World, Seq<Value>)
    decreases groups + 1 - g,
{
    if g > groups {
        (w, out)
    } else {
        let (w, v) = span_value(w, s, span(l, g));
        group_texts(w, s, l, g + 1, groups, out.push(v))
    }
}

fn read_group_texts(
    i: &mut Interp,
    s: &Vec<u16>,
    l: &Vec<Value>,
    first: u64,
    groups: u64,
    out: &mut Vec<Value>,
)
    ensures
        (final(i)@, final(out)@) == group_texts(
            old(i)@,
            s@,
            l@,
            first as int,
            groups as int,
            old(out)@,
        ),
{
    let mut g: u64 = first;
    loop
        invariant
            group_texts(old(i)@, s@, l@, first as int, groups as int, old(out)@) == group_texts(
                i@,
                s@,
                l@,
                g as int,
                groups as int,
                out@,
            ),
        decreases groups + 1 - g,
    {
        if g > groups {
            return;
        }
        let p = read_span(l, g);
        let v = make_span_value(i, s, p);
        out.push(v);
        if g == u64::MAX {
            assert(group_texts(i@, s@, l@, g + 1, groups as int, out@) == (i@, out@));
            return;
        }
        g += 1;
    }
}

/// The `[start, end]` pair of a span, undefined where there is none.
pub open spec fn span_pair(w: World, p: Option<(int, int)>) -> (World, Value) {
    match p {
        None => (w, Value::Undefined),
        Some(p) => w.plain(
            Op::NewArray,
            seq![Value::Num(num::position(p.0)), Value::Num(num::position(p.1))],
        ),
    }
}

fn count_number(n: u64) -> (r: u64)
    ensures
        r == num::position(n as int),
{
    if n > num::COUNT_LIMIT {
        num::of_u64(num::COUNT_LIMIT)
    } else {
        num::of_u64(n)
    }
}

fn make_span_pair(i: &mut Interp, p: Option<(u64, u64)>) -> (r: Value)
    ensures
        (final(i)@, r) == span_pair(
            old(i)@,
            match p {
                None => None,
                Some(p) => Some((p.0 as int, p.1 as int)),
            },
        ),
{
    match p {
        None => Value::Undefined,
        Some(p) => {
            let l = vec![Value::Num(count_number(p.0)), Value::Num(count_number(p.1))];
            assert(l@ =~= seq![
                Value::Num(num::position(p.0 as int)),
                Value::Num(num::position(p.1 as int)),
            ]);
            i.make_array(l)
        },
    }
}

/// The pairs of the groups from `g` on, behind `out`.
pub open spec fn group_pairs(
    w: World,
    l: Seq<Value>,
    g: int,
    groups: int,
    out: Seq<Value>,
) -> (World, Seq<Value>)
    decreases groups + 1 - g,
{
    if g > groups {
        (w, out)
    } else {
        let (w, v) = span_pair(w, span(l, g));
        group_pairs(w, l, g + 1, groups, out.push(v))
    }
}

fn read_group_pairs(i: &mut Interp, l: &Vec<Value>, groups: u64) -> (r: Vec<Value>)
    ensures
        (final(i)@, r@) == group_pairs(old(i)@, l@, 0, groups as int, Seq::empty()),
{
    let mut out: Vec<Value> = Vec::new();
    let mut g: u64 = 0;
    assert(out@ =~= Seq::<Value>::empty());
    loop
        invariant
            group_pairs(old(i)@, l@, 0, groups as int, Seq::empty()) == group_pairs(
                i@,
                l@,
                g as int,
                groups as int,
                out@,
            ),
        decreases groups + 1 - g,
    {
        if g > groups {
            return out;
        }
        let p = read_span(l, g);
        let v = make_span_pair(i, p);
        out.push(v);
        if g == u64::MAX {
            assert(group_pairs(i@, l@, g + 1, groups as int, out@) == (i@, out@));
            return out;
        }
        g += 1;
    }
}

/// A name stands before place `k`.
pub open spec fn named_before(names: Seq<(Value, u64)>, k: int) -> bool {
    exists|j: int| 0 <= j < k && #[trigger] names[j].0 == names[k].0
}

fn is_named_before(names: &Vec<(Value, u64)>, k: usize) -> (r: bool)
    requires
        k < names@.len(),
    ensures
        r == named_before(names@, k as int),
{
    let mut j: usize = 0;
    while j < k
        invariant
            j <= k < names@.len(),
            forall|m: int| 0 <= m < j ==> #[trigger] names@[m].0 != names@[k as int].0,
        decreases k - j,
    {
        if names[j].0 == names[k].0 {
            return true;
        }
        j += 1;
    }
    false
}

/// The span of the first group of a name, from `k` on, that took part in the match.
pub open spec fn named_span(names: Seq<(Value, u64)>, name: Value, l: Seq<Value>, k: int) -> Option<
    (int, int),
>
    decreases names.len() - k,
{
    if k < 0 || k >= names.len() {
        None
    } else if names[k].0 == name && span(l, names[k].1 as int) is Some {
        span(l, names[k].1 as int)
    } else {
        named_span(names, name, l, k + 1)
    }
}

fn find_named_span(names: &Vec<(Value, u64)>, name: Value, l: &Vec<Value>) -> (r: Option<
    (u64, u64),
>)
    ensures
        match r {
            Some(p) => named_span(names@, name, l@, 0) == Some((p.0 as int, p.1 as int)),
            None => named_span(names@, name, l@, 0) is None,
        },
{
    let mut k: usize = 0;
    while k < names.len()
        invariant
            k <= names@.len(),
            named_span(names@, name, l@, 0) == named_span(names@, name, l@, k as int),
        decreases names@.len() - k,
    {
        if names[k].0 == name {
            match read_span(l, names[k].1) {
                Some(p) => {
                    return Some(p);
                },
                None => {},
            }
        }
        k += 1;
    }
    None
}

/// Stores one property per name from `k` on, in first-occurrence order; for duplicate names the
/// value comes from whichever same-named group actually matched (else undefined).
pub open spec fn names_stored(
    w: World,
    obj: Value,
    s: Units,
    names: Seq<(Value, u64)>,
    l: Seq<Value>,
    k: int,
    as_pairs: bool,
) -> World
    decreases names.len() - k,
{
    if k < 0 || k >= names.len() {
        w
    } else if named_before(names, k) {
        names_stored(w, obj, s, names, l, k + 1, as_pairs)
    } else {
        let p = named_span(names, names[k].0, l, 0);
        let (w, v) = if as_pairs {
            span_pair(w, p)
        } else {
            span_value(w, s, p)
        };
        let (w, _) = w.plain(
            Op::StoreProperty(obj, Key::Of(names[k].0), plain_property(v)),
            Seq::empty(),
        );
        names_stored(w, obj, s, names, l, k + 1, as_pairs)
    }
}

/// The `groups` object of a match: undefined where no group has a name.
pub open spec fn groups_object(
    w: World,
    s: Units,
    names: Seq<(Value, u64)>,
    l: Seq<Value>,
    as_pairs: bool,
) -> (World, Value) {
    if names.len() == 0 {
        (w, Value::Undefined)
    } else {
        let (w, obj) = w.plain(Op::NewWithPrototype(Value::Null), Seq::empty());
        (names_stored(w, obj, s, names, l, 0, as_pairs), obj)
    }
}

fn make_groups(
    i: &mut Interp,
    s: &Vec<u16>,
    names: &Vec<(Value, u64)>,
    l: &Vec<Value>,
    as_pairs: bool,
) -> (r: Value)
    ensures
        (final(i)@, r) == groups_object(old(i)@, s@, names@, l@, as_pairs),
{
    if names.len() == 0 {
        return Value::Undefined;
    }
    let obj = i.perform(Op::NewWithPrototype(Value::Null));
    let mut k: usize = 0;
    let ghost w0 = i@;
    while k < names.len()
        invariant
            k <= names@.len(),
            names_stored(w0, obj, s@, names@, l@, 0, as_pairs) == names_stored(
                i@,
                obj,
                s@,
                names@,
                l@,
                k as int,
                as_pairs,
            ),
        decreases names@.len() - k,
    {
        if !is_named_before(names, k) {
            let p = find_named_span(names, names[k].0, l);
            let v = if as_pairs {
                make_span_pair(i, p)
            } else {
                make_span_value(i, s, p)
            };
            set_data(i, obj, Key::Of(names[k].0), v);
        }
        k += 1;
    }
    obj
}

/// The array that stands for a match.
pub open spec fn match_object(w: World, input: u64, shape: Shape, l: Seq<Value>, at: (int, int)) -> (
    World,
    Value,
) {
    let s = w.units(input);
    let (w, first) = span_value(w, s, Some(at));
    let (w, items) = group_texts(w, s, l, 1, shape.groups as int, seq![first]);
    let (w, result) = w.plain(Op::NewArray, items);
    let (w, groups) = groups_object(w, s, shape.names, l, false);
    let (w, indices) = if shape.indices {
        let (w, pairs) = group_pairs(w, l, 0, shape.groups as int, Seq::empty());
        let (w, arr) = w.plain(Op::NewArray, pairs);
        let (w, named) = groups_object(w, s, shape.names, l, true);
        (stored(w, arr, Key::Name("groups"), named), arr)
    } else {
        (w, Value::Undefined)
    };
    let w = stored(w, result, Key::Name("index"), Value::Num(num::position(at.0)));
    let w = stored(w, result, Key::Name("input"), Value::Str(input));
    let w = stored(w, result, Key::Name("groups"), groups);
    if shape.indices {
        (stored(w, result, Key::Name("indices"), indices), result)
    } else {
        (w, result)
    }
}

fn make_match(i: &mut Interp, input: u64, p: &Program, l: &Vec<Value>, at: (u64, u64)) -> (r: Value)
    ensures
        (final(i)@, r) == match_object(old(i)@, input, p@, l@, (at.0 as int, at.1 as int)),
{
    let s = i.units(input);
    let first = make_span_value(i, &s, Some(at));
    let mut items: Vec<Value> = vec![first];
    assert(items@ =~= seq![first]);
    read_group_texts(i, &s, l, 1, p.groups, &mut items);
    let result = i.make_array(items);
    let groups = make_groups(i, &s, &p.names, l, false);
    let indices: Value = if p.indices {
        let pairs = read_group_pairs(i, l, p.groups);
        let arr = i.make_array(pairs);
        let named = make_groups(i, &s, &p.names, l, true);
        set_data(i, arr, Key::Name("groups"), named);
        arr
    } else {
        Value::Undefined
    };
    set_data(i, result, Key::Name("index"), Value::Num(count_number(at.0)));
    set_data(i, result, Key::Name("input"), Value::Str(input));
    set_data(i, result, Key::Name("groups"), groups);
    if p.indices {
        set_data(i, result, Key::Name("indices"), indices);
    }
    result
}

/// No match: a global or sticky expression starts over.
pub open spec fn missed(w: World, rx: Value, use_last: bool) -> Outcome<Value> {
    if use_last {
        let (w, p) = put(w, rx, Key::Name("lastIndex"), Value::Num(num::number(0)));
        match p {
            Err(e) => (w, Err(e)),
            Ok(_) => (w, Ok(Value::Null)),
        }
    } else {
        (w, Ok(Value::Null))
    }
}

fn miss(i: &mut Interp, rx: Value, use_last: bool) -> (r: Result<Value, Value>)
    ensures
        (final(i)@, r) == missed(old(i)@, rx, use_last),
{
    if use_last {
        let _ = set_throw(i, rx, Key::Name("lastIndex"), Value::Num(num::of_u64(0)))?;
    }
    Ok(Value::Null)
}

/// RegExpBuiltinExec from a known `lastIndex`.
pub open spec fn executed_from(w: World, rx: Value, input: u64, shape: Shape, last: u64) -> Outcome<
    Value,
> {
    let use_last = shape.global || shape.sticky;
    let start = if use_last {
        last
    } else {
        0
    };
    if start > w.units(input).len() {
        missed(w, rx, use_last)
    } else {
        let (w, l) = w.list(Op::MatchAt(rx, Value::Str(input), start));
        match l {
            Err(e) => (w, Err(e)),
            Ok(l) => match span(l, 0) {
                None => missed(w, rx, use_last),
                Some(at) => {
                    let (w, p) = if use_last {
                        put(w, rx, Key::Name("lastIndex"), Value::Num(num::position(at.1)))
                    } else {
                        (w, Ok(Value::Undefined))
                    };
                    match p {
                        Err(e) => (w, Err(e)),
                        Ok(_) => {
                            let (w, _) = w.plain(Op::RecordMatch(rx, Value::Str(input)), l);
                            let (w, m) = match_object(w, input, shape, l, at);
                            (w, Ok(m))
                        },
                    }
                },
            },
        }
    }
}

fn exec_from(i: &mut Interp, rx: Value, input: u64, p: &Program, last: u64) -> (r: Result<
    Value,
    Value,
>)
    ensures
        (final(i)@, r) == executed_from(old(i)@, rx, input, p@, last),
{
    let use_last = p.global || p.sticky;
    let start: u64 = if use_last {
        last
    } else {
        0
    };
    let s = i.units(input);
    if start > s.len() as u64 {
        return miss(i, rx, use_last);
    }
    let l: Vec<Value> = i.ask_list(Op::MatchAt(rx, Value::Str(input), start))?;
    match read_span(&l, 0) {
        None => miss(i, rx, use_last),
        Some(at) => {
            if use_last {
                let _ = set_throw(
                    i,
                    rx,
                    Key::Name("lastIndex"),
                    Value::Num(count_number(at.1)),
                )?;
            }
            let spans = crate::object::copy_list(&l);
            let _ = i.ask_plain(Op::RecordMatch(rx, Value::Str(input)), spans);
            Ok(make_match(i, input, p, &l, at))
        },
    }
}

/// `RegExp.prototype.exec`.
pub open spec fn executed(w: World, this: Value, args: Seq<Value>) -> Outcome<Value> {
    if !this.object() {
        w.throw(ErrorKind::Type, "exec on non-RegExp")
    } else {
        let (w, is_regexp) = w.yes(Op::HasBrand(this, Brand::RegExpData));
        if !is_regexp {
            w.throw(ErrorKind::Type, "exec on non-RegExp")
        } else {
            let (w, input) = w.text(arg_at(args, 0));
            match input {
                Err(e) => (w, Err(e)),
                Ok(input) => {
                    let (w, v) = w.get(this, Key::Name("lastIndex"));
                    match v {
                        Err(e) => (w, Err(e)),
                        Ok(v) => {
                            let (w, last) = value_length(w, v);
                            match last {
                                Err(e) => (w, Err(e)),
                                Ok(last) => {
                                    let (w, shape) = program_of(w, this);
                                    match shape {
                                        Err(e) => (w, Err(e)),
                                        Ok(shape) => executed_from(w, this, input, shape, last),
                                    }
                                },
                            }
                        },
                    }
                },
            }
        }
    }
}

/// `RegExp.prototype.exec`: returns the match array (with `index`/`input`) or `null`, advancing
/// `lastIndex` for global/sticky regexes. `lastIndex` is read (and length-coerced)
/// unconditionally; it only *steers* the match when the regexp is global or sticky. Its valueOf
/// can recompile the regexp, so the program is only sampled afterwards.
pub fn regexp_exec(i: &mut Interp, this: Value, args: &[Value]) -> (r: Result<Value, Value>)
    ensures
        (final(i)@, r) == executed(old(i)@, this, args@),
{
    if !this.is_object() {
        return i.type_error("exec on non-RegExp");
    }
    if !i.ask_yes(Op::HasBrand(this, Brand::RegExpData)) {
        return i.type_error("exec on non-RegExp");
    }
    let input: u64 = i.to_text(arg(args, 0))?;
    let v = i.get_member(this, Key::Name("lastIndex"))?;
    let last: u64 = to_length_val(i, v)?;
    let p = read_program(i, this)?;
    exec_from(i, this, input, &p, last)
}

/// RegExpExec.
pub open spec fn exec_called(w: World, rx: Value, s: u64) -> Outcome<Value> {
    let (w, exec) = w.get(rx, Key::Name("exec"));
    match exec {
        Err(e) => (w, Err(e)),
        Ok(exec) => if exec.callable() {
            let (w, res) = w.call(exec, rx, seq![Value::Str(s)]);
            match res {
                Err(e) => (w, Err(e)),
                Ok(res) => if res.object() || res == Value::Null {
                    (w, Ok(res))
                } else {
                    w.throw(
                        ErrorKind::Type,
                        "RegExp exec method returned something other than an Object or null",
                    )
                },
            }
        } else if !rx.object() {
            w.throw(ErrorKind::Type, "exec called on a non-RegExp object")
        } else {
            let (w, is_regexp) = w.yes(Op::HasBrand(rx, Brand::RegExpData));
            if !is_regexp {
                w.throw(ErrorKind::Type, "exec called on a non-RegExp object")
            } else {
                executed(w, rx, seq![Value::Str(s)])
            }
        },
    }
}

/// RegExpExec(R, S): call `R.exec` if it is callable (validating the result is an Object or null),
/// otherwise fall back to the built-in `RegExp.prototype.exec` (which requires a real RegExp).
pub fn regexp_exec_abstract(i: &mut Interp, rx: Value, s: u64) -> (r: Result<Value, Value>)
    ensures
        (final(i)@, r) == exec_called(old(i)@, rx, s),
{
    let exec = i.get_member(rx, Key::Name("exec"))?;
    let list = vec![Value::Str(s)];
    assert(list@ =~= seq![Value::Str(s)]);
    if exec.is_callable() {
        let res = i.call(exec, rx, list)?;
        return match res {
            Value::Obj(_) => Ok(res),
            Value::Null => Ok(res),
            _ => i.type_error(
                "RegExp exec method returned something other than an Object or null",
            ),
        };
    }
    if !rx.is_object() {
        return i.type_error("exec called on a non-RegExp object");
    }
    if !i.ask_yes(Op::HasBrand(rx, Brand::RegExpData)) {
        return i.type_error("exec called on a non-RegExp object");
    }
    regexp_exec(i, rx, list.as_slice())
}

// Global iteration

/// The spans of all non-overlapping matches from `pos` on, up to one more than `limit` of them.
pub open spec fn matches_from(
    w: World,
    rx: Value,
    input: u64,
    unicode: bool,
    pos: int,
    limit: int,
    out: Seq<Seq<Value>>,
) -> Outcome<Seq<Seq<Value>>>
    decreases w.left(),
{
    if pos < 0 || pos > w.units(input).len() {
        (w, Ok(out))
    } else {
        let (w1, l) = w.list(Op::MatchAt(rx, Value::Str(input), pos as u64));
        match l {
            Err(e) => (w1, Err(e)),
            Ok(l) => match span(l, 0) {
                None => (w1, Ok(out)),
                Some(at) => {
                    let next = after_match(w1.units(input), at, unicode);
                    if out.len() + 1 > limit {
                        (w1, Ok(out.push(l)))
                    } else {
                        matches_from(w1, rx, input, unicode, next, limit, out.push(l))
                    }
                },
            },
        }
    }
}

/// Where the search goes on: behind the match, or past one character behind an empty one.
pub open spec fn after_match(s: Units, at: (int, int), unicode: bool) -> int {
    if at.1 > at.0 {
        at.1
    } else if at.1 < s.len() {
        advanced(s, at.1, unicode)
    } else {
        (s.len() + 1) as int
    }
}

fn position_after(s: &Vec<u16>, at: (u64, u64), unicode: bool) -> (r: Option<u64>)
    ensures
        match r {
            Some(p) => p == after_match(s@, (at.0 as int, at.1 as int), unicode),
            None => after_match(s@, (at.0 as int, at.1 as int), unicode) > s@.len(),
        },
{
    if at.1 > at.0 {
        Some(at.1)
    } else if s.len() > 0 && at.1 < s.len() as u64 - 1 {
        Some(advance_string_index(s, at.1, unicode))
    } else if at.1 < s.len() as u64 {
        Some(s.len() as u64)
    } else {
        None
    }
}

pub open spec fn list_views(v: Seq<Vec<Value>>) -> Seq<Seq<Value>> {
    v.map_values(|l: Vec<Value>| l@)
}

/// All non-overlapping matches of `re` in `text`, each as capture spans.
pub fn regex_find_all(i: &mut Interp, rx: Value, input: u64, unicode: bool, limit: u64) -> (r: Result<
    Vec<Vec<Value>>,
    Value,
>)
    ensures
        final(i)@ == matches_from(
            old(i)@,
            rx,
            input,
            unicode,
            0,
            limit as int,
            Seq::empty(),
        ).0,
        match r {
            Ok(v) => matches_from(old(i)@, rx, input, unicode, 0, limit as int, Seq::empty()).1
                == Ok::<Seq<Seq<Value>>, Value>(list_views(v@)),
            Err(e) => matches_from(old(i)@, rx, input, unicode, 0, limit as int, Seq::empty()).1
                == Err::<Seq<Seq<Value>>, Value>(e),
        },
{
    let mut out: Vec<Vec<Value>> = Vec::new();
    let s = i.units(input);
    let mut pos: u64 = 0;
    assert(list_views(out@) =~= Seq::<Seq<Value>>::empty());
    loop
        invariant
            s@ == i@.units(input),
            matches_from(old(i)@, rx, input, unicode, 0, limit as int, Seq::empty())
                == matches_from(i@, rx, input, unicode, pos as int, limit as int, list_views(out@)),
        decreases i@.left(),
    {
        if pos > s.len() as u64 {
            return Ok(out);
        }
        let l: Vec<Value> = i.ask_list(Op::MatchAt(rx, Value::Str(input), pos))?;
        match read_span(&l, 0) {
            None => {
                return Ok(out);
            },
            Some(at) => {
                let ghost before = out@;
                let ghost lv = l@;
                out.push(l);
                assert(list_views(out@) =~= list_views(before).push(lv));
                if out.len() as u64 > limit {
                    return Ok(out);
                }
                match position_after(&s, at, unicode) {
                    Some(p) => {
                        pos = p;
                    },
                    None => {
                        assert(matches_from(
                            i@,
                            rx,
                            input,
                            unicode,
                            after_match(s@, (at.0 as int, at.1 as int), unicode),
                            limit as int,
                            list_views(out@),
                        ) == (i@, Ok::<Seq<Seq<Value>>, Value>(list_views(out@))));
                        return Ok(out);
                    },
                }
            },
        }
    }
}

/// The whole matching side of a literal whose result is dead: each match is recorded, and a
/// global expression goes on behind it.
pub open spec fn recorded_from(w: World, rx: Value, input: u64, shape: Shape, pos: int) -> Outcome<()>
    decreases w.left(),
{
    if pos < 0 || pos > w.units(input).len() {
        (w, Ok(()))
    } else {
        let (w1, l) = w.list(Op::MatchAt(rx, Value::Str(input), pos as u64));
        match l {
            Err(e) => (w1, Err(e)),
            Ok(l) => match span(l, 0) {
                None => (w1, Ok(())),
                Some(at) => {
                    let (w2, _) = w1.plain(Op::RecordMatch(rx, Value::Str(input)), l);
                    if !shape.global {
                        (w2, Ok(()))
                    } else {
                        recorded_from(
                            w2,
                            rx,
                            input,
                            shape,
                            after_match(w2.units(input), at, shape.unicode),
                        )
                    }
                },
            },
        }
    }
}

/// Run the real matcher for a fresh RegExp literal used by a dead-result `String#match` or
/// `String#replace`. The result is unobservable, but global iteration, empty-match advancement
/// and the record of the last match are preserved.
pub fn regexp_literal_match_discard(i: &mut Interp, rx: Value, input: u64, p: &Program) -> (r: Result<
    (),
    Value,
>)
    ensures
        (final(i)@, r) == recorded_from(old(i)@, rx, input, p@, 0),
{
    let s = i.units(input);
    let mut pos: u64 = 0;
    loop
        invariant
            s@ == i@.units(input),
            recorded_from(old(i)@, rx, input, p@, 0) == recorded_from(
                i@,
                rx,
                input,
                p@,
                pos as int,
            ),
        decreases i@.left(),
    {
        if pos > s.len() as u64 {
            return Ok(());
        }
        let l: Vec<Value> = i.ask_list(Op::MatchAt(rx, Value::Str(input), pos))?;
        match read_span(&l, 0) {
            None => {
                return Ok(());
            },
            Some(at) => {
                let _ = i.ask_plain(Op::RecordMatch(rx, Value::Str(input)), l);
                if !p.global {
                    return Ok(());
                }
                match position_after(&s, at, p.unicode) {
                    Some(q) => {
                        pos = q;
                    },
                    None => {
                        assert(recorded_from(
                            i@,
                            rx,
                            input,
                            p@,
                            after_match(s@, (at.0 as int, at.1 as int), p.unicode),
                        ) == (i@, Ok::<(), Value>(())));
                        return Ok(());
                    },
                }
            },
        }
    }
}

/// The same for a dead-result `String#replace`: replacement construction itself is unobservable
/// once its already-string value and the built-in identities are proven.
pub fn regexp_literal_replace_discard(i: &mut Interp, rx: Value, input: u64, p: &Program) -> (r:
    Result<(), Value>)
    ensures
        (final(i)@, r) == recorded_from(old(i)@, rx, input, p@, 0),
{
    regexp_literal_match_discard(i, rx, input, p)
}

/// The matching side of a fresh literal whose `exec` result is dead: one match from the start of
/// the string, recorded where there is one.
pub open spec fn recorded_once(w: World, rx: Value, input: u64) -> Outcome<()> {
    let (w, l) = w.list(Op::MatchAt(rx, Value::Str(input), 0));
    match l {
        Err(e) => (w, Err(e)),
        Ok(l) => if span(l, 0) is Some {
            let (w, _) = w.plain(Op::RecordMatch(rx, Value::Str(input)), l);
            (w, Ok(()))
        } else {
            (w, Ok(()))
        },
    }
}

/// Execute the matcher side of a fresh RegExp literal whose `exec` result and wrapper identity
/// are both dead.
pub fn regexp_literal_exec_discard(i: &mut Interp, rx: Value, input: u64) -> (r: Result<(), Value>)
    ensures
        (final(i)@, r) == recorded_once(old(i)@, rx, input),
{
    let l: Vec<Value> = i.ask_list(Op::MatchAt(rx, Value::Str(input), 0))?;
    if read_span(&l, 0).is_some() {
        let _ = i.ask_plain(Op::RecordMatch(rx, Value::Str(input)), l);
    }
    Ok(())
}

// Splitting by a regular expression

/// The pieces of a split: what lies between matches, and the captures of each match.
pub open spec fn split_by(
    w: World,
    s: Units,
    found: Seq<Seq<Value>>,
    groups: int,
    limit: int,
    k: int,
    last: int,
    out: Seq<Value>,
) -> (World, Seq<Value>)
    decreases found.len() - k,
{
    if k < 0 || k >= found.len() {
        let (w, v) = span_value(w, s, Some((last, s.len() as int)));
        (w, out.push(v))
    } else {
        let l = found[k];
        match span(l, 0) {
            None => split_by(w, s, found, groups, limit, k + 1, last, out),
            Some(at) => if at.0 == at.1 && (at.1 == 0 || at.0 >= s.len()) {
                split_by(w, s, found, groups, limit, k + 1, last, out)
            } else {
                let (w, v) = span_value(w, s, Some((last, at.0)));
                let out = out.push(v);
                if out.len() >= limit {
                    (w, out)
                } else {
                    let (w, out) = captures_added(w, s, l, groups, limit, 1, out);
                    if out.len() >= limit {
                        (w, out)
                    } else {
                        split_by(w, s, found, groups, limit, k + 1, at.1, out)
                    }
                }
            },
        }
    }
}

/// Adds the captures from `g` on until the limit is reached.
pub open spec fn captures_added(
    w: World,
    s: Units,
    l: Seq<Value>,
    groups: int,
    limit: int,
    g: int,
    out: Seq<Value>,
) -> (World, Seq<Value>)
    decreases groups + 1 - g,
{
    if g > groups || out.len() >= limit {
        (w, out)
    } else {
        let (w, v) = span_value(w, s, span(l, g));
        captures_added(w, s, l, groups, limit, g + 1, out.push(v))
    }
}

fn add_captures(
    i: &mut Interp,
    s: &Vec<u16>,
    l: &Vec<Value>,
    groups: u64,
    limit: u32,
    out: &mut Vec<Value>,
)
    ensures
        (final(i)@, final(out)@) == captures_added(
            old(i)@,
            s@,
            l@,
            groups as int,
            limit as int,
            1,
            old(out)@,
        ),
{
    let mut g: u64 = 1;
    loop
        invariant
            captures_added(old(i)@, s@, l@, groups as int, limit as int, 1, old(out)@)
                == captures_added(
                i@,
                s@,
                l@,
                groups as int,
                limit as int,
                g as int,
                out@,
            ),
        decreases groups + 1 - g,
    {
        if g > groups || out.len() as u64 >= limit as u64 {
            return;
        }
        let p = read_span(l, g);
        let v = make_span_value(i, s, p);
        out.push(v);
        if g == u64::MAX {
            assert(captures_added(i@, s@, l@, groups as int, limit as int, g + 1, out@) == (
                i@,
                out@,
            ));
            return;
        }
        g += 1;
    }
}

/// Split on each match; group captures are inserted between pieces.
pub fn split_pieces(
    i: &mut Interp,
    s: &Vec<u16>,
    found: &Vec<Vec<Value>>,
    groups: u64,
    limit: u32,
) -> (r: Vec<Value>)
    requires
        limit > 0,
    ensures
        (final(i)@, r@) == split_by(
            old(i)@,
            s@,
            list_views(found@),
            groups as int,
            limit as int,
            0,
            0,
            Seq::empty(),
        ),
{
    let mut out: Vec<Value> = Vec::new();
    let mut last: u64 = 0;
    let mut k: usize = 0;
    let ghost fv = list_views(found@);
    assert(out@ =~= Seq::<Value>::empty());
    while k < found.len()
        invariant
            k <= found@.len(),
            fv == list_views(found@),
            split_by(old(i)@, s@, fv, groups as int, limit as int, 0, 0, Seq::empty()) == split_by(
                i@,
                s@,
                fv,
                groups as int,
                limit as int,
                k as int,
                last as int,
                out@,
            ),
        decreases found@.len() - k,
    {
        let l = &found[k];
        assert(fv[k as int] == l@);
        match read_span(l, 0) {
            None => {},
            Some(at) => {
                // A zero-width match at the very start or end of the string does not count.
                if !(at.0 == at.1 && (at.1 == 0 || at.0 >= s.len() as u64)) {
                    let v = make_span_value(i, s, Some((last, at.0)));
                    out.push(v);
                    if out.len() as u64 >= limit as u64 {
                        return out;
                    }
                    add_captures(i, s, l, groups, limit, &mut out);
                    if out.len() as u64 >= limit as u64 {
                        return out;
                    }
                    last = at.1;
                }
            },
        }
        k += 1;
    }
    let v = make_span_value(i, s, Some((last, s.len() as u64)));
    out.push(v);
    out
}

// Legacy statics

/// What `RegExp.input`, `lastMatch`, `leftContext`, `rightContext`, `lastParen` and `$1` to `$9`
/// read.
pub struct LegacyStatics {
    pub input: Vec<u16>,
    pub last_match: Vec<u16>,
    pub left_context: Vec<u16>,
    pub right_context: Vec<u16>,
    pub last_paren: Vec<u16>,
    pub dollars: Vec<Vec<u16>>,
}

/// The text of a group, empty where it took no part.
pub open spec fn group_text(s: Units, l: Seq<Value>, g: int) -> Units {
    match span(l, g) {
        Some(p) => span_text(s, p),
        None => Seq::empty(),
    }
}

fn read_group_text(s: &Vec<u16>, l: &Vec<Value>, g: u64) -> (r: Vec<u16>)
    ensures
        r@ == group_text(s@, l@, g as int),
{
    match read_span(l, g) {
        Some(p) => read_span_text(s, p),
        None => {
            let r: Vec<u16> = Vec::new();
            assert(r@ =~= Seq::<u16>::empty());
            r
        },
    }
}

/// The statics after a match of `groups` groups with the listed spans.
pub fn legacy_statics(s: &Vec<u16>, l: &Vec<Value>, groups: u64) -> (r: LegacyStatics)
    requires
        span(l@, 0) is Some,
    ensures
        r.input@ == s@,
        r.last_match@ == group_text(s@, l@, 0),
        r.left_context@ == span_text(s@, (0, span(l@, 0).unwrap().0)),
        r.right_context@ == span_text(s@, (span(l@, 0).unwrap().1, s@.len() as int)),
        r.last_paren@ == if groups >= 1 {
            group_text(s@, l@, groups as int)
        } else {
            Seq::empty()
        },
        r.dollars@.len() == 9,
        forall|k: int| 0 <= k < 9 ==> (#[trigger] r.dollars@[k])@ == group_text(s@, l@, k + 1),
{
    let at = match read_span(l, 0) {
        Some(at) => at,
        None => (0, 0),
    };
    let mut dollars: Vec<Vec<u16>> = Vec::new();
    let mut k: u64 = 0;
    while k < 9
        invariant
            k <= 9,
            dollars@.len() == k,
            forall|j: int| 0 <= j < k ==> (#[trigger] dollars@[j])@ == group_text(s@, l@, j + 1),
        decreases 9 - k,
    {
        dollars.push(read_group_text(s, l, k + 1));
        k += 1;
    }
    let last_paren: Vec<u16> = if groups >= 1 {
        read_group_text(s, l, groups)
    } else {
        Vec::new()
    };
    assert(groups < 1 ==> last_paren@ =~= Seq::<u16>::empty());
    let input = crate::string::cut(s, 0, s.len());
    assert(input@ =~= s@);
    LegacyStatics {
        input,
        last_match: read_group_text(s, l, 0),
        left_context: read_span_text(s, (0, at.0)),
        right_context: read_span_text(s, (at.1, s.len() as u64)),
        last_paren,
        dollars,
    }
}

/// A match that lies in the string, with what is left and right of it, is the whole string.
pub proof fn law_contexts_cover_the_string(s: Units, at: (int, int))
    requires
        0 <= at.0 <= at.1 <= s.len(),
    ensures
        span_text(s, (0, at.0)) + span_text(s, at) + span_text(s, (at.1, s.len() as int)) == s,
{
    assert(span_text(s, (0, at.0)) + span_text(s, at) + span_text(s, (at.1, s.len() as int)) =~= s);
}

/// Stores a static of the constructor: writable, not enumerable, not configurable.
pub open spec fn static_stored(w: World, ctor: Value, name: &'static str, u: Units) -> World {
    let (w, s) = w.intern(u);
    let p = Property::data(Value::Str(s), true, false, false);
    w.plain(Op::StoreProperty(ctor, Key::Name(name), p), Seq::empty()).0
}

fn store_static(i: &mut Interp, ctor: Value, name: &'static str, u: Vec<u16>)
    ensures
        final(i)@ == static_stored(old(i)@, ctor, name, u@),
{
    let s: u64 = i.intern(u);
    let p = Property::new_data(Value::Str(s), true, false, false);
    let _ = i.perform(Op::StoreProperty(ctor, Key::Name(name), p));
}

/// The slots of `$1` to `$9`.
pub const DOLLARS: [&'static str; 9] = [
    "__legacy_$1",
    "__legacy_$2",
    "__legacy_$3",
    "__legacy_$4",
    "__legacy_$5",
    "__legacy_$6",
    "__legacy_$7",
    "__legacy_$8",
    "__legacy_$9",
];

/// Stores the groups from the `k`-th slot on.
pub open spec fn dollars_stored(w: World, ctor: Value, s: Units, l: Seq<Value>, k: int) -> World
    decreases 9 - k,
{
    if k < 0 || k >= 9 {
        w
    } else {
        dollars_stored(
            static_stored(w, ctor, DOLLARS@[k], group_text(s, l, k + 1)),
            ctor,
            s,
            l,
            k + 1,
        )
    }
}

/// Stores all statics of a match.
pub open spec fn statics_stored(
    w: World,
    ctor: Value,
    s: Units,
    l: Seq<Value>,
    groups: int,
    at: (int, int),
) -> World {
    let w = static_stored(w, ctor, "__legacy_input", s);
    let w = static_stored(w, ctor, "__legacy_lastMatch", span_text(s, at));
    let w = static_stored(w, ctor, "__legacy_leftContext", span_text(s, (0, at.0)));
    let w = static_stored(
        w,
        ctor,
        "__legacy_rightContext",
        span_text(s, (at.1, s.len() as int)),
    );
    let w = static_stored(
        w,
        ctor,
        "__legacy_lastParen",
        if groups >= 1 {
            group_text(s, l, groups)
        } else {
            Seq::empty()
        },
    );
    dollars_stored(w, ctor, s, l, 0)
}

/// A match whose statics have not been stored yet.
pub struct PendingMatch {
    pub ctor: Value,
    pub regexp: Value,
    pub input: u64,
    /// The spans of the match and its groups; of the match alone where the groups are put off.
    pub spans: Vec<Value>,
    pub groups: u64,
    /// Where the search started, if the spans of the groups are put off.
    pub search_start: Option<u64>,
}

/// A pending match as contracts speak of it.
pub struct Pending {
    pub ctor: Value,
    pub regexp: Value,
    pub input: u64,
    pub spans: Seq<Value>,
    pub groups: u64,
    pub search_start: Option<u64>,
}

impl View for PendingMatch {
    type V = Pending;

    open spec fn view(&self) -> Pending {
        Pending {
            ctor: self.ctor,
            regexp: self.regexp,
            input: self.input,
            spans: self.spans@,
            groups: self.groups,
            search_start: self.search_start,
        }
    }
}

/// The spans of a pending match: those that were put off are found again by the same search.
pub open spec fn pending_spans(w: World, m: Pending) -> (World, Seq<Value>) {
    match m.search_start {
        None => (w, m.spans),
        Some(start) => {
            let (w, l) = w.list(Op::MatchAt(m.regexp, Value::Str(m.input), start));
            match l {
                Ok(l) => if span(l, 0) is Some {
                    (w, l)
                } else {
                    (w, m.spans)
                },
                Err(_) => (w, m.spans),
            }
        },
    }
}

/// Stores the statics of a pending match.
pub open spec fn flushed(w: World, m: Option<Pending>) -> World {
    match m {
        None => w,
        Some(m) => {
            let (w, l) = pending_spans(w, m);
            match span(l, 0) {
                None => w,
                Some(at) => statics_stored(w, m.ctor, w.units(m.input), l, m.groups as int, at),
            }
        },
    }
}

pub open spec fn pending_view(m: Option<PendingMatch>) -> Option<Pending> {
    match m {
        Some(m) => Some(m@),
        None => None,
    }
}

fn read_pending_spans(i: &mut Interp, m: &PendingMatch) -> (r: Vec<Value>)
    ensures
        (final(i)@, r@) == pending_spans(old(i)@, m@),
{
    match m.search_start {
        None => crate::object::copy_list(&m.spans),
        Some(start) => match i.ask_list(Op::MatchAt(m.regexp, Value::Str(m.input), start)) {
            Ok(l) => match read_span(&l, 0) {
                Some(_) => l,
                None => crate::object::copy_list(&m.spans),
            },
            Err(_) => crate::object::copy_list(&m.spans),
        },
    }
}

fn store_dollars(i: &mut Interp, ctor: Value, s: &Vec<u16>, l: &Vec<Value>)
    ensures
        final(i)@ == dollars_stored(old(i)@, ctor, s@, l@, 0),
{
    let mut k: usize = 0;
    while k < 9
        invariant
            k <= 9,
            dollars_stored(old(i)@, ctor, s@, l@, 0) == dollars_stored(
                i@,
                ctor,
                s@,
                l@,
                k as int,
            ),
        decreases 9 - k,
    {
        let u = read_group_text(s, l, k as u64 + 1);
        store_static(i, ctor, DOLLARS[k], u);
        k += 1;
    }
}

/// Materialize the pending legacy-statics match (if any) into its constructor's hidden props.
/// Called by the `RegExp.$1`/`lastMatch`/... accessors before they read.
pub fn flush_regexp_legacy(i: &mut Interp, slot: &mut Option<PendingMatch>)
    ensures
        final(i)@ == flushed(old(i)@, pending_view(*old(slot))),
        *final(slot) is None,
{
    match slot.take() {
        None => {},
        Some(m) => {
            let l = read_pending_spans(i, &m);
            match read_span(&l, 0) {
                None => {},
                Some(at) => {
                    let s = i.units(m.input);
                    let statics = legacy_statics(&s, &l, m.groups);
                    store_static(i, m.ctor, "__legacy_input", statics.input);
                    store_static(i, m.ctor, "__legacy_lastMatch", statics.last_match);
                    store_static(i, m.ctor, "__legacy_leftContext", statics.left_context);
                    store_static(i, m.ctor, "__legacy_rightContext", statics.right_context);
                    store_static(i, m.ctor, "__legacy_lastParen", statics.last_paren);
                    store_dollars(i, m.ctor, &s, &l);
                },
            }
        },
    }
}

/// Recording a match: a pending match of a *different* constructor is flushed first, so that its
/// statics are not lost; one of the same constructor is dropped.
pub open spec fn recorded(w: World, slot: Option<Pending>, m: Pending) -> World {
    match slot {
        Some(p) => if p.ctor != m.ctor {
            flushed(w, slot)
        } else {
            w
        },
        None => w,
    }
}

/// Record a successful match for the legacy `RegExp.$1`-style statics — deferred: the 14 strings
/// only materialize when one of the accessors actually reads them.
pub fn update_regexp_legacy_statics(i: &mut Interp, slot: &mut Option<PendingMatch>, m: PendingMatch)
    ensures
        final(i)@ == recorded(old(i)@, pending_view(*old(slot)), m@),
        *final(slot) == Some(m),
{
    let foreign = match slot {
        Some(p) => p.ctor != m.ctor,
        None => false,
    };
    if foreign {
        flush_regexp_legacy(i, slot);
    }
    *slot = Some(m);
}

/// Flushing twice is flushing once: nothing is pending afterwards.
pub proof fn law_flush_leaves_nothing(w: World, m: Option<Pending>)
    ensures
        flushed(flushed(w, m), None) == flushed(w, m),
{
}

// Matching without a result

/// RegExpBuiltinExec from a known `lastIndex`, for its effects: whether there was a match.
pub open spec fn discarded_from(w: World, rx: Value, input: u64, shape: Shape, last: u64) -> Outcome<
    bool,
> {
    let use_last = shape.global || shape.sticky;
    let start = if use_last {
        last
    } else {
        0
    };
    if start > w.units(input).len() {
        let (w, r) = missed(w, rx, use_last);
        match r {
            Err(e) => (w, Err(e)),
            Ok(_) => (w, Ok(false)),
        }
    } else {
        let (w, l) = w.list(Op::MatchAt(rx, Value::Str(input), start));
        match l {
            Err(e) => (w, Err(e)),
            Ok(l) => match span(l, 0) {
                None => {
                    let (w, r) = missed(w, rx, use_last);
                    match r {
                        Err(e) => (w, Err(e)),
                        Ok(_) => (w, Ok(false)),
                    }
                },
                Some(at) => {
                    let (w, p) = if use_last {
                        put(w, rx, Key::Name("lastIndex"), Value::Num(num::position(at.1)))
                    } else {
                        (w, Ok(Value::Undefined))
                    };
                    match p {
                        Err(e) => (w, Err(e)),
                        Ok(_) => {
                            let (w, _) = w.plain(Op::RecordMatch(rx, Value::Str(input)), l);
                            (w, Ok(true))
                        },
                    }
                },
            },
        }
    }
}

/// `exec` for a call whose result is immediately discarded: all matcher side effects (lastIndex and
/// the record of the last match) are preserved, and no result is allocated.
pub fn regexp_exec_discard_direct(i: &mut Interp, rx: Value, p: &Program, input: u64, last: u64) -> (r:
    Result<bool, Value>)
    ensures
        (final(i)@, r) == discarded_from(old(i)@, rx, input, p@, last),
{
    let use_last = p.global || p.sticky;
    let start: u64 = if use_last {
        last
    } else {
        0
    };
    let s = i.units(input);
    if start > s.len() as u64 {
        let _ = miss(i, rx, use_last)?;
        return Ok(false);
    }
    let l: Vec<Value> = i.ask_list(Op::MatchAt(rx, Value::Str(input), start))?;
    match read_span(&l, 0) {
        None => {
            let _ = miss(i, rx, use_last)?;
            Ok(false)
        },
        Some(at) => {
            if use_last {
                let _ = set_throw(
                    i,
                    rx,
                    Key::Name("lastIndex"),
                    Value::Num(count_number(at.1)),
                )?;
            }
            let _ = i.ask_plain(Op::RecordMatch(rx, Value::Str(input)), l);
            Ok(true)
        },
    }
}

/// Discarding the result changes nothing but the result: without a match both do the same, and
/// both fail alike.
pub proof fn law_discarding_agrees(w: World, rx: Value, input: u64, shape: Shape, last: u64)
    ensures
        ({
            let full = executed_from(w, rx, input, shape, last);
            let bare = discarded_from(w, rx, input, shape, last);
            &&& bare.1 == Ok::<bool, Value>(false) ==> full == (bare.0, Ok::<Value, Value>(Value::Null))
            &&& bare.1 matches Err(e) ==> full == (bare.0, Err::<Value, Value>(e))
            &&& full.1 is Err ==> bare.1 is Err
        }),
{
}

/// The `lastIndex` of a property that no code runs for: a writable data property that holds a
/// non-negative integral Number.
pub open spec fn plain_last_index(p: Option<Property>) -> Option<u64> {
    match p {
        None => None,
        Some(p) => if p.accessor || !p.writable {
            None
        } else {
            match p.value {
                Value::Num(n) => if num::integral(n) && !num::less(n, 0) {
                    Some(num::cast_u64(n) as u64)
                } else {
                    None
                },
                _ => None,
            }
        },
    }
}

fn read_plain_last_index(p: Option<Property>) -> (r: Option<u64>)
    ensures
        r == plain_last_index(p),
{
    match p {
        None => None,
        Some(p) => {
            if p.accessor || !p.writable {
                return None;
            }
            match p.value {
                Value::Num(n) => if num::is_integral(n) && !num::is_less(n, 0) {
                    Some(num::as_u64(n))
                } else {
                    None
                },
                _ => None,
            }
        },
    }
}

/// `exec` with a dead result, where its receiver is a RegExp whose `lastIndex` runs no code; none
/// otherwise.
pub open spec fn plainly_discarded(w: World, this: Value, input: u64) -> (
    World,
    Option<Result<bool, Value>>,
) {
    if !this.object() {
        (w, None)
    } else {
        let (w, l) = w.list(Op::RegExpShape(this));
        match l {
            Err(e) => (w, Some(Err(e))),
            Ok(l) => match shape_of(l) {
                None => (w, None),
                Some(shape) => {
                    let (w, p) = w.property(Op::StoredProperty(this, Key::Name("lastIndex")));
                    match p {
                        Err(e) => (w, Some(Err(e))),
                        Ok(p) => match plain_last_index(p) {
                            None => (w, None),
                            Some(last) => {
                                let (w, r) = discarded_from(w, this, input, shape, last);
                                (w, Some(r))
                            },
                        },
                    }
                },
            },
        }
    }
}

/// `exec` for a call whose result is immediately discarded. Returns none unless every potentially
/// observable coercion and property operation is proven to be the ordinary built-in shape, in which
/// case all matcher side effects are preserved.
pub fn regexp_exec_discard_fast(i: &mut Interp, this: Value, input: u64) -> (r: Option<
    Result<bool, Value>,
>)
    ensures
        (final(i)@, r) == plainly_discarded(old(i)@, this, input),
{
    if !this.is_object() {
        return None;
    }
    let l: Vec<Value> = match i.ask_list(Op::RegExpShape(this)) {
        Err(e) => return Some(Err(e)),
        Ok(l) => l,
    };
    let p: Program = match read_shape(&l) {
        None => return None,
        Some(p) => p,
    };
    let stored = match i.ask_property(Op::StoredProperty(this, Key::Name("lastIndex"))) {
        Err(e) => return Some(Err(e)),
        Ok(stored) => stored,
    };
    match read_plain_last_index(stored) {
        None => None,
        Some(last) => Some(regexp_exec_discard_direct(i, this, &p, input, last)),
    }
}

// The iterator of matchAll

/// The state of a RegExp String Iterator.
#[derive(Clone, Copy, PartialEq, Eq, Structural, Debug)]
pub struct RegExpStringIter {
    pub regexp: Value,
    pub string: u64,
    pub global: bool,
    pub unicode: bool,
    pub done: bool,
}

/// After an empty match the search goes on one character further.
pub open spec fn pushed_on(w: World, it: RegExpStringIter) -> Outcome<()> {
    let (w, v) = w.get(it.regexp, Key::Name("lastIndex"));
    match v {
        Err(e) => (w, Err(e)),
        Ok(v) => {
            let (w, last) = value_length(w, v);
            match last {
                Err(e) => (w, Err(e)),
                Ok(last) => {
                    let next = advanced(w.units(it.string), last as int, it.unicode);
                    let (w, p) = put(
                        w,
                        it.regexp,
                        Key::Name("lastIndex"),
                        Value::Num(num::position(next)),
                    );
                    match p {
                        Err(e) => (w, Err(e)),
                        Ok(_) => (w, Ok(())),
                    }
                },
            }
        },
    }
}

fn push_on(i: &mut Interp, it: RegExpStringIter) -> (r: Result<(), Value>)
    ensures
        (final(i)@, r) == pushed_on(old(i)@, it),
{
    let v = i.get_member(it.regexp, Key::Name("lastIndex"))?;
    let last: u64 = to_length_val(i, v)?;
    let s = i.units(it.string);
    let next: u64 = advance_string_index(&s, last, it.unicode);
    let _ = set_throw(i, it.regexp, Key::Name("lastIndex"), Value::Num(count_number(next)))?;
    Ok(())
}

/// One step of the iterator: what it leaves behind, and the iterator result.
pub open spec fn match_stepped(w: World, it: RegExpStringIter) -> (
    World,
    RegExpStringIter,
    Result<Value, Value>,
) {
    if it.done {
        let (w, r) = w.iter_result(Value::Undefined, true);
        (w, it, r)
    } else {
        let (w, m) = exec_called(w, it.regexp, it.string);
        match m {
            Err(e) => (w, it, Err(e)),
            Ok(m) => if m == Value::Null {
                let (w, r) = w.iter_result(Value::Undefined, true);
                (w, RegExpStringIter { done: true, ..it }, r)
            } else if !it.global {
                let (w, r) = w.iter_result(m, false);
                (w, RegExpStringIter { done: true, ..it }, r)
            } else {
                let (w, v) = w.get(m, Key::Index(0));
                match v {
                    Err(e) => (w, it, Err(e)),
                    Ok(v) => {
                        let (w, text) = w.text(v);
                        match text {
                            Err(e) => (w, it, Err(e)),
                            Ok(text) => {
                                let (w, p) = if w.units(text).len() == 0 {
                                    pushed_on(w, it)
                                } else {
                                    (w, Ok(()))
                                };
                                match p {
                                    Err(e) => (w, it, Err(e)),
                                    Ok(_) => {
                                        let (w, r) = w.iter_result(m, false);
                                        (w, it, r)
                                    },
                                }
                            },
                        }
                    },
                }
            },
        }
    }
}

/// `%RegExpStringIteratorPrototype%.next`.
pub fn regexp_string_iterator_next(i: &mut Interp, it: &mut RegExpStringIter) -> (r: Result<
    Value,
    Value,
>)
    ensures
        (final(i)@, *final(it), r) == match_stepped(old(i)@, *old(it)),
{
    if it.done {
        return i.iter_result(Value::Undefined, true);
    }
    let m = regexp_exec_abstract(i, it.regexp, it.string)?;
    match m {
        Value::Null => {
            it.done = true;
            return i.iter_result(Value::Undefined, true);
        },
        _ => {},
    }
    if it.global {
        let v = i.get_member(m, Key::Index(0))?;
        let text: u64 = i.to_text(v)?;
        let u = i.units(text);
        if u.len() == 0 {
            push_on(i, *it)?;
        }
    } else {
        it.done = true;
    }
    i.iter_result(m, false)
}

/// Once the iterator has reported its end it stays there and runs no more code.
pub proof fn law_finished_match_iterator_stays_done(w: World, it: RegExpStringIter)
    requires
        it.done,
    ensures
        match_stepped(w, it).1 == it,
        match_stepped(w, it).0 == w.plain(
            Op::NewIterResult(Value::Undefined, true),
            Seq::empty(),
        ).0,
{
}

/// A refused or failed match of a global or sticky expression starts over at 0, and a plain
/// expression never writes `lastIndex`.
pub proof fn law_misses_reset(w: World, rx: Value)
    ensures
        missed(w, rx, false) == (w, Ok::<Value, Value>(Value::Null)),
        missed(w, rx, true).0 == put(
            w,
            rx,
            Key::Name("lastIndex"),
            Value::Num(num::number(0)),
        ).0,
{
}

} // verus!
