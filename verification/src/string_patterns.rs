//! `String.prototype` methods that take a pattern: they hand an object pattern to its own
//! symbol-named method, and otherwise work on plain strings.
use vstd::prelude::*;
use crate::interp::{arg, arg_at, Brand, ErrorKind, Interp, Key, Op, Outcome, Value, WellKnown, World};
use crate::num;
use crate::regexp::{matches_from, program_of, read_program, regex_find_all, split_by, split_pieces};
use crate::string;
use crate::string::Units;
use crate::string_methods::{arg_is_regexp, is_regexp, this_string, this_text};
use crate::text::push_units;

verus! {

/// GetMethod and Call: an object pattern with the symbol-named method handles the operation.
pub open spec fn dispatched(
    w: World,
    target: Value,
    sym: WellKnown,
    complaint: &'static str,
    args: Seq<Value>,
) -> Outcome<Option<Value>> {
    if !target.object() {
        (w, Ok(None))
    } else {
        let (w, m) = w.get(target, Key::Symbol(sym));
        match m {
            Err(e) => (w, Err(e)),
            Ok(m) => if m.nullish() {
                (w, Ok(None))
            } else if !m.callable() {
                w.throw(ErrorKind::Type, complaint)
            } else {
                let (w, r) = w.call(m, target, args);
                match r {
                    Err(e) => (w, Err(e)),
                    Ok(r) => (w, Ok(Some(r))),
                }
            },
        }
    }
}

fn dispatch(
    i: &mut Interp,
    target: Value,
    sym: WellKnown,
    complaint: &'static str,
    args: Vec<Value>,
) -> (r: Result<Option<Value>, Value>)
    ensures
        (final(i)@, r) == dispatched(old(i)@, target, sym, complaint, args@),
{
    if !target.is_object() {
        return Ok(None);
    }
    let m = i.get_member(target, Key::Symbol(sym))?;
    if m.is_nullish() {
        return Ok(None);
    }
    if !m.is_callable() {
        return i.type_error(complaint);
    }
    let r = i.call(m, target, args)?;
    Ok(Some(r))
}

/// A regular expression made of the argument, asked by its symbol-named method.
pub open spec fn through_regexp(
    w: World,
    this: Value,
    pattern: Value,
    flags: Units,
    sym: WellKnown,
) -> Outcome<Value> {
    let (w, s) = this_text(w, this);
    match s {
        Err(e) => (w, Err(e)),
        Ok(s) => {
            let (w, p) = if pattern == Value::Undefined {
                let (w, p) = w.intern(Seq::empty());
                (w, Ok(p))
            } else {
                w.text(pattern)
            };
            match p {
                Err(e) => (w, Err(e)),
                Ok(p) => {
                    let (w, f) = w.intern(flags);
                    let (w, rx) = w.value(Op::NewRegExp, seq![Value::Str(p), Value::Str(f)]);
                    match rx {
                        Err(e) => (w, Err(e)),
                        Ok(rx) => {
                            let (w, m) = w.get(rx, Key::Symbol(sym));
                            match m {
                                Err(e) => (w, Err(e)),
                                Ok(m) => w.call(m, rx, seq![Value::Str(s)]),
                            }
                        },
                    }
                },
            }
        },
    }
}

fn run_through_regexp(
    i: &mut Interp,
    this: Value,
    pattern: Value,
    flags: Vec<u16>,
    sym: WellKnown,
) -> (r: Result<Value, Value>)
    ensures
        (final(i)@, r) == through_regexp(old(i)@, this, pattern, flags@, sym),
{
    let s: u64 = this_string(i, this)?;
    let p: u64 = if pattern.is_undefined() {
        let e: Vec<u16> = Vec::new();
        assert(e@ =~= Seq::<u16>::empty());
        i.intern(e)
    } else {
        i.to_text(pattern)?
    };
    let f: u64 = i.intern(flags);
    let list = vec![Value::Str(p), Value::Str(f)];
    assert(list@ =~= seq![Value::Str(p), Value::Str(f)]);
    let rx = i.ask_value(Op::NewRegExp, list)?;
    let m = i.get_member(rx, Key::Symbol(sym))?;
    let args = vec![Value::Str(s)];
    assert(args@ =~= seq![Value::Str(s)]);
    i.call(m, rx, args)
}

/// `String.prototype.match`.
pub open spec fn matched(w: World, this: Value, args: Seq<Value>) -> Outcome<Value> {
    if this.nullish() {
        w.throw(ErrorKind::Type, "String.prototype.match called on null or undefined")
    } else {
        let (w, d) = dispatched(
            w,
            arg_at(args, 0),
            WellKnown::Match,
            "@@match is not callable",
            seq![this],
        );
        match d {
            Err(e) => (w, Err(e)),
            Ok(Some(r)) => (w, Ok(r)),
            Ok(None) => through_regexp(w, this, arg_at(args, 0), Seq::empty(), WellKnown::Match),
        }
    }
}

pub fn nf_string_match(i: &mut Interp, this: Value, args: &[Value]) -> (r: Result<Value, Value>)
    ensures
        (final(i)@, r) == matched(old(i)@, this, args@),
{
    if this.is_nullish() {
        return i.type_error("String.prototype.match called on null or undefined");
    }
    let list = vec![this];
    assert(list@ =~= seq![this]);
    match dispatch(i, arg(args, 0), WellKnown::Match, "@@match is not callable", list)? {
        Some(r) => Ok(r),
        None => {
            let none: Vec<u16> = Vec::new();
            assert(none@ =~= Seq::<u16>::empty());
            run_through_regexp(i, this, arg(args, 0), none, WellKnown::Match)
        },
    }
}

/// `String.prototype.search`.
pub open spec fn sought(w: World, this: Value, args: Seq<Value>) -> Outcome<Value> {
    if this.nullish() {
        w.throw(ErrorKind::Type, "String.prototype.search called on null or undefined")
    } else {
        let (w, d) = dispatched(
            w,
            arg_at(args, 0),
            WellKnown::Search,
            "@@search is not callable",
            seq![this],
        );
        match d {
            Err(e) => (w, Err(e)),
            Ok(Some(r)) => (w, Ok(r)),
            Ok(None) => through_regexp(w, this, arg_at(args, 0), Seq::empty(), WellKnown::Search),
        }
    }
}

pub fn string_search(i: &mut Interp, this: Value, args: &[Value]) -> (r: Result<Value, Value>)
    ensures
        (final(i)@, r) == sought(old(i)@, this, args@),
{
    if this.is_nullish() {
        return i.type_error("String.prototype.search called on null or undefined");
    }
    let list = vec![this];
    assert(list@ =~= seq![this]);
    match dispatch(i, arg(args, 0), WellKnown::Search, "@@search is not callable", list)? {
        Some(r) => Ok(r),
        None => {
            let none: Vec<u16> = Vec::new();
            assert(none@ =~= Seq::<u16>::empty());
            run_through_regexp(i, this, arg(args, 0), none, WellKnown::Search)
        },
    }
}

/// A regular expression must be global here: its `flags` are read and must hold a `g`.
pub open spec fn global_checked(
    w: World,
    v: Value,
    absent: &'static str,
    complaint: &'static str,
) -> Outcome<()> {
    let (w, b) = is_regexp(w, v);
    match b {
        Err(e) => (w, Err(e)),
        Ok(b) => if !b {
            (w, Ok(()))
        } else {
            let (w, flags) = w.get(v, Key::Name("flags"));
            match flags {
                Err(e) => (w, Err(e)),
                Ok(flags) => if flags.nullish() {
                    w.throw(ErrorKind::Type, absent)
                } else {
                    let (w, f) = w.text(flags);
                    match f {
                        Err(e) => (w, Err(e)),
                        Ok(f) => if !w.units(f).contains(0x67) {
                            w.throw(ErrorKind::Type, complaint)
                        } else {
                            (w, Ok(()))
                        },
                    }
                },
            }
        },
    }
}

fn holds_unit(u: &Vec<u16>, c: u16) -> (r: bool)
    ensures
        r == u@.contains(c),
{
    let mut j: usize = 0;
    while j < u.len()
        invariant
            j <= u@.len(),
            forall|k: int| 0 <= k < j ==> u@[k] != c,
        decreases u@.len() - j,
    {
        if u[j] == c {
            return true;
        }
        j += 1;
    }
    false
}

fn check_global(i: &mut Interp, v: Value, absent: &'static str, complaint: &'static str) -> (r:
    Result<(), Value>)
    ensures
        (final(i)@, r) == global_checked(old(i)@, v, absent, complaint),
{
    if !arg_is_regexp(i, v)? {
        return Ok(());
    }
    let flags = i.get_member(v, Key::Name("flags"))?;
    if flags.is_nullish() {
        return i.type_error(absent);
    }
    let f: u64 = i.to_text(flags)?;
    let u = i.units(f);
    if !holds_unit(&u, 0x67) {
        return i.type_error(complaint);
    }
    Ok(())
}

/// `String.prototype.matchAll`.
pub open spec fn all_matched(w: World, this: Value, args: Seq<Value>) -> Outcome<Value> {
    let regexp = arg_at(args, 0);
    if this.nullish() {
        w.throw(ErrorKind::Type, "String.prototype.matchAll called on null or undefined")
    } else {
        let (w, c) = if regexp.nullish() {
            (w, Ok(()))
        } else {
            global_checked(
                w,
                regexp,
                "regexp.flags is null or undefined",
                "String.prototype.matchAll called with a non-global RegExp",
            )
        };
        match c {
            Err(e) => (w, Err(e)),
            Ok(_) => {
                let (w, d) = dispatched(
                    w,
                    regexp,
                    WellKnown::MatchAll,
                    "@@matchAll is not callable",
                    seq![this],
                );
                match d {
                    Err(e) => (w, Err(e)),
                    Ok(Some(r)) => (w, Ok(r)),
                    Ok(None) => through_regexp(
                        w,
                        this,
                        regexp,
                        seq![0x67u16],
                        WellKnown::MatchAll,
                    ),
                }
            },
        }
    }
}

/// `String.prototype.matchAll`: a RegExp argument must be global.
pub fn string_match_all(i: &mut Interp, this: Value, args: &[Value]) -> (r: Result<Value, Value>)
    ensures
        (final(i)@, r) == all_matched(old(i)@, this, args@),
{
    let regexp = arg(args, 0);
    if this.is_nullish() {
        return i.type_error("String.prototype.matchAll called on null or undefined");
    }
    if !regexp.is_nullish() {
        check_global(
            i,
            regexp,
            "regexp.flags is null or undefined",
            "String.prototype.matchAll called with a non-global RegExp",
        )?;
    }
    let list = vec![this];
    assert(list@ =~= seq![this]);
    match dispatch(i, regexp, WellKnown::MatchAll, "@@matchAll is not callable", list)? {
        Some(r) => Ok(r),
        None => {
            let g: Vec<u16> = vec![0x67u16];
            assert(g@ =~= seq![0x67u16]);
            run_through_regexp(i, this, regexp, g, WellKnown::MatchAll)
        },
    }
}

// Splitting

/// The cap on the number of pieces: ToUint32, and no cap where it is undefined.
pub open spec fn piece_limit(w: World, v: Value) -> Outcome<u32> {
    if v == Value::Undefined {
        (w, Ok(u32::MAX))
    } else {
        let (w, n) = w.number(v);
        match n {
            Err(e) => (w, Err(e)),
            Ok(n) => (w, Ok(num::modulo_u32(n) as u32)),
        }
    }
}

fn read_piece_limit(i: &mut Interp, v: Value) -> (r: Result<u32, Value>)
    ensures
        (final(i)@, r) == piece_limit(old(i)@, v),
{
    if v.is_undefined() {
        return Ok(u32::MAX);
    }
    let n: u64 = i.to_number(v)?;
    Ok(num::to_uint32(n))
}

/// What separates the pieces.
#[derive(Clone, Copy, PartialEq, Eq, Structural, Debug)]
pub enum Separator {
    /// Nothing: the string is one piece.
    Absent,
    /// A regular expression that lost its own split method.
    Pattern,
    Text(u64),
}

pub open spec fn separator_of(w: World, v: Value) -> Outcome<Separator> {
    let (w, live) = if v.object() {
        w.yes(Op::HasBrand(v, Brand::RegExpData))
    } else {
        (w, false)
    };
    if v == Value::Undefined {
        (w, Ok(Separator::Absent))
    } else if live {
        (w, Ok(Separator::Pattern))
    } else {
        let (w, s) = w.text(v);
        match s {
            Err(e) => (w, Err(e)),
            Ok(s) => (w, Ok(Separator::Text(s))),
        }
    }
}

fn read_separator(i: &mut Interp, v: Value) -> (r: Result<Separator, Value>)
    ensures
        (final(i)@, r) == separator_of(old(i)@, v),
{
    if v.is_undefined() {
        return Ok(Separator::Absent);
    }
    if v.is_object() && i.ask_yes(Op::HasBrand(v, Brand::RegExpData)) {
        return Ok(Separator::Pattern);
    }
    let s: u64 = i.to_text(v)?;
    Ok(Separator::Text(s))
}

/// Interns the pieces from `k` on.
pub open spec fn pieces_interned(w: World, p: Seq<Units>, k: int, out: Seq<Value>) -> (
    World,
    Seq<Value>,
)
    decreases p.len() - k,
{
    if k < 0 || k >= p.len() {
        (w, out)
    } else {
        let (w, s) = w.intern(p[k]);
        pieces_interned(w, p, k + 1, out.push(Value::Str(s)))
    }
}

fn intern_pieces(i: &mut Interp, p: &Vec<Vec<u16>>) -> (r: Vec<Value>)
    ensures
        (final(i)@, r@) == pieces_interned(old(i)@, string::unit_views(p@), 0, Seq::empty()),
{
    let mut out: Vec<Value> = Vec::new();
    let mut k: usize = 0;
    let ghost pv = string::unit_views(p@);
    assert(out@ =~= Seq::<Value>::empty());
    while k < p.len()
        invariant
            k <= p@.len(),
            pv == string::unit_views(p@),
            pieces_interned(old(i)@, pv, 0, Seq::empty()) == pieces_interned(
                i@,
                pv,
                k as int,
                out@,
            ),
        decreases p@.len() - k,
    {
        let u = string::cut(&p[k], 0, p[k].len());
        assert(u@ =~= p@[k as int]@);
        assert(pv[k as int] == u@);
        let s: u64 = i.intern(u);
        out.push(Value::Str(s));
        k += 1;
    }
    out
}

/// The pieces of a string as a fresh array.
pub open spec fn split_result(
    w: World,
    s: u64,
    v: Value,
    sep: Separator,
    limit: u32,
    max: u64,
) -> Outcome<Value> {
    if limit == 0 {
        let (w, a) = w.plain(Op::NewArray, Seq::empty());
        (w, Ok(a))
    } else {
        match sep {
            Separator::Absent => {
                let (w, a) = w.plain(Op::NewArray, seq![Value::Str(s)]);
                (w, Ok(a))
            },
            Separator::Text(t) => {
                let p = string::split_up(w.units(s), w.units(t), limit as int);
                let (w, l) = pieces_interned(w, p, 0, Seq::empty());
                let (w, a) = w.plain(Op::NewArray, l);
                (w, Ok(a))
            },
            Separator::Pattern => {
                let (w, shape) = program_of(w, v);
                match shape {
                    Err(e) => (w, Err(e)),
                    Ok(shape) => {
                        let (w, found) = matches_from(
                            w,
                            v,
                            s,
                            shape.unicode,
                            0,
                            max as int,
                            Seq::empty(),
                        );
                        match found {
                            Err(e) => (w, Err(e)),
                            Ok(found) => {
                                let (w, l) = split_by(
                                    w,
                                    w.units(s),
                                    found,
                                    shape.groups as int,
                                    limit as int,
                                    0,
                                    0,
                                    Seq::empty(),
                                );
                                let (w, a) = w.plain(Op::NewArray, l);
                                (w, Ok(a))
                            },
                        }
                    },
                }
            },
        }
    }
}

fn make_split(i: &mut Interp, s: u64, v: Value, sep: Separator, limit: u32, max: u64) -> (r: Result<
    Value,
    Value,
>)
    ensures
        (final(i)@, r) == split_result(old(i)@, s, v, sep, limit, max),
{
    if limit == 0 {
        let none: Vec<Value> = Vec::new();
        assert(none@ =~= Seq::<Value>::empty());
        return Ok(i.make_array(none));
    }
    match sep {
        Separator::Absent => {
            let one = vec![Value::Str(s)];
            assert(one@ =~= seq![Value::Str(s)]);
            Ok(i.make_array(one))
        },
        Separator::Text(t) => {
            let u = i.units(s);
            let tu = i.units(t);
            let p = string::split(&u, &tu, limit);
            let l = intern_pieces(i, &p);
            Ok(i.make_array(l))
        },
        Separator::Pattern => {
            let p = read_program(i, v)?;
            let found = regex_find_all(i, v, s, p.unicode, max)?;
            let u = i.units(s);
            let l = split_pieces(i, &u, &found, p.groups, limit);
            Ok(i.make_array(l))
        },
    }
}

/// `String.prototype.split`. ToString of the separator is observable BEFORE the zero-limit
/// shortcut.
pub open spec fn split_string(w: World, this: Value, args: Seq<Value>, max: u64) -> Outcome<Value> {
    if this.nullish() {
        w.throw(ErrorKind::Type, "String.prototype.split called on null or undefined")
    } else {
        let (w, d) = dispatched(
            w,
            arg_at(args, 0),
            WellKnown::Split,
            "@@split is not callable",
            seq![this, arg_at(args, 1)],
        );
        match d {
            Err(e) => (w, Err(e)),
            Ok(Some(r)) => (w, Ok(r)),
            Ok(None) => {
                let (w, s) = this_text(w, this);
                match s {
                    Err(e) => (w, Err(e)),
                    Ok(s) => if string::bytes_from(w.units(s), 0) > max {
                        w.throw(ErrorKind::Range, "string too large to split in this engine")
                    } else {
                        let (w, limit) = piece_limit(w, arg_at(args, 1));
                        match limit {
                            Err(e) => (w, Err(e)),
                            Ok(limit) => {
                                let (w, sep) = separator_of(w, arg_at(args, 0));
                                match sep {
                                    Err(e) => (w, Err(e)),
                                    Ok(sep) => split_result(
                                        w,
                                        s,
                                        arg_at(args, 0),
                                        sep,
                                        limit,
                                        max,
                                    ),
                                }
                            },
                        }
                    },
                }
            },
        }
    }
}

/// `String.prototype.split`; no array operation goes through more than `max` elements.
pub fn nf_string_split(i: &mut Interp, this: Value, args: &[Value], max: u64) -> (r: Result<
    Value,
    Value,
>)
    ensures
        (final(i)@, r) == split_string(old(i)@, this, args@, max),
{
    if this.is_nullish() {
        return i.type_error("String.prototype.split called on null or undefined");
    }
    let list = vec![this, arg(args, 1)];
    assert(list@ =~= seq![this, arg_at(args@, 1)]);
    match dispatch(i, arg(args, 0), WellKnown::Split, "@@split is not callable", list)? {
        Some(r) => {
            return Ok(r);
        },
        None => {},
    }
    let s: u64 = this_string(i, this)?;
    let u = i.units(s);
    if string::byte_len(&u) > max as u128 {
        return i.fail(ErrorKind::Range, "string too large to split in this engine");
    }
    let limit: u32 = read_piece_limit(i, arg(args, 1))?;
    let sep = read_separator(i, arg(args, 0))?;
    make_split(i, s, arg(args, 0), sep, limit, max)
}

// Replacing

/// A prepared replacement: the non-callable form is ToString'd exactly once, up front.
#[derive(Clone, Copy, PartialEq, Eq, Structural, Debug)]
pub enum Repl {
    Callback(Value),
    Template(u64),
}

pub open spec fn replacement_of(w: World, v: Value) -> Outcome<Repl> {
    if v.callable() {
        (w, Ok(Repl::Callback(v)))
    } else {
        let (w, t) = w.text(v);
        match t {
            Err(e) => (w, Err(e)),
            Ok(t) => (w, Ok(Repl::Template(t))),
        }
    }
}

pub fn prep_repl(i: &mut Interp, v: Value) -> (r: Result<Repl, Value>)
    ensures
        (final(i)@, r) == replacement_of(old(i)@, v),
{
    if v.is_callable() {
        Ok(Repl::Callback(v))
    } else {
        let t: u64 = i.to_text(v)?;
        Ok(Repl::Template(t))
    }
}

/// What a function replacer returns for a match: it is called with the match, its position in
/// code units and the whole string.
pub open spec fn called_back(w: World, f: Value, found: Units, pos: int, s: u64) -> Outcome<Units> {
    let (w, m) = w.intern(found);
    let (w, r) = w.call(
        f,
        Value::Undefined,
        seq![Value::Str(m), Value::Num(num::position(pos)), Value::Str(s)],
    );
    match r {
        Err(e) => (w, Err(e)),
        Ok(r) => {
            let (w, t) = w.text(r);
            match t {
                Err(e) => (w, Err(e)),
                Ok(t) => (w, Ok(w.units(t))),
            }
        },
    }
}

fn call_back(i: &mut Interp, f: Value, found: &Vec<u16>, pos: usize, s: u64) -> (r: Result<
    Vec<u16>,
    Value,
>)
    ensures
        final(i)@ == called_back(old(i)@, f, found@, pos as int, s).0,
        match r {
            Ok(u) => called_back(old(i)@, f, found@, pos as int, s).1 == Ok::<Units, Value>(u@),
            Err(e) => called_back(old(i)@, f, found@, pos as int, s).1 == Err::<Units, Value>(e),
        },
{
    let u = string::cut(found, 0, found.len());
    assert(u@ =~= found@);
    let m: u64 = i.intern(u);
    let list = vec![Value::Str(m), Value::Num(num::of_position(pos)), Value::Str(s)];
    assert(list@ =~= seq![
        Value::Str(m),
        Value::Num(num::position(pos as int)),
        Value::Str(s),
    ]);
    let r = i.call(f, Value::Undefined, list)?;
    let t: u64 = i.to_text(r)?;
    Ok(i.units(t))
}

/// The first occurrence replaced. A string without one is returned as it is.
pub open spec fn first_replaced(w: World, s: u64, pat: Units, repl: Repl) -> Outcome<Value> {
    let u = w.units(s);
    match string::first_from(u, pat, 0) {
        None => (w, Ok(Value::Str(s))),
        Some(p) => match repl {
            Repl::Template(t) => w.text_value(string::replaced_first(u, pat, w.units(t))),
            Repl::Callback(f) => {
                let (w, r) = called_back(w, f, pat, p, s);
                match r {
                    Err(e) => (w, Err(e)),
                    Ok(r) => w.text_value(
                        u.subrange(0, p) + r + u.subrange(p + pat.len(), u.len() as int),
                    ),
                }
            },
        },
    }
}

fn replace_first_in(i: &mut Interp, s: u64, pat: &Vec<u16>, repl: Repl) -> (r: Result<Value, Value>)
    ensures
        (final(i)@, r) == first_replaced(old(i)@, s, pat@, repl),
{
    let u = i.units(s);
    match string::find_from(&u, pat, 0) {
        None => Ok(Value::Str(s)),
        Some(p) => match repl {
            Repl::Template(t) => {
                let tu = i.units(t);
                let out = string::replace_first(&u, pat, &tu);
                i.text_value(out)
            },
            Repl::Callback(f) => {
                let rep = call_back(i, f, pat, p, s)?;
                let mut out = string::cut(&u, 0, p);
                push_units(&mut out, &rep);
                let behind = string::cut(&u, p + pat.len(), u.len());
                push_units(&mut out, &behind);
                i.text_value(out)
            },
        },
    }
}

/// `String.prototype.replace`.
pub open spec fn replaced(w: World, this: Value, args: Seq<Value>) -> Outcome<Value> {
    if this.nullish() {
        w.throw(ErrorKind::Type, "String.prototype.replace called on null or undefined")
    } else {
        let (w, d) = dispatched(
            w,
            arg_at(args, 0),
            WellKnown::Replace,
            "@@replace is not callable",
            seq![this, arg_at(args, 1)],
        );
        match d {
            Err(e) => (w, Err(e)),
            Ok(Some(r)) => (w, Ok(r)),
            Ok(None) => {
                let (w, o) = operands(w, this, args);
                match o {
                    Err(e) => (w, Err(e)),
                    Ok(o) => first_replaced(w, o.0, w.units(o.1), o.2),
                }
            },
        }
    }
}

/// The string, the pattern and the prepared replacement, coerced in this order.
pub open spec fn operands(w: World, this: Value, args: Seq<Value>) -> Outcome<(u64, u64, Repl)> {
    let (w, s) = this_text(w, this);
    match s {
        Err(e) => (w, Err(e)),
        Ok(s) => {
            let (w, p) = w.text(arg_at(args, 0));
            match p {
                Err(e) => (w, Err(e)),
                Ok(p) => {
                    let (w, r) = replacement_of(w, arg_at(args, 1));
                    match r {
                        Err(e) => (w, Err(e)),
                        Ok(r) => (w, Ok((s, p, r))),
                    }
                },
            }
        },
    }
}

fn read_operands(i: &mut Interp, this: Value, args: &[Value]) -> (r: Result<
    (u64, u64, Repl),
    Value,
>)
    ensures
        (final(i)@, r) == operands(old(i)@, this, args@),
{
    let s: u64 = this_string(i, this)?;
    let p: u64 = i.to_text(arg(args, 0))?;
    let r = prep_repl(i, arg(args, 1))?;
    Ok((s, p, r))
}

pub fn nf_string_replace(i: &mut Interp, this: Value, args: &[Value]) -> (r: Result<Value, Value>)
    ensures
        (final(i)@, r) == replaced(old(i)@, this, args@),
{
    if this.is_nullish() {
        return i.type_error("String.prototype.replace called on null or undefined");
    }
    let list = vec![this, arg(args, 1)];
    assert(list@ =~= seq![this, arg_at(args@, 1)]);
    match dispatch(i, arg(args, 0), WellKnown::Replace, "@@replace is not callable", list)? {
        Some(r) => {
            return Ok(r);
        },
        None => {},
    }
    let o = read_operands(i, this, args)?;
    let pat = i.units(o.1);
    replace_first_in(i, o.0, &pat, o.2)
}

/// Every occurrence from `pos` on replaced by what the function returns for it.
pub open spec fn called_back_all(
    w: World,
    f: Value,
    s: u64,
    u: Units,
    pat: Units,
    cursor: int,
    pos: int,
    out: Units,
) -> Outcome<Value>
    decreases u.len() + 1 - pos,
{
    if cursor < 0 || cursor > u.len() || pos < cursor {
        w.text_value(out)
    } else {
        match string::first_from(u, pat, pos) {
            None => w.text_value(out + u.subrange(cursor, u.len() as int)),
            Some(p) => if p < pos || p + pat.len() > u.len() {
                w.text_value(out)
            } else {
                let (w, r) = called_back(w, f, pat, p, s);
                match r {
                    Err(e) => (w, Err(e)),
                    Ok(r) => called_back_all(
                        w,
                        f,
                        s,
                        u,
                        pat,
                        p + pat.len(),
                        if pat.len() == 0 {
                            p + 1
                        } else {
                            p + pat.len()
                        },
                        out + u.subrange(cursor, p) + r,
                    ),
                }
            },
        }
    }
}

fn replace_all_by(i: &mut Interp, f: Value, s: u64, u: &Vec<u16>, pat: &Vec<u16>) -> (r: Result<
    Value,
    Value,
>)
    ensures
        (final(i)@, r) == called_back_all(old(i)@, f, s, u@, pat@, 0, 0, Seq::empty()),
{
    let mut out: Vec<u16> = Vec::new();
    let mut cursor: usize = 0;
    let mut pos: usize = 0;
    assert(out@ =~= Seq::<u16>::empty());
    loop
        invariant
            cursor <= u@.len(),
            cursor <= pos <= u@.len() + 1,
            called_back_all(old(i)@, f, s, u@, pat@, 0, 0, Seq::empty()) == called_back_all(
                i@,
                f,
                s,
                u@,
                pat@,
                cursor as int,
                pos as int,
                out@,
            ),
        decreases u@.len() + 1 - pos,
    {
        match string::find_from(u, pat, pos) {
            None => {
                let tail = string::cut(u, cursor, u.len());
                push_units(&mut out, &tail);
                return i.text_value(out);
            },
            Some(p) => {
                let rep = call_back(i, f, pat, p, s)?;
                let gap = string::cut(u, cursor, p);
                push_units(&mut out, &gap);
                push_units(&mut out, &rep);
                if pat.len() == 0 && p == u.len() {
                    assert(out@ + u@.subrange(p as int, u@.len() as int) =~= out@);
                    assert(called_back_all(
                        i@,
                        f,
                        s,
                        u@,
                        pat@,
                        p as int,
                        p + 1,
                        out@,
                    ) == i@.text_value(out@));
                    return i.text_value(out);
                }
                cursor = p + pat.len();
                pos = if pat.len() == 0 {
                    p + 1
                } else {
                    p + pat.len()
                };
            },
        }
    }
}

/// Every occurrence replaced. A string without one is returned as it is.
pub open spec fn all_replaced(w: World, s: u64, pat: Units, repl: Repl) -> Outcome<Value> {
    let u = w.units(s);
    if string::first_from(u, pat, 0) is None {
        (w, Ok(Value::Str(s)))
    } else {
        match repl {
            Repl::Template(t) => w.text_value(
                string::replaced_all_from(u, pat, w.units(t), 0, 0),
            ),
            Repl::Callback(f) => called_back_all(w, f, s, u, pat, 0, 0, Seq::empty()),
        }
    }
}

fn replace_all_in(i: &mut Interp, s: u64, pat: &Vec<u16>, repl: Repl) -> (r: Result<Value, Value>)
    ensures
        (final(i)@, r) == all_replaced(old(i)@, s, pat@, repl),
{
    let u = i.units(s);
    match string::find_from(&u, pat, 0) {
        None => Ok(Value::Str(s)),
        Some(_) => match repl {
            Repl::Template(t) => {
                let tu = i.units(t);
                let out = string::replace_all(&u, pat, &tu);
                i.text_value(out)
            },
            Repl::Callback(f) => replace_all_by(i, f, s, &u, pat),
        },
    }
}

/// `String.prototype.replaceAll`. Only an *Object* searchValue is inspected for regexp-ness; a
/// regular expression must be global.
pub open spec fn replaced_everywhere(w: World, this: Value, args: Seq<Value>) -> Outcome<Value> {
    let search = arg_at(args, 0);
    if this.nullish() {
        w.throw(ErrorKind::Type, "String.prototype.replaceAll called on null or undefined")
    } else {
        let (w, c) = if search.object() {
            global_checked(
                w,
                search,
                "regexp flags is null or undefined",
                "replaceAll must be called with a global RegExp",
            )
        } else {
            (w, Ok(()))
        };
        match c {
            Err(e) => (w, Err(e)),
            Ok(_) => {
                let (w, d) = dispatched(
                    w,
                    search,
                    WellKnown::Replace,
                    "@@replace is not callable",
                    seq![this, arg_at(args, 1)],
                );
                match d {
                    Err(e) => (w, Err(e)),
                    Ok(Some(r)) => (w, Ok(r)),
                    Ok(None) => {
                        let (w, o) = operands(w, this, args);
                        match o {
                            Err(e) => (w, Err(e)),
                            Ok(o) => all_replaced(w, o.0, w.units(o.1), o.2),
                        }
                    },
                }
            },
        }
    }
}

pub fn string_replace_all(i: &mut Interp, this: Value, args: &[Value]) -> (r: Result<Value, Value>)
    ensures
        (final(i)@, r) == replaced_everywhere(old(i)@, this, args@),
{
    let search = arg(args, 0);
    if this.is_nullish() {
        return i.type_error("String.prototype.replaceAll called on null or undefined");
    }
    if search.is_object() {
        check_global(
            i,
            search,
            "regexp flags is null or undefined",
            "replaceAll must be called with a global RegExp",
        )?;
    }
    let list = vec![this, arg(args, 1)];
    assert(list@ =~= seq![this, arg_at(args@, 1)]);
    match dispatch(i, search, WellKnown::Replace, "@@replace is not callable", list)? {
        Some(r) => {
            return Ok(r);
        },
        None => {},
    }
    let o = read_operands(i, this, args)?;
    let pat = i.units(o.1);
    replace_all_in(i, o.0, &pat, o.2)
}

/// A primitive pattern is never asked for a symbol-named method.
pub proof fn law_primitive_patterns_are_not_asked(
    w: World,
    target: Value,
    sym: WellKnown,
    complaint: &'static str,
    args: Seq<Value>,
)
    requires
        !target.object(),
    ensures
        dispatched(w, target, sym, complaint, args) == (w, Ok::<Option<Value>, Value>(None)),
{
}

} // verus!
