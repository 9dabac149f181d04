//! `String.prototype` and `String`: the methods that read, cut, pad and build strings.
use vstd::prelude::*;
use crate::interp::{arg, arg_at, Brand, ErrorKind, Interp, Key, Op, Outcome, Value, WellKnown, World};
use crate::num;
use crate::proxy::{length_of, to_length};
use crate::realm::{box_primitive, ctor_realm_proto, realm_prototype, wrapped};
use crate::string;
use crate::string::Units;
use crate::text::push_units;

verus! {

/// The string of a String wrapper object, or undefined.
pub open spec fn wrapped_text(w: World, v: Value) -> (World, Option<u64>) {
    let (w, d) = w.plain(Op::StringData(v), Seq::empty());
    match d {
        Value::Str(s) => (w, Some(s)),
        _ => (w, None),
    }
}

fn read_wrapped(i: &mut Interp, v: Value) -> (r: Option<u64>)
    ensures
        (final(i)@, r) == wrapped_text(old(i)@, v),
{
    match i.perform(Op::StringData(v)) {
        Value::Str(s) => Some(s),
        _ => None,
    }
}

/// The receiver of a String.prototype method as a string.
pub open spec fn this_text(w: World, this: Value) -> Outcome<u64> {
    match this {
        Value::Str(s) => (w, Ok(s)),
        Value::Undefined => w.throw(
            ErrorKind::Type,
            "String.prototype method called on null or undefined",
        ),
        Value::Null => w.throw(
            ErrorKind::Type,
            "String.prototype method called on null or undefined",
        ),
        Value::Obj(_) => {
            let (w, s) = wrapped_text(w, this);
            match s {
                Some(s) => (w, Ok(s)),
                None => w.text(this),
            }
        },
        _ => w.text(this),
    }
}

/// RequireObjectCoercible and ToString of the receiver.
pub fn this_string(i: &mut Interp, this: Value) -> (r: Result<u64, Value>)
    ensures
        (final(i)@, r) == this_text(old(i)@, this),
{
    match this {
        Value::Str(s) => Ok(s),
        Value::Undefined => i.type_error("String.prototype method called on null or undefined"),
        Value::Null => i.type_error("String.prototype method called on null or undefined"),
        Value::Obj(_) => match read_wrapped(i, this) {
            Some(s) => Ok(s),
            None => i.to_text(this),
        },
        _ => i.to_text(this),
    }
}

/// thisStringValue.
pub open spec fn string_value(w: World, this: Value) -> Outcome<Value> {
    match this {
        Value::Str(_) => (w, Ok(this)),
        Value::Obj(_) => {
            let (w, s) = wrapped_text(w, this);
            match s {
                Some(s) => (w, Ok(Value::Str(s))),
                None => w.throw(ErrorKind::Type, "not a String object"),
            }
        },
        _ => w.throw(ErrorKind::Type, "not a String object"),
    }
}

/// thisStringValue: a String primitive or wrapper; anything else is a TypeError (the
/// String.prototype toString/valueOf methods are not generic).
pub fn string_this_value(i: &mut Interp, this: Value) -> (r: Result<Value, Value>)
    ensures
        (final(i)@, r) == string_value(old(i)@, this),
{
    match this {
        Value::Str(_) => Ok(this),
        Value::Obj(_) => match read_wrapped(i, this) {
            Some(s) => Ok(Value::Str(s)),
            None => i.type_error("not a String object"),
        },
        _ => i.type_error("not a String object"),
    }
}

/// thisNumberValue.
pub open spec fn number_value(w: World, this: Value) -> Outcome<u64> {
    match this {
        Value::Num(n) => (w, Ok(n)),
        Value::Obj(_) => {
            let (w, d) = w.plain(Op::NumberData(this), Seq::empty());
            match d {
                Value::Num(n) => (w, Ok(n)),
                _ => w.throw(ErrorKind::Type, "Number method called on incompatible receiver"),
            }
        },
        _ => w.throw(ErrorKind::Type, "Number method called on incompatible receiver"),
    }
}

/// thisNumberValue: only a Number primitive or Number wrapper is acceptable.
pub fn this_number(i: &mut Interp, this: Value) -> (r: Result<u64, Value>)
    ensures
        (final(i)@, r) == number_value(old(i)@, this),
{
    match this {
        Value::Num(n) => Ok(n),
        Value::Obj(_) => match i.perform(Op::NumberData(this)) {
            Value::Num(n) => Ok(n),
            _ => i.type_error("Number method called on incompatible receiver"),
        },
        _ => i.type_error("Number method called on incompatible receiver"),
    }
}

// Single units

/// The position that an index names, where it lies in a string of the length.
pub open spec fn unit_index(n: u64, len: int) -> Option<int> {
    if num::nan(n) {
        if len > 0 {
            Some(0)
        } else {
            None
        }
    } else if num::infinite(n) || num::integer_part(n) < 0 || num::integer_part(n) >= len {
        None
    } else {
        Some(num::integer_part(n))
    }
}

fn find_unit_index(n: u64, len: usize) -> (r: Option<usize>)
    ensures
        match r {
            Some(k) => unit_index(n, len as int) == Some(k as int) && k < len,
            None => unit_index(n, len as int) is None,
        },
{
    if num::is_nan(n) {
        return if len > 0 {
            Some(0)
        } else {
            None
        };
    }
    if num::is_infinite(n) {
        return None;
    }
    proof {
        num::lemma_magnitude_nonneg(n);
    }
    let m: u64 = num::magnitude_u64(n);
    if (num::is_negative(n) && m > 0) || m >= len as u64 {
        None
    } else {
        Some(m as usize)
    }
}

/// The receiver's text and the coerced index of a method that reads at a position.
pub open spec fn text_and_number(w: World, this: Value, v: Value) -> Outcome<(u64, u64)> {
    let (w, s) = this_text(w, this);
    match s {
        Err(e) => (w, Err(e)),
        Ok(s) => {
            let (w, n) = w.number(v);
            match n {
                Err(e) => (w, Err(e)),
                Ok(n) => (w, Ok((s, n))),
            }
        },
    }
}

fn read_text_and_number(i: &mut Interp, this: Value, v: Value) -> (r: Result<(u64, u64), Value>)
    ensures
        (final(i)@, r) == text_and_number(old(i)@, this, v),
{
    let s: u64 = this_string(i, this)?;
    let n: u64 = i.to_number(v)?;
    Ok((s, n))
}

/// `String.prototype.charCodeAt`.
pub open spec fn char_code(w: World, this: Value, args: Seq<Value>) -> Outcome<Value> {
    let (w, p) = text_and_number(w, this, arg_at(args, 0));
    match p {
        Err(e) => (w, Err(e)),
        Ok(p) => match unit_index(p.1, w.units(p.0).len() as int) {
            None => (w, Ok(Value::Num(num::NAN))),
            Some(k) => (w, Ok(Value::Num(num::number(w.units(p.0)[k] as int)))),
        },
    }
}

pub fn nf_char_code_at(i: &mut Interp, this: Value, args: &[Value]) -> (r: Result<Value, Value>)
    ensures
        (final(i)@, r) == char_code(old(i)@, this, args@),
{
    let p = read_text_and_number(i, this, arg(args, 0))?;
    let s = i.units(p.0);
    match find_unit_index(p.1, s.len()) {
        None => Ok(Value::Num(num::NAN)),
        Some(k) => Ok(Value::Num(num::of_u64(s[k] as u64))),
    }
}

/// `String.prototype.charAt`.
pub open spec fn char_text(w: World, this: Value, args: Seq<Value>) -> Outcome<Value> {
    let (w, p) = text_and_number(w, this, arg_at(args, 0));
    match p {
        Err(e) => (w, Err(e)),
        Ok(p) => match unit_index(p.1, w.units(p.0).len() as int) {
            None => w.text_value(Seq::empty()),
            Some(k) => w.text_value(seq![w.units(p.0)[k]]),
        },
    }
}

pub fn nf_char_at(i: &mut Interp, this: Value, args: &[Value]) -> (r: Result<Value, Value>)
    ensures
        (final(i)@, r) == char_text(old(i)@, this, args@),
{
    let p = read_text_and_number(i, this, arg(args, 0))?;
    let s = i.units(p.0);
    match find_unit_index(p.1, s.len()) {
        None => {
            let u: Vec<u16> = Vec::new();
            assert(u@ =~= Seq::<u16>::empty());
            i.text_value(u)
        },
        Some(k) => {
            let u: Vec<u16> = vec![s[k]];
            assert(u@ =~= seq![s@[k as int]]);
            i.text_value(u)
        },
    }
}

/// The position that an index names, counted from the end where it is negative.
pub open spec fn wrapped_index(n: u64, len: int) -> Option<int> {
    let k = if num::nan(n) {
        0
    } else {
        num::integer_part(n)
    };
    let k = if k < 0 {
        k + len
    } else {
        k
    };
    if num::infinite(n) || k < 0 || k >= len {
        None
    } else {
        Some(k)
    }
}

/// `String.prototype.at`.
pub open spec fn unit_text_at(w: World, this: Value, args: Seq<Value>) -> Outcome<Value> {
    let (w, p) = text_and_number(w, this, arg_at(args, 0));
    match p {
        Err(e) => (w, Err(e)),
        Ok(p) => match wrapped_index(p.1, w.units(p.0).len() as int) {
            None => (w, Ok(Value::Undefined)),
            Some(k) => w.text_value(seq![w.units(p.0)[k]]),
        },
    }
}

fn find_wrapped_index(n: u64, len: usize) -> (r: Option<usize>)
    ensures
        match r {
            Some(k) => wrapped_index(n, len as int) == Some(k as int) && k < len,
            None => wrapped_index(n, len as int) is None,
        },
{
    if num::is_nan(n) {
        return if len > 0 {
            Some(0)
        } else {
            None
        };
    }
    if num::is_infinite(n) {
        return None;
    }
    proof {
        num::lemma_magnitude_nonneg(n);
        num::lemma_never_largest(n);
    }
    let m: u64 = num::magnitude_u64(n);
    if num::is_negative(n) && m > 0 {
        if m == u64::MAX || m > len as u64 {
            None
        } else {
            Some(len - m as usize)
        }
    } else if m >= len as u64 {
        None
    } else {
        Some(m as usize)
    }
}

pub fn string_at(i: &mut Interp, this: Value, args: &[Value]) -> (r: Result<Value, Value>)
    ensures
        (final(i)@, r) == unit_text_at(old(i)@, this, args@),
{
    let p = read_text_and_number(i, this, arg(args, 0))?;
    let s = i.units(p.0);
    match find_wrapped_index(p.1, s.len()) {
        None => Ok(Value::Undefined),
        Some(k) => {
            let u: Vec<u16> = vec![s[k]];
            assert(u@ =~= seq![s@[k as int]]);
            i.text_value(u)
        },
    }
}

/// `String.prototype.codePointAt`.
pub open spec fn code_point_read(w: World, this: Value, args: Seq<Value>) -> Outcome<Value> {
    let (w, p) = text_and_number(w, this, arg_at(args, 0));
    match p {
        Err(e) => (w, Err(e)),
        Ok(p) => match unit_index(p.1, w.units(p.0).len() as int) {
            None => (w, Ok(Value::Undefined)),
            Some(k) => (w, Ok(Value::Num(num::number(string::code_point(w.units(p.0), k))))),
        },
    }
}

pub fn string_code_point_at(i: &mut Interp, this: Value, args: &[Value]) -> (r: Result<
    Value,
    Value,
>)
    ensures
        (final(i)@, r) == code_point_read(old(i)@, this, args@),
{
    let p = read_text_and_number(i, this, arg(args, 0))?;
    let s = i.units(p.0);
    match find_unit_index(p.1, s.len()) {
        None => Ok(Value::Undefined),
        Some(k) => {
            let c: u32 = string::code_point_at(&s, k);
            Ok(Value::Num(num::of_u64(c as u64)))
        },
    }
}

// Searching

/// A position as a Number, minus one where there is none.
pub open spec fn found_at(p: Option<int>) -> Value {
    match p {
        Some(p) => Value::Num(num::position(p)),
        None => Value::Num(num::MINUS_ONE),
    }
}

fn report(p: Option<usize>) -> (r: Value)
    ensures
        r == found_at(
            match p {
                Some(p) => Some(p as int),
                None => None,
            },
        ),
{
    match p {
        Some(p) => Value::Num(num::of_position(p)),
        None => Value::Num(num::MINUS_ONE),
    }
}

/// ToIntegerOrInfinity of an optional position argument, clamped to `[0, len]`.
pub open spec fn clamped(w: World, v: Value, len: int) -> Outcome<int> {
    if v == Value::Undefined {
        (w, Ok(0))
    } else {
        let (w, n) = w.number(v);
        match n {
            Err(e) => (w, Err(e)),
            Ok(n) => (w, Ok(num::clamped_position(n, len))),
        }
    }
}

pub fn str_clamp_pos(i: &mut Interp, v: Value, len: usize) -> (r: Result<usize, Value>)
    ensures
        final(i)@ == clamped(old(i)@, v, len as int).0,
        match r {
            Ok(p) => clamped(old(i)@, v, len as int).1 == Ok::<int, Value>(p as int) && p <= len,
            Err(e) => clamped(old(i)@, v, len as int).1 == Err::<int, Value>(e),
        },
{
    if v.is_undefined() {
        return Ok(0);
    }
    let n: u64 = i.to_number(v)?;
    Ok(num::clamp_position(n, len))
}

/// `String.prototype.indexOf`.
pub open spec fn searched(w: World, this: Value, args: Seq<Value>) -> Outcome<Value> {
    let (w, s) = this_text(w, this);
    match s {
        Err(e) => (w, Err(e)),
        Ok(s) => {
            let (w, needle) = w.text(arg_at(args, 0));
            match needle {
                Err(e) => (w, Err(e)),
                Ok(needle) => {
                    let u = w.units(s);
                    let (w, pos) = clamped(w, arg_at(args, 1), u.len() as int);
                    match pos {
                        Err(e) => (w, Err(e)),
                        Ok(pos) => (
                            w,
                            Ok(found_at(string::first_from(u, w.units(needle), pos))),
                        ),
                    }
                },
            }
        },
    }
}

pub fn string_index_of(i: &mut Interp, this: Value, args: &[Value]) -> (r: Result<Value, Value>)
    ensures
        (final(i)@, r) == searched(old(i)@, this, args@),
{
    let s: u64 = this_string(i, this)?;
    let needle: u64 = i.to_text(arg(args, 0))?;
    let u = i.units(s);
    let pos: usize = str_clamp_pos(i, arg(args, 1), u.len())?;
    let n = i.units(needle);
    let p = string::find_from(&u, &n, pos);
    Ok(report(p))
}

/// The last position at which a backward search may start; NaN stands for the end.
pub open spec fn search_limit(w: World, v: Value, len: int) -> Outcome<int> {
    if v == Value::Undefined {
        (w, Ok(len))
    } else {
        let (w, n) = w.number(v);
        match n {
            Err(e) => (w, Err(e)),
            Ok(n) => if num::nan(n) {
                (w, Ok(len))
            } else {
                (w, Ok(num::clamped_position(n, len)))
            },
        }
    }
}

fn read_search_limit(i: &mut Interp, v: Value, len: usize) -> (r: Result<usize, Value>)
    ensures
        final(i)@ == search_limit(old(i)@, v, len as int).0,
        match r {
            Ok(p) => search_limit(old(i)@, v, len as int).1 == Ok::<int, Value>(p as int),
            Err(e) => search_limit(old(i)@, v, len as int).1 == Err::<int, Value>(e),
        },
{
    if v.is_undefined() {
        return Ok(len);
    }
    let n: u64 = i.to_number(v)?;
    if num::is_nan(n) {
        return Ok(len);
    }
    Ok(num::clamp_position(n, len))
}

/// `String.prototype.lastIndexOf`.
pub open spec fn searched_back(w: World, this: Value, args: Seq<Value>) -> Outcome<Value> {
    let (w, s) = this_text(w, this);
    match s {
        Err(e) => (w, Err(e)),
        Ok(s) => {
            let (w, needle) = w.text(arg_at(args, 0));
            match needle {
                Err(e) => (w, Err(e)),
                Ok(needle) => {
                    let u = w.units(s);
                    let (w, limit) = search_limit(w, arg_at(args, 1), u.len() as int);
                    match limit {
                        Err(e) => (w, Err(e)),
                        Ok(limit) => (
                            w,
                            Ok(found_at(string::last_upto(u, w.units(needle), limit))),
                        ),
                    }
                },
            }
        },
    }
}

/// `String.prototype.lastIndexOf`: ToNumber(position) runs even when the search string is longer
/// than the receiver.
pub fn string_last_index_of(i: &mut Interp, this: Value, args: &[Value]) -> (r: Result<
    Value,
    Value,
>)
    ensures
        (final(i)@, r) == searched_back(old(i)@, this, args@),
{
    let s: u64 = this_string(i, this)?;
    let needle: u64 = i.to_text(arg(args, 0))?;
    let u = i.units(s);
    let limit: usize = read_search_limit(i, arg(args, 1), u.len())?;
    let n = i.units(needle);
    let p = string::find_last(&u, &n, limit);
    Ok(report(p))
}

/// IsRegExp.
pub open spec fn is_regexp(w: World, v: Value) -> Outcome<bool> {
    if !v.object() {
        (w, Ok(false))
    } else {
        let (w, m) = w.get(v, Key::Symbol(WellKnown::Match));
        match m {
            Err(e) => (w, Err(e)),
            Ok(m) => if !m.nullish() {
                (w, Ok(w.truthy(m)))
            } else {
                let (w, b) = w.yes(Op::HasBrand(v, Brand::RegExpData));
                (w, Ok(b))
            },
        }
    }
}

/// IsRegExp(arg): true if it has a truthy `@@match`, or (fallback) is a compiled RegExp object.
pub fn arg_is_regexp(i: &mut Interp, v: Value) -> (r: Result<bool, Value>)
    ensures
        (final(i)@, r) == is_regexp(old(i)@, v),
{
    if !v.is_object() {
        return Ok(false);
    }
    let m = i.get_member(v, Key::Symbol(WellKnown::Match))?;
    if !m.is_nullish() {
        return Ok(i.to_boolean(m));
    }
    Ok(i.ask_yes(Op::HasBrand(v, Brand::RegExpData)))
}

/// Which of the three substring tests.
#[derive(Clone, Copy, PartialEq, Eq, Structural, Debug)]
pub enum SubstringTest {
    Includes,
    StartsWith,
    EndsWith,
}

/// The outcome of a substring test against a position.
pub open spec fn test_holds(t: SubstringTest, u: Units, n: Units, pos: int) -> bool {
    match t {
        SubstringTest::Includes => string::first_from(u, n, pos) is Some,
        SubstringTest::StartsWith => string::occurs_at(u, n, pos),
        SubstringTest::EndsWith => string::occurs_at(u, n, pos - n.len()),
    }
}

/// The text to test and the string to look for.
pub open spec fn test_operands(w: World, this: Value, v: Value) -> Outcome<(u64, u64)> {
    let (w, s) = this_text(w, this);
    match s {
        Err(e) => (w, Err(e)),
        Ok(s) => {
            let (w, b) = is_regexp(w, v);
            match b {
                Err(e) => (w, Err(e)),
                Ok(b) => if b {
                    w.throw(ErrorKind::Type, "argument must not be a regular expression")
                } else {
                    let (w, needle) = w.text(v);
                    match needle {
                        Err(e) => (w, Err(e)),
                        Ok(needle) => (w, Ok((s, needle))),
                    }
                },
            }
        },
    }
}

fn read_test_operands(i: &mut Interp, this: Value, v: Value) -> (r: Result<(u64, u64), Value>)
    ensures
        (final(i)@, r) == test_operands(old(i)@, this, v),
{
    let s: u64 = this_string(i, this)?;
    if arg_is_regexp(i, v)? {
        return i.type_error("argument must not be a regular expression");
    }
    let needle: u64 = i.to_text(v)?;
    Ok((s, needle))
}

/// `includes`, `startsWith` and `endsWith`; the optional argument of `endsWith` is the END
/// position (default = length).
pub open spec fn substring_tested(
    w: World,
    this: Value,
    args: Seq<Value>,
    t: SubstringTest,
) -> Outcome<Value> {
    let (w, p) = test_operands(w, this, arg_at(args, 0));
    match p {
        Err(e) => (w, Err(e)),
        Ok(p) => {
            let u = w.units(p.0);
            let n = w.units(p.1);
            let (w, pos) = if t == SubstringTest::EndsWith && arg_at(args, 1)
                == Value::Undefined {
                (w, Ok(u.len() as int))
            } else {
                clamped(w, arg_at(args, 1), u.len() as int)
            };
            match pos {
                Err(e) => (w, Err(e)),
                Ok(pos) => (w, Ok(Value::Bool(test_holds(t, u, n, pos)))),
            }
        },
    }
}

pub fn string_test(i: &mut Interp, this: Value, args: &[Value], t: SubstringTest) -> (r: Result<
    Value,
    Value,
>)
    ensures
        (final(i)@, r) == substring_tested(old(i)@, this, args@, t),
{
    let p = read_test_operands(i, this, arg(args, 0))?;
    let u = i.units(p.0);
    let n = i.units(p.1);
    let pos: usize = match t {
        SubstringTest::EndsWith => if arg(args, 1).is_undefined() {
            u.len()
        } else {
            str_clamp_pos(i, arg(args, 1), u.len())?
        },
        _ => str_clamp_pos(i, arg(args, 1), u.len())?,
    };
    let b = match t {
        SubstringTest::Includes => match string::find_from(&u, &n, pos) {
            Some(_) => true,
            None => false,
        },
        SubstringTest::StartsWith => string::is_at(&u, &n, pos),
        SubstringTest::EndsWith => pos >= n.len() && string::is_at(&u, &n, pos - n.len()),
    };
    Ok(Value::Bool(b))
}

// Cutting

/// `String.prototype.slice`.
pub open spec fn sliced(w: World, this: Value, args: Seq<Value>) -> Outcome<Value> {
    let (w, p) = text_and_number(w, this, arg_at(args, 0));
    match p {
        Err(e) => (w, Err(e)),
        Ok(p) => {
            let u = w.units(p.0);
            let start = num::absolute_index(p.1, u.len() as int);
            if arg_at(args, 1) == Value::Undefined {
                w.text_value(string::between(u, start, u.len() as int))
            } else {
                let (w, n) = w.number(arg_at(args, 1));
                match n {
                    Err(e) => (w, Err(e)),
                    Ok(n) => w.text_value(
                        string::between(u, start, num::absolute_index(n, u.len() as int)),
                    ),
                }
            }
        },
    }
}

pub fn nf_string_slice(i: &mut Interp, this: Value, args: &[Value]) -> (r: Result<Value, Value>)
    ensures
        (final(i)@, r) == sliced(old(i)@, this, args@),
{
    let p = read_text_and_number(i, this, arg(args, 0))?;
    let u = i.units(p.0);
    let start: usize = num::resolve_position(p.1, u.len());
    let end: usize = if arg(args, 1).is_undefined() {
        u.len()
    } else {
        let n: u64 = i.to_number(arg(args, 1))?;
        num::resolve_position(n, u.len())
    };
    let out = string::cut_between(&u, start, end);
    i.text_value(out)
}

/// The units between two positions in either order.
pub open spec fn between_either(u: Units, a: int, b: int) -> Units {
    if a > b {
        string::between(u, b, a)
    } else {
        string::between(u, a, b)
    }
}

/// `String.prototype.substring`: clamps and swaps the indices.
pub open spec fn substring(w: World, this: Value, args: Seq<Value>) -> Outcome<Value> {
    let (w, p) = text_and_number(w, this, arg_at(args, 0));
    match p {
        Err(e) => (w, Err(e)),
        Ok(p) => {
            let u = w.units(p.0);
            let a = num::clamped_position(p.1, u.len() as int);
            if arg_at(args, 1) == Value::Undefined {
                w.text_value(between_either(u, a, u.len() as int))
            } else {
                let (w, n) = w.number(arg_at(args, 1));
                match n {
                    Err(e) => (w, Err(e)),
                    Ok(n) => w.text_value(
                        between_either(u, a, num::clamped_position(n, u.len() as int)),
                    ),
                }
            }
        },
    }
}

pub fn string_substring(i: &mut Interp, this: Value, args: &[Value]) -> (r: Result<Value, Value>)
    ensures
        (final(i)@, r) == substring(old(i)@, this, args@),
{
    let p = read_text_and_number(i, this, arg(args, 0))?;
    let u = i.units(p.0);
    let a: usize = num::clamp_position(p.1, u.len());
    let b: usize = if arg(args, 1).is_undefined() {
        u.len()
    } else {
        let n: u64 = i.to_number(arg(args, 1))?;
        num::clamp_position(n, u.len())
    };
    let out = if a > b {
        string::cut_between(&u, b, a)
    } else {
        string::cut_between(&u, a, b)
    };
    i.text_value(out)
}

/// At most `n` units from `start` on.
pub open spec fn run_from(u: Units, start: int, n: int) -> Units {
    string::between(
        u,
        start,
        if n > u.len() - start {
            u.len() as int
        } else {
            start + n
        },
    )
}

fn take_run(u: &Vec<u16>, start: usize, n: usize) -> (r: Vec<u16>)
    requires
        start <= u@.len(),
    ensures
        r@ == run_from(u@, start as int, n as int),
{
    let end: usize = if n > u.len() - start {
        u.len()
    } else {
        start + n
    };
    string::cut_between(u, start, end)
}

/// `String.prototype.substr`: a start, from the end where it is negative, and a length.
pub open spec fn substr(w: World, this: Value, args: Seq<Value>) -> Outcome<Value> {
    let (w, p) = text_and_number(w, this, arg_at(args, 0));
    match p {
        Err(e) => (w, Err(e)),
        Ok(p) => {
            let u = w.units(p.0);
            let start = num::absolute_index(p.1, u.len() as int);
            if arg_at(args, 1) == Value::Undefined {
                w.text_value(run_from(u, start, u.len() as int))
            } else {
                let (w, n) = w.number(arg_at(args, 1));
                match n {
                    Err(e) => (w, Err(e)),
                    Ok(n) => w.text_value(
                        run_from(u, start, num::clamped_position(n, u.len() as int)),
                    ),
                }
            }
        },
    }
}

pub fn string_substr(i: &mut Interp, this: Value, args: &[Value]) -> (r: Result<Value, Value>)
    ensures
        (final(i)@, r) == substr(old(i)@, this, args@),
{
    let p = read_text_and_number(i, this, arg(args, 0))?;
    let u = i.units(p.0);
    let start: usize = num::resolve_position(p.1, u.len());
    let count: usize = if arg(args, 1).is_undefined() {
        u.len()
    } else {
        let n: u64 = i.to_number(arg(args, 1))?;
        num::clamp_position(n, u.len())
    };
    let out = take_run(&u, start, count);
    i.text_value(out)
}

// Whole strings

/// A text computed from the receiver's alone.
pub open spec fn derived(w: World, this: Value, f: spec_fn(Units) -> Units) -> Outcome<Value> {
    let (w, s) = this_text(w, this);
    match s {
        Err(e) => (w, Err(e)),
        Ok(s) => w.text_value(f(w.units(s))),
    }
}

/// The units without white space at the chosen ends.
pub open spec fn trimmed(u: Units, start: bool, end: bool) -> Units {
    let t = if start {
        string::trimmed_start(u)
    } else {
        u
    };
    if end {
        string::trimmed_end(t)
    } else {
        t
    }
}

/// `trim`, `trimStart` and `trimEnd`.
pub open spec fn trim_result(w: World, this: Value, start: bool, end: bool) -> Outcome<Value> {
    derived(w, this, |u: Units| trimmed(u, start, end))
}

/// `trim`, `trimStart` and `trimEnd`.
pub fn string_trim(i: &mut Interp, this: Value, start: bool, end: bool) -> (r: Result<Value, Value>)
    ensures
        (final(i)@, r) == trim_result(old(i)@, this, start, end),
{
    let s: u64 = this_string(i, this)?;
    let u = i.units(s);
    let out = string::trim(&u, start, end);
    i.text_value(out)
}

/// `String.prototype.isWellFormed`.
pub open spec fn formed(w: World, this: Value) -> Outcome<Value> {
    let (w, s) = this_text(w, this);
    match s {
        Err(e) => (w, Err(e)),
        Ok(s) => (w, Ok(Value::Bool(string::well_formed(w.units(s))))),
    }
}

pub fn string_is_well_formed(i: &mut Interp, this: Value) -> (r: Result<Value, Value>)
    ensures
        (final(i)@, r) == formed(old(i)@, this),
{
    let s: u64 = this_string(i, this)?;
    let u = i.units(s);
    Ok(Value::Bool(string::is_well_formed(&u)))
}

/// `toWellFormed`.
pub open spec fn well_formed_result(w: World, this: Value) -> Outcome<Value> {
    derived(w, this, |u: Units| string::made_well_formed(u))
}

/// `String.prototype.toWellFormed`.
pub fn string_to_well_formed(i: &mut Interp, this: Value) -> (r: Result<Value, Value>)
    ensures
        (final(i)@, r) == well_formed_result(old(i)@, this),
{
    let s: u64 = this_string(i, this)?;
    let u = i.units(s);
    let out = string::to_well_formed(&u);
    i.text_value(out)
}

/// `String.prototype.toLocaleString`.
pub open spec fn same_text_value(w: World, this: Value) -> Outcome<Value> {
    let (w, s) = this_text(w, this);
    match s {
        Err(e) => (w, Err(e)),
        Ok(s) => (w, Ok(Value::Str(s))),
    }
}

pub fn string_to_locale_string(i: &mut Interp, this: Value) -> (r: Result<Value, Value>)
    ensures
        (final(i)@, r) == same_text_value(old(i)@, this),
{
    let s: u64 = this_string(i, this)?;
    Ok(Value::Str(s))
}

/// The filler of a pad: a space where none is given.
pub open spec fn filler(w: World, v: Value) -> Outcome<Units> {
    if v == Value::Undefined {
        (w, Ok(seq![0x20u16]))
    } else {
        let (w, f) = w.text(v);
        match f {
            Err(e) => (w, Err(e)),
            Ok(f) => (w, Ok(w.units(f))),
        }
    }
}

fn read_filler(i: &mut Interp, v: Value) -> (r: Result<Vec<u16>, Value>)
    ensures
        final(i)@ == filler(old(i)@, v).0,
        match r {
            Ok(f) => filler(old(i)@, v).1 == Ok::<Units, Value>(f@),
            Err(e) => filler(old(i)@, v).1 == Err::<Units, Value>(e),
        },
{
    if v.is_undefined() {
        let f: Vec<u16> = vec![0x20u16];
        assert(f@ =~= seq![0x20u16]);
        return Ok(f);
    }
    let f: u64 = i.to_text(v)?;
    Ok(i.units(f))
}

/// `padStart` and `padEnd`. The filler is not read where the string is long enough already.
pub open spec fn pad_result(w: World, this: Value, args: Seq<Value>, at_start: bool) -> Outcome<
    Value,
> {
    let (w, p) = text_and_number(w, this, arg_at(args, 0));
    match p {
        Err(e) => (w, Err(e)),
        Ok(p) => {
            let u = w.units(p.0);
            let target = num::clamped_position(p.1, usize::MAX as int);
            if u.len() >= target {
                (w, Ok(Value::Str(p.0)))
            } else {
                let (w, f) = filler(w, arg_at(args, 1));
                match f {
                    Err(e) => (w, Err(e)),
                    Ok(f) => if f.len() == 0 {
                        (w, Ok(Value::Str(p.0)))
                    } else {
                        w.text_value(string::padded(u, target, f, at_start))
                    },
                }
            }
        },
    }
}

/// StringPad.
pub fn string_pad(i: &mut Interp, this: Value, args: &[Value], at_start: bool) -> (r: Result<
    Value,
    Value,
>)
    ensures
        (final(i)@, r) == pad_result(old(i)@, this, args@, at_start),
{
    let p = read_text_and_number(i, this, arg(args, 0))?;
    let u = i.units(p.0);
    let target: usize = num::clamp_position(p.1, usize::MAX);
    if u.len() >= target {
        return Ok(Value::Str(p.0));
    }
    let f = read_filler(i, arg(args, 1))?;
    if f.len() == 0 {
        return Ok(Value::Str(p.0));
    }
    let out = string::pad(&u, target, &f, at_start);
    i.text_value(out)
}

/// `String.prototype.repeat`.
pub open spec fn repeat_result(w: World, this: Value, args: Seq<Value>, limit: usize) -> Outcome<
    Value,
> {
    let (w, p) = text_and_number(w, this, arg_at(args, 0));
    match p {
        Err(e) => (w, Err(e)),
        Ok(p) => if num::less(p.1, 0) || num::infinite(p.1) {
            w.throw(ErrorKind::Range, "invalid count value")
        } else if string::bytes_from(w.units(p.0), 0) * num::cast_u64(p.1) > limit {
            w.throw(ErrorKind::Range, "Invalid string length")
        } else if w.units(p.0).len() == 0 {
            w.text_value(Seq::empty())
        } else {
            w.text_value(string::repeated(w.units(p.0), num::cast_u64(p.1)))
        },
    }
}

/// `String.prototype.repeat`; no string is longer than `limit`.
pub fn string_repeat(i: &mut Interp, this: Value, args: &[Value], limit: usize) -> (r: Result<
    Value,
    Value,
>)
    ensures
        (final(i)@, r) == repeat_result(old(i)@, this, args@, limit),
{
    let p = read_text_and_number(i, this, arg(args, 0))?;
    if num::is_less(p.1, 0) || num::is_infinite(p.1) {
        return i.fail(ErrorKind::Range, "invalid count value");
    }
    let u = i.units(p.0);
    let count: u64 = num::as_u64(p.1);
    if u.len() == 0 {
        let e: Vec<u16> = Vec::new();
        assert(e@ =~= Seq::<u16>::empty());
        assert(0 * num::cast_u64(p.1) == 0) by (nonlinear_arith);
        return i.text_value(e);
    }
    let bytes: u128 = string::byte_len(&u);
    let fits = match bytes.checked_mul(count as u128) {
        Some(n) => n <= limit as u128,
        None => false,
    };
    if !fits {
        return i.fail(ErrorKind::Range, "Invalid string length");
    }
    assert(count <= bytes * count) by (nonlinear_arith)
        requires
            bytes >= 1,
            count >= 0,
    ;
    let out = string::repeat(&u, count as usize);
    i.text_value(out)
}

/// The bytes of two strings, apart or joined: halves of a pair that meet take fewer.
pub open spec fn joined_bytes(a: Units, b: Units, apart: bool) -> int {
    if apart {
        string::bytes_from(a, 0) + string::bytes_from(b, 0)
    } else {
        string::bytes_from(a + b, 0)
    }
}

/// The receiver with the texts of the arguments from `k` on behind it.
pub open spec fn concat_from(w: World, args: Seq<Value>, k: int, out: Units, limit: usize) -> Outcome<
    Value,
>
    decreases args.len() - k,
{
    if k < 0 || k >= args.len() {
        w.text_value(out)
    } else {
        let (w, s) = w.text(args[k]);
        match s {
            Err(e) => (w, Err(e)),
            Ok(s) => if joined_bytes(out, w.units(s), args.len() == 1) > limit {
                w.throw(ErrorKind::Range, "Invalid string length")
            } else {
                concat_from(w, args, k + 1, out + w.units(s), limit)
            },
        }
    }
}

/// `String.prototype.concat`.
pub open spec fn concatenated(w: World, this: Value, args: Seq<Value>, limit: usize) -> Outcome<
    Value,
> {
    let (w, s) = this_text(w, this);
    match s {
        Err(e) => (w, Err(e)),
        Ok(s) => if args.len() == 0 {
            (w, Ok(Value::Str(s)))
        } else {
            concat_from(w, args, 0, w.units(s), limit)
        },
    }
}

/// `String.prototype.concat`: each argument is coerced, left to right, before the length is
/// checked.
pub fn string_concat(i: &mut Interp, this: Value, args: &[Value], limit: usize) -> (r: Result<
    Value,
    Value,
>)
    ensures
        (final(i)@, r) == concatenated(old(i)@, this, args@, limit),
{
    let s: u64 = this_string(i, this)?;
    if args.len() == 0 {
        return Ok(Value::Str(s));
    }
    let mut out = i.units(s);
    let ghost w0 = i@;
    let ghost u0 = out@;
    let mut k: usize = 0;
    while k < args.len()
        invariant
            k <= args@.len(),
            concat_from(w0, args@, 0, u0, limit) == concat_from(
                i@,
                args@,
                k as int,
                out@,
                limit,
            ),
            concatenated(old(i)@, this, args@, limit) == concat_from(w0, args@, 0, u0, limit),
        decreases args@.len() - k,
    {
        let t: u64 = i.to_text(args[k])?;
        let more = i.units(t);
        let most: u128 = 8 * (out.len() as u128 + more.len() as u128);
        let apart: u128 = string::byte_len(&out) + string::byte_len(&more);
        assert(apart <= most);
        let ghost before = out@;
        push_units(&mut out, &more);
        assert(out@ =~= before + more@);
        let bytes: u128 = if args.len() == 1 {
            apart
        } else {
            string::byte_len(&out)
        };
        if bytes > limit as u128 {
            return i.fail(ErrorKind::Range, "Invalid string length");
        }
        k += 1;
    }
    i.text_value(out)
}

// Building strings

/// ToUint16 of a Number.
pub open spec fn modulo_u16(n: u64) -> u16 {
    (num::modulo_u32(n) % 0x1_0000) as u16
}

/// The units of the arguments from `k` on.
pub open spec fn char_codes_from(w: World, args: Seq<Value>, k: int, out: Units) -> Outcome<Value>
    decreases args.len() - k,
{
    if k < 0 || k >= args.len() {
        w.text_value(out)
    } else {
        let (w, n) = w.number(args[k]);
        match n {
            Err(e) => (w, Err(e)),
            Ok(n) => char_codes_from(w, args, k + 1, out.push(modulo_u16(n))),
        }
    }
}

/// `String.fromCharCode`: each argument is ToUint16'd.
pub fn string_from_char_code(i: &mut Interp, args: &[Value]) -> (r: Result<Value, Value>)
    ensures
        (final(i)@, r) == char_codes_from(old(i)@, args@, 0, Seq::empty()),
{
    let mut out: Vec<u16> = Vec::new();
    let mut k: usize = 0;
    assert(out@ =~= Seq::<u16>::empty());
    while k < args.len()
        invariant
            k <= args@.len(),
            char_codes_from(old(i)@, args@, 0, Seq::empty()) == char_codes_from(
                i@,
                args@,
                k as int,
                out@,
            ),
        decreases args@.len() - k,
    {
        let n: u64 = i.to_number(args[k])?;
        out.push((num::to_uint32(n) % 0x1_0000) as u16);
        k += 1;
    }
    i.text_value(out)
}

/// A Number that is a code point.
pub open spec fn is_code_point(n: u64) -> bool {
    num::integral(n) && 0 <= num::integer_part(n) <= 0x10ffff
}

fn read_code_point(n: u64) -> (r: Option<u32>)
    ensures
        match r {
            Some(c) => is_code_point(n) && c == num::integer_part(n) && c <= 0x10ffff,
            None => !is_code_point(n),
        },
{
    if !num::is_integral(n) {
        return None;
    }
    proof {
        num::lemma_magnitude_nonneg(n);
    }
    let m: u64 = num::magnitude_u64(n);
    if (num::is_negative(n) && m > 0) || m > 0x10ffff {
        None
    } else {
        Some(m as u32)
    }
}

/// The code points of the arguments from `k` on.
pub open spec fn code_points_from(w: World, args: Seq<Value>, k: int, out: Units) -> Outcome<Value>
    decreases args.len() - k,
{
    if k < 0 || k >= args.len() {
        w.text_value(out)
    } else {
        let (w, n) = w.number(args[k]);
        match n {
            Err(e) => (w, Err(e)),
            Ok(n) => if !is_code_point(n) {
                w.throw(ErrorKind::Range, "Invalid code point")
            } else {
                code_points_from(w, args, k + 1, out + string::encoded(num::integer_part(n)))
            },
        }
    }
}

/// `String.fromCodePoint`: each argument must be an integer code point in [0, 0x10FFFF]. A lone
/// surrogate is a valid argument.
pub fn string_from_code_point(i: &mut Interp, args: &[Value]) -> (r: Result<Value, Value>)
    ensures
        (final(i)@, r) == code_points_from(old(i)@, args@, 0, Seq::empty()),
{
    let mut out: Vec<u16> = Vec::new();
    let mut k: usize = 0;
    assert(out@ =~= Seq::<u16>::empty());
    while k < args.len()
        invariant
            k <= args@.len(),
            code_points_from(old(i)@, args@, 0, Seq::empty()) == code_points_from(
                i@,
                args@,
                k as int,
                out@,
            ),
        decreases args@.len() - k,
    {
        let n: u64 = i.to_number(args[k])?;
        match read_code_point(n) {
            None => {
                return i.fail(ErrorKind::Range, "Invalid code point");
            },
            Some(c) => {
                string::push_code_point(&mut out, c);
            },
        }
        k += 1;
    }
    i.text_value(out)
}

/// The raw segments from `k` on, with the substitutions between them.
pub open spec fn raw_from(
    w: World,
    raw: Value,
    args: Seq<Value>,
    len: int,
    k: int,
    out: Units,
) -> Outcome<Value>
    decreases len - k,
{
    if k < 0 || k >= len {
        w.text_value(out)
    } else {
        let (w, v) = w.get(raw, Key::Index(k as u64));
        match v {
            Err(e) => (w, Err(e)),
            Ok(v) => {
                let (w, s) = w.text(v);
                match s {
                    Err(e) => (w, Err(e)),
                    Ok(s) => {
                        let out = out + w.units(s);
                        if k + 1 < len && k + 1 < args.len() {
                            let (w, t) = w.text(args[k + 1]);
                            match t {
                                Err(e) => (w, Err(e)),
                                Ok(t) => raw_from(w, raw, args, len, k + 1, out + w.units(t)),
                            }
                        } else {
                            raw_from(w, raw, args, len, k + 1, out)
                        }
                    },
                }
            },
        }
    }
}

/// `String.raw`.
pub open spec fn raw_text(w: World, args: Seq<Value>) -> Outcome<Value> {
    let (w, raw) = w.get(arg_at(args, 0), Key::Name("raw"));
    match raw {
        Err(e) => (w, Err(e)),
        Ok(raw) => if !raw.object() {
            w.throw(ErrorKind::Type, "raw is not an object")
        } else {
            let (w, len) = length_of(w, raw);
            match len {
                Err(e) => (w, Err(e)),
                Ok(len) => raw_from(w, raw, args, len as int, 0, Seq::empty()),
            }
        },
    }
}

pub fn string_raw(i: &mut Interp, args: &[Value]) -> (r: Result<Value, Value>)
    ensures
        (final(i)@, r) == raw_text(old(i)@, args@),
{
    let raw = i.get_member(arg(args, 0), Key::Name("raw"))?;
    if !raw.is_object() {
        return i.type_error("raw is not an object");
    }
    let len: u64 = to_length(i, raw)?;
    let mut out: Vec<u16> = Vec::new();
    let mut k: u64 = 0;
    assert(out@ =~= Seq::<u16>::empty());
    while k < len
        invariant
            k <= len,
            raw_text(old(i)@, args@) == raw_from(i@, raw, args@, len as int, k as int, out@),
        decreases len - k,
    {
        let v = i.get_member(raw, Key::Index(k))?;
        let s: u64 = i.to_text(v)?;
        let more = i.units(s);
        push_units(&mut out, &more);
        if k + 1 < len && k + 1 < args.len() as u64 {
            let t: u64 = i.to_text(args[k as usize + 1])?;
            let sub = i.units(t);
            push_units(&mut out, &sub);
        }
        k += 1;
    }
    i.text_value(out)
}

/// The HTML wrapper methods: a tag, and an attribute where it has a name.
pub open spec fn html_wrapped(
    w: World,
    this: Value,
    tag: Units,
    attr: Units,
    v: Value,
) -> Outcome<Value> {
    let (w, s) = this_text(w, this);
    match s {
        Err(e) => (w, Err(e)),
        Ok(s) => if attr.len() == 0 {
            w.text_value(string::html(w.units(s), tag, attr, Seq::empty()))
        } else {
            let (w, a) = w.text(v);
            match a {
                Err(e) => (w, Err(e)),
                Ok(a) => w.text_value(string::html(w.units(s), tag, attr, w.units(a))),
            }
        },
    }
}

/// CreateHTML on the receiver.
pub fn string_html(i: &mut Interp, this: Value, tag: &Vec<u16>, attr: &Vec<u16>, v: Value) -> (r:
    Result<Value, Value>)
    ensures
        (final(i)@, r) == html_wrapped(old(i)@, this, tag@, attr@, v),
{
    let s: u64 = this_string(i, this)?;
    let u = i.units(s);
    let value: Vec<u16> = if attr.len() == 0 {
        Vec::new()
    } else {
        let a: u64 = i.to_text(v)?;
        i.units(a)
    };
    assert(attr@.len() == 0 ==> value@ =~= Seq::<u16>::empty());
    let out = string::create_html(&u, tag, attr, &value);
    i.text_value(out)
}

/// A normalization form by its name.
pub open spec fn form_named(u: Units) -> Option<&'static str> {
    if u == seq![0x4eu16, 0x46, 0x43] {
        Some("NFC")
    } else if u == seq![0x4eu16, 0x46, 0x44] {
        Some("NFD")
    } else if u == seq![0x4eu16, 0x46, 0x4b, 0x43] {
        Some("NFKC")
    } else if u == seq![0x4eu16, 0x46, 0x4b, 0x44] {
        Some("NFKD")
    } else {
        None
    }
}

fn read_form(u: &Vec<u16>) -> (r: Option<&'static str>)
    ensures
        r == form_named(u@),
{
    if u.len() == 3 && u[0] == 0x4e && u[1] == 0x46 && u[2] == 0x43 {
        assert(u@ =~= seq![0x4eu16, 0x46, 0x43]);
        return Some("NFC");
    }
    if u.len() == 3 && u[0] == 0x4e && u[1] == 0x46 && u[2] == 0x44 {
        assert(u@ =~= seq![0x4eu16, 0x46, 0x44]);
        assert(u@[2] != seq![0x4eu16, 0x46, 0x43][2]);
        return Some("NFD");
    }
    if u.len() == 4 && u[0] == 0x4e && u[1] == 0x46 && u[2] == 0x4b && u[3] == 0x43 {
        assert(u@ =~= seq![0x4eu16, 0x46, 0x4b, 0x43]);
        return Some("NFKC");
    }
    if u.len() == 4 && u[0] == 0x4e && u[1] == 0x46 && u[2] == 0x4b && u[3] == 0x44 {
        assert(u@ =~= seq![0x4eu16, 0x46, 0x4b, 0x44]);
        assert(u@[3] != seq![0x4eu16, 0x46, 0x4b, 0x43][3]);
        return Some("NFKD");
    }
    None
}

/// `String.prototype.normalize`.
pub open spec fn normalized(w: World, this: Value, args: Seq<Value>) -> Outcome<Value> {
    let (w, s) = this_text(w, this);
    match s {
        Err(e) => (w, Err(e)),
        Ok(s) => if arg_at(args, 0) == Value::Undefined {
            w.value(Op::Normalize(Value::Str(s), "NFC"), Seq::empty())
        } else {
            let (w, f) = w.text(arg_at(args, 0));
            match f {
                Err(e) => (w, Err(e)),
                Ok(f) => match form_named(w.units(f)) {
                    None => w.throw(
                        ErrorKind::Range,
                        "The normalization form should be one of NFC, NFD, NFKC, NFKD",
                    ),
                    Some(form) => w.value(Op::Normalize(Value::Str(s), form), Seq::empty()),
                },
            }
        },
    }
}

pub fn string_normalize(i: &mut Interp, this: Value, args: &[Value]) -> (r: Result<Value, Value>)
    ensures
        (final(i)@, r) == normalized(old(i)@, this, args@),
{
    let s: u64 = this_string(i, this)?;
    if arg(args, 0).is_undefined() {
        return i.value_of(Op::Normalize(Value::Str(s), "NFC"));
    }
    let f: u64 = i.to_text(arg(args, 0))?;
    let u = i.units(f);
    match read_form(&u) {
        None => i.fail(
            ErrorKind::Range,
            "The normalization form should be one of NFC, NFD, NFKC, NFKD",
        ),
        Some(form) => i.value_of(Op::Normalize(Value::Str(s), form)),
    }
}

// Iteration

/// The state of a String Iterator.
#[derive(Clone, Copy, PartialEq, Eq, Structural, Debug)]
pub struct StringIter {
    pub string: u64,
    pub index: u64,
}

/// A fresh iterator over the receiver, by code point.
pub open spec fn string_iterated(w: World, this: Value) -> Outcome<StringIter> {
    let (w, s) = this_text(w, this);
    match s {
        Err(e) => (w, Err(e)),
        Ok(s) => (w, Ok(StringIter { string: s, index: 0 })),
    }
}

/// `String.prototype[@@iterator]`.
pub fn nf_string_iterator(i: &mut Interp, this: Value) -> (r: Result<StringIter, Value>)
    ensures
        (final(i)@, r) == string_iterated(old(i)@, this),
{
    let s: u64 = this_string(i, this)?;
    Ok(StringIter { string: s, index: 0 })
}

/// One step: the next code point as a string, until the end, where the index stays.
pub open spec fn string_stepped(w: World, it: StringIter) -> (World, StringIter, Result<Value, Value>) {
    let u = w.units(it.string);
    if it.index >= u.len() {
        let (w, r) = w.iter_result(Value::Undefined, true);
        (w, it, r)
    } else {
        let next = it.index + string::width_at(u, it.index as int);
        let (w, s) = w.intern(u.subrange(it.index as int, next));
        let (w, r) = w.iter_result(Value::Str(s), false);
        (w, StringIter { index: next as u64, ..it }, r)
    }
}

/// `%StringIteratorPrototype%.next`.
pub fn string_iter_next(i: &mut Interp, it: &mut StringIter) -> (r: Result<Value, Value>)
    ensures
        (final(i)@, *final(it), r) == string_stepped(old(i)@, *old(it)),
{
    let u = i.units(it.string);
    if it.index >= u.len() as u64 {
        return i.iter_result(Value::Undefined, true);
    }
    let k: usize = it.index as usize;
    let wide = u.len() - k > 1 && string::is_high(u[k]) && string::is_low(u[k + 1]);
    let next: usize = if wide {
        k + 2
    } else {
        k + 1
    };
    let piece = string::cut(&u, k, next);
    let s: u64 = i.intern(piece);
    it.index = next as u64;
    i.iter_result(Value::Str(s), false)
}

/// A finished iterator stays finished, and each other step moves on.
pub proof fn law_string_iterator_advances(w: World, it: StringIter)
    requires
        w.units(it.string).len() <= u64::MAX,
    ensures
        it.index >= w.units(it.string).len() ==> string_stepped(w, it).1 == it,
        it.index < w.units(it.string).len() ==> it.index < string_stepped(w, it).1.index
            <= w.units(it.string).len(),
{
}

/// The pieces that an iterator gives from `p` on, one after the other.
pub open spec fn pieces_from(u: Units, p: int) -> Seq<Units>
    decreases u.len() - p,
{
    if p < 0 || p >= u.len() {
        Seq::empty()
    } else {
        seq![u.subrange(p, p + string::width_at(u, p))] + pieces_from(
            u,
            p + string::width_at(u, p),
        )
    }
}

/// The pieces of a string, put together, are the string.
pub proof fn law_string_pieces_cover(u: Units, p: int)
    requires
        0 <= p <= u.len(),
    ensures
        string::glued(pieces_from(u, p), Seq::empty()) == u.subrange(p, u.len() as int),
    decreases u.len() - p,
{
    if p < u.len() {
        let next = p + string::width_at(u, p);
        law_string_pieces_cover(u, next);
        let rest = pieces_from(u, next);
        let all = pieces_from(u, p);
        assert(all.drop_first() =~= rest);
        assert(u.subrange(p, next) + Seq::<u16>::empty() + u.subrange(next, u.len() as int)
            =~= u.subrange(p, u.len() as int));
        if rest.len() == 0 {
            assert(next >= u.len());
            assert(u.subrange(p, next) =~= u.subrange(p, u.len() as int));
        }
    } else {
        assert(u.subrange(p, u.len() as int) =~= Seq::empty());
    }
}

// Wrapper objects

/// The intrinsic that a wrapper constructor falls back to.
pub open spec fn wrapper_name(v: Value) -> Option<&'static str> {
    match v {
        Value::Num(_) => Some("Number"),
        Value::Bool(_) => Some("Boolean"),
        Value::Str(_) => Some("String"),
        _ => None,
    }
}

/// What a wrapper constructor returns for a primitive: the primitive itself where it was called,
/// a wrapper object where it was constructed.
pub open spec fn boxed(w: World, v: Value) -> Outcome<Value> {
    let (w, nt) = w.plain(Op::NewTarget, Seq::empty());
    if nt == Value::Undefined {
        (w, Ok(v))
    } else {
        let (w, o) = wrapped(w, v);
        match wrapper_name(v) {
            None => (w, Ok(o)),
            Some(name) => if !nt.object() {
                (w, Ok(o))
            } else {
                let (w, p) = w.get(nt, Key::Name("prototype"));
                match p {
                    Err(e) => (w, Err(e)),
                    Ok(p) => {
                        let (w, p) = if p.object() {
                            (w, Ok(p))
                        } else {
                            realm_prototype(w, nt, name, 64)
                        };
                        match p {
                            Err(e) => (w, Err(e)),
                            Ok(p) => if p.object() {
                                let (w, _) = w.plain(Op::StorePrototype(o, p), Seq::empty());
                                (w, Ok(o))
                            } else {
                                (w, Ok(o))
                            },
                        }
                    },
                }
            },
        }
    }
}

/// Box only when a wrapper constructor is invoked via `new`. The instance prototype honors
/// newTarget (OrdinaryCreateFromConstructor), falling back to newTarget's *realm's* intrinsic when
/// its `prototype` isn't an object.
pub fn maybe_box(i: &mut Interp, v: Value) -> (r: Result<Value, Value>)
    ensures
        (final(i)@, r) == boxed(old(i)@, v),
{
    let nt = i.perform(Op::NewTarget);
    if nt.is_undefined() {
        return Ok(v);
    }
    let o = box_primitive(i, v);
    let name: &'static str = match v {
        Value::Num(_) => "Number",
        Value::Bool(_) => "Boolean",
        Value::Str(_) => "String",
        _ => {
            return Ok(o);
        },
    };
    if !nt.is_object() {
        return Ok(o);
    }
    let p = i.get_member(nt, Key::Name("prototype"))?;
    let p = if p.is_object() {
        p
    } else {
        ctor_realm_proto(i, nt, name)?
    };
    if p.is_object() {
        let _ = i.perform(Op::StorePrototype(o, p));
    }
    Ok(o)
}

/// `String` as a function and as a constructor.
pub open spec fn string_constructed(w: World, args: Seq<Value>) -> Outcome<Value> {
    if args.len() == 0 {
        let (w, s) = w.intern(Seq::empty());
        boxed(w, Value::Str(s))
    } else {
        let (w, nt) = w.plain(Op::NewTarget, Seq::empty());
        if args[0] is Sym && nt == Value::Undefined {
            let (w, s) = w.plain(Op::SymbolText(args[0]), Seq::empty());
            boxed(w, s)
        } else {
            let (w, s) = w.text(args[0]);
            match s {
                Err(e) => (w, Err(e)),
                Ok(s) => boxed(w, Value::Str(s)),
            }
        }
    }
}

/// `String(sym)` stringifies a symbol to its descriptive string; `new String(sym)` instead throws.
pub fn string_constructor(i: &mut Interp, args: &[Value]) -> (r: Result<Value, Value>)
    ensures
        (final(i)@, r) == string_constructed(old(i)@, args@),
{
    if args.len() == 0 {
        let e: Vec<u16> = Vec::new();
        assert(e@ =~= Seq::<u16>::empty());
        let s: u64 = i.intern(e);
        return maybe_box(i, Value::Str(s));
    }
    let nt = i.perform(Op::NewTarget);
    let symbol = match args[0] {
        Value::Sym(_) => true,
        _ => false,
    };
    if symbol && nt.is_undefined() {
        let s = i.perform(Op::SymbolText(args[0]));
        return maybe_box(i, s);
    }
    let s: u64 = i.to_text(args[0])?;
    maybe_box(i, Value::Str(s))
}

} // verus!
