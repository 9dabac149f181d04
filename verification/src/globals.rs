//! Global functions: number parsing, tests of Numbers, `eval`, and the console.
use vstd::prelude::*;
use crate::interp::{arg, arg_at, Interp, Op, Outcome, Value, World};
use crate::num;
use crate::string;
use crate::string::Units;
use crate::text::push_units;

verus! {

// parseInt

/// What `parseInt` reads: a sign, a radix, and digits in it.
pub struct IntegerLiteral {
    pub negative: bool,
    pub radix: u32,
    pub digits: Vec<u32>,
}

/// An integer literal as contracts speak of it.
#[verifier::ext_equal]
pub struct IntegerText {
    pub negative: bool,
    pub radix: u32,
    pub digits: Seq<u32>,
}

impl View for IntegerLiteral {
    type V = IntegerText;

    open spec fn view(&self) -> IntegerText {
        IntegerText { negative: self.negative, radix: self.radix, digits: self.digits@ }
    }
}

/// The value of a digit or letter in a radix.
pub open spec fn digit_in(u: u16, radix: u32) -> Option<u32> {
    let d = if 0x30 <= u <= 0x39 {
        (u - 0x30) as u32
    } else if 0x61 <= u <= 0x7a {
        (u - 0x61 + 10) as u32
    } else if 0x41 <= u <= 0x5a {
        (u - 0x41 + 10) as u32
    } else {
        36u32
    };
    if d < radix && d < 36 {
        Some(d)
    } else {
        None
    }
}

fn read_digit(u: u16, radix: u32) -> (r: Option<u32>)
    ensures
        r == digit_in(u, radix),
{
    let d: u32 = if 0x30 <= u && u <= 0x39 {
        (u - 0x30) as u32
    } else if 0x61 <= u && u <= 0x7a {
        (u - 0x61 + 10) as u32
    } else if 0x41 <= u && u <= 0x5a {
        (u - 0x41 + 10) as u32
    } else {
        36
    };
    if d < radix && d < 36 {
        Some(d)
    } else {
        None
    }
}

/// The digits from `p` on, up to the first unit that is none.
pub open spec fn digits_from(u: Units, p: int, radix: u32) -> Seq<u32>
    decreases u.len() - p,
{
    if p < 0 || p >= u.len() {
        Seq::empty()
    } else {
        match digit_in(u[p], radix) {
            Some(d) => seq![d] + digits_from(u, p + 1, radix),
            None => Seq::empty(),
        }
    }
}

/// A sign at the start: whether it is a minus, and how many units it takes.
pub open spec fn sign_at(u: Units, p: int) -> (bool, int) {
    if 0 <= p < u.len() && u[p] == 0x2d {
        (true, 1)
    } else if 0 <= p < u.len() && u[p] == 0x2b {
        (false, 1)
    } else {
        (false, 0)
    }
}

/// `0x` or `0X` stands at `p`.
pub open spec fn hex_mark(u: Units, p: int) -> bool {
    0 <= p && p + 1 < u.len() && u[p] == 0x30 && (u[p + 1] == 0x78 || u[p + 1] == 0x58)
}

/// The literal at the start of a text, white space trimmed, in a radix; 0 stands for ten, or for
/// sixteen behind a mark.
pub open spec fn integer_text(u: Units, radix: u32) -> Option<IntegerText> {
    let t = string::trimmed_end(string::trimmed_start(u));
    let s = sign_at(t, 0);
    let marked = (radix == 0 || radix == 16) && hex_mark(t, s.1);
    let base = if marked {
        16u32
    } else if radix == 0 {
        10u32
    } else {
        radix
    };
    let start = if marked {
        s.1 + 2
    } else {
        s.1
    };
    let digits = digits_from(t, start, base);
    if !(2 <= base <= 36) || digits.len() == 0 {
        None
    } else {
        Some(IntegerText { negative: s.0, radix: base, digits })
    }
}

fn read_sign(u: &Vec<u16>) -> (r: (bool, usize))
    ensures
        (r.0, r.1 as int) == sign_at(u@, 0),
        r.1 <= u@.len(),
{
    if u.len() > 0 && u[0] == 0x2d {
        (true, 1)
    } else if u.len() > 0 && u[0] == 0x2b {
        (false, 1)
    } else {
        (false, 0)
    }
}

fn read_digits(u: &Vec<u16>, start: usize, radix: u32) -> (r: Vec<u32>)
    requires
        start <= u@.len(),
    ensures
        r@ == digits_from(u@, start as int, radix),
{
    let mut out: Vec<u32> = Vec::new();
    let mut p: usize = start;
    assert(out@ + digits_from(u@, start as int, radix) =~= digits_from(u@, start as int, radix));
    while p < u.len()
        invariant
            start <= p <= u@.len(),
            out@ + digits_from(u@, p as int, radix) == digits_from(u@, start as int, radix),
        decreases u@.len() - p,
    {
        let ghost before = out@;
        match read_digit(u[p], radix) {
            Some(d) => {
                out.push(d);
                assert(out@ + digits_from(u@, p + 1, radix) =~= before + digits_from(
                    u@,
                    p as int,
                    radix,
                ));
            },
            None => {
                assert(out@ =~= out@ + digits_from(u@, p as int, radix));
                return out;
            },
        }
        p += 1;
    }
    assert(out@ =~= out@ + digits_from(u@, p as int, radix));
    out
}

/// The literal that `parseInt` reads; none stands for NaN.
pub fn parse_int(u: &Vec<u16>, radix: u32) -> (r: Option<IntegerLiteral>)
    ensures
        match r {
            Some(l) => integer_text(u@, radix) == Some(l@),
            None => integer_text(u@, radix) is None,
        },
{
    let t = string::trim(u, true, true);
    let s = read_sign(&t);
    let marked = (radix == 0 || radix == 16) && t.len() - s.1 > 1 && t[s.1] == 0x30 && (t[s.1 + 1]
        == 0x78 || t[s.1 + 1] == 0x58);
    let base: u32 = if marked {
        16
    } else if radix == 0 {
        10
    } else {
        radix
    };
    if base < 2 || base > 36 {
        return None;
    }
    let start: usize = if marked {
        s.1 + 2
    } else {
        s.1
    };
    let digits = read_digits(&t, start, base);
    if digits.len() == 0 {
        return None;
    }
    Some(IntegerLiteral { negative: s.0, radix: base, digits })
}

/// Every digit of a literal is below its radix.
pub proof fn law_digits_fit_the_radix(u: Units, p: int, radix: u32)
    ensures
        forall|j: int|
            0 <= j < digits_from(u, p, radix).len() ==> #[trigger] digits_from(u, p, radix)[j]
                < radix,
    decreases u.len() - p,
{
    if 0 <= p < u.len() {
        match digit_in(u[p], radix) {
            Some(d) => {
                law_digits_fit_the_radix(u, p + 1, radix);
                let rest = digits_from(u, p + 1, radix);
                assert forall|j: int| 0 <= j < digits_from(u, p, radix).len() implies #[trigger] digits_from(
                    u,
                    p,
                    radix,
                )[j] < radix by {
                    if j > 0 {
                        assert(digits_from(u, p, radix)[j] == rest[j - 1]);
                    }
                }
            },
            None => {},
        }
    }
}

/// `parseInt`: the text is coerced before the radix, which is ToUint32'd (wrapping), so e.g. 2^32+2
/// means radix 2 and Infinity means 0.
pub open spec fn parse_int_called(w: World, args: Seq<Value>) -> Outcome<Option<IntegerText>> {
    let (w, s) = w.text(arg_at(args, 0));
    match s {
        Err(e) => (w, Err(e)),
        Ok(s) => if arg_at(args, 1) == Value::Undefined {
            (w, Ok(integer_text(w.units(s), 0)))
        } else {
            let (w, r) = w.number(arg_at(args, 1));
            match r {
                Err(e) => (w, Err(e)),
                Ok(r) => (w, Ok(integer_text(w.units(s), num::modulo_u32(r) as u32))),
            }
        },
    }
}

pub fn global_parse_int(i: &mut Interp, args: &[Value]) -> (r: Result<
    Option<IntegerLiteral>,
    Value,
>)
    ensures
        final(i)@ == parse_int_called(old(i)@, args@).0,
        match r {
            Ok(Some(l)) => parse_int_called(old(i)@, args@).1 == Ok::<Option<IntegerText>, Value>(
                Some(l@),
            ),
            Ok(None) => parse_int_called(old(i)@, args@).1 == Ok::<Option<IntegerText>, Value>(
                None,
            ),
            Err(e) => parse_int_called(old(i)@, args@).1 == Err::<Option<IntegerText>, Value>(e),
        },
{
    let s: u64 = i.to_text(arg(args, 0))?;
    let u = i.units(s);
    if arg(args, 1).is_undefined() {
        return Ok(parse_int(&u, 0));
    }
    let r: u64 = i.to_number(arg(args, 1))?;
    Ok(parse_int(&u, num::to_uint32(r)))
}

// parseFloat

/// What `parseFloat` reads.
pub enum FloatLiteral {
    NotANumber,
    Infinity { negative: bool },
    /// The text of a decimal literal with its sign.
    Decimal(Vec<u16>),
}

/// A decimal literal as contracts speak of it.
pub enum FloatText {
    NotANumber,
    Infinity { negative: bool },
    Decimal(Units),
}

impl View for FloatLiteral {
    type V = FloatText;

    open spec fn view(&self) -> FloatText {
        match *self {
            FloatLiteral::NotANumber => FloatText::NotANumber,
            FloatLiteral::Infinity { negative } => FloatText::Infinity { negative },
            FloatLiteral::Decimal(v) => FloatText::Decimal(v@),
        }
    }
}

pub open spec fn is_digit(u: u16) -> bool {
    0x30 <= u <= 0x39
}

/// The end of the run of digits that starts at `p`.
pub open spec fn run_end(u: Units, p: int) -> int
    decreases u.len() - p,
{
    if p < 0 || p >= u.len() || !is_digit(u[p]) {
        p
    } else {
        run_end(u, p + 1)
    }
}

fn find_run_end(u: &Vec<u16>, start: usize) -> (r: usize)
    requires
        start <= u@.len(),
    ensures
        r == run_end(u@, start as int),
        start <= r <= u@.len(),
{
    let mut p: usize = start;
    while p < u.len() && 0x30 <= u[p] && u[p] <= 0x39
        invariant
            start <= p <= u@.len(),
            run_end(u@, start as int) == run_end(u@, p as int),
        decreases u@.len() - p,
    {
        p += 1;
    }
    p
}

/// The end of the digits and the fraction that start at `p`, and how many digits there are.
pub open spec fn fraction_end(u: Units, p: int) -> (int, int) {
    let whole = run_end(u, p);
    if 0 <= whole < u.len() && u[whole] == 0x2e {
        let end = run_end(u, whole + 1);
        (end, (whole - p) + (end - whole - 1))
    } else {
        (whole, whole - p)
    }
}

/// The end of an exponent part at `p`: it only counts if at least one digit follows the marker (and
/// optional sign).
pub open spec fn exponent_end(u: Units, p: int) -> int {
    if 0 <= p < u.len() && (u[p] == 0x65 || u[p] == 0x45) {
        let start = if p + 1 < u.len() && (u[p + 1] == 0x2b || u[p + 1] == 0x2d) {
            p + 2
        } else {
            p + 1
        };
        if run_end(u, start) > start {
            run_end(u, start)
        } else {
            p
        }
    } else {
        p
    }
}

/// "Infinity".
pub open spec fn infinity_text() -> Units {
    seq![0x49u16, 0x6e, 0x66, 0x69, 0x6e, 0x69, 0x74, 0x79]
}

/// The longest prefix, behind white space, that is itself a valid literal.
pub open spec fn float_text(u: Units) -> FloatText {
    let t = string::trimmed_start(u);
    let s = sign_at(t, 0);
    if string::occurs_at(t, infinity_text(), s.1) {
        FloatText::Infinity { negative: s.0 }
    } else {
        let f = fraction_end(t, s.1);
        if f.1 == 0 {
            FloatText::NotANumber
        } else {
            FloatText::Decimal(t.subrange(0, exponent_end(t, f.0)))
        }
    }
}

fn find_exponent_end(u: &Vec<u16>, p: usize) -> (r: usize)
    requires
        p <= u@.len(),
    ensures
        r == exponent_end(u@, p as int),
        p <= r <= u@.len(),
{
    if p < u.len() && (u[p] == 0x65 || u[p] == 0x45) {
        let start: usize = if u.len() - p > 1 && (u[p + 1] == 0x2b || u[p + 1] == 0x2d) {
            p + 2
        } else {
            p + 1
        };
        let end: usize = find_run_end(u, start);
        if end > start {
            end
        } else {
            p
        }
    } else {
        p
    }
}

/// The literal that `parseFloat` reads: optional sign, then "Infinity" or digits [. digits]
/// [exponent].
pub fn parse_float(u: &Vec<u16>) -> (r: FloatLiteral)
    ensures
        r@ == float_text(u@),
{
    let t = string::trim(u, true, false);
    let s = read_sign(&t);
    let word: Vec<u16> = vec![0x49u16, 0x6e, 0x66, 0x69, 0x6e, 0x69, 0x74, 0x79];
    assert(word@ =~= infinity_text());
    if string::is_at(&t, &word, s.1) {
        return FloatLiteral::Infinity { negative: s.0 };
    }
    let whole: usize = find_run_end(&t, s.1);
    let mut end: usize = whole;
    let mut some: bool = whole > s.1;
    if whole < t.len() && t[whole] == 0x2e {
        end = find_run_end(&t, whole + 1);
        some = some || end > whole + 1;
    }
    if !some {
        return FloatLiteral::NotANumber;
    }
    let last: usize = find_exponent_end(&t, end);
    FloatLiteral::Decimal(string::cut(&t, 0, last))
}

/// `parseFloat`.
pub open spec fn parse_float_called(w: World, args: Seq<Value>) -> Outcome<FloatText> {
    let (w, s) = w.text(arg_at(args, 0));
    match s {
        Err(e) => (w, Err(e)),
        Ok(s) => (w, Ok(float_text(w.units(s)))),
    }
}

pub fn global_parse_float(i: &mut Interp, args: &[Value]) -> (r: Result<FloatLiteral, Value>)
    ensures
        final(i)@ == parse_float_called(old(i)@, args@).0,
        match r {
            Ok(l) => parse_float_called(old(i)@, args@).1 == Ok::<FloatText, Value>(l@),
            Err(e) => parse_float_called(old(i)@, args@).1 == Err::<FloatText, Value>(e),
        },
{
    let s: u64 = i.to_text(arg(args, 0))?;
    let u = i.units(s);
    Ok(parse_float(&u))
}

// Tests of Numbers

/// `isNaN`.
pub open spec fn nan_tested(w: World, args: Seq<Value>) -> Outcome<Value> {
    let (w, n) = w.number(arg_at(args, 0));
    match n {
        Err(e) => (w, Err(e)),
        Ok(n) => (w, Ok(Value::Bool(num::nan(n)))),
    }
}

pub fn global_is_nan(i: &mut Interp, args: &[Value]) -> (r: Result<Value, Value>)
    ensures
        (final(i)@, r) == nan_tested(old(i)@, args@),
{
    let n: u64 = i.to_number(arg(args, 0))?;
    Ok(Value::Bool(num::is_nan(n)))
}

/// `isFinite`.
pub open spec fn finite_tested(w: World, args: Seq<Value>) -> Outcome<Value> {
    let (w, n) = w.number(arg_at(args, 0));
    match n {
        Err(e) => (w, Err(e)),
        Ok(n) => (w, Ok(Value::Bool(num::finite(n)))),
    }
}

pub fn global_is_finite(i: &mut Interp, args: &[Value]) -> (r: Result<Value, Value>)
    ensures
        (final(i)@, r) == finite_tested(old(i)@, args@),
{
    let n: u64 = i.to_number(arg(args, 0))?;
    Ok(Value::Bool(num::is_finite(n)))
}

// Programs and lines

/// Indirect `eval`: a string runs in the global scope, anything else is returned.
pub open spec fn evaluated(w: World, args: Seq<Value>) -> Outcome<Value> {
    match arg_at(args, 0) {
        Value::Str(_) => w.value(Op::Eval(arg_at(args, 0)), Seq::empty()),
        v => (w, Ok(v)),
    }
}

pub fn global_eval(i: &mut Interp, args: &[Value]) -> (r: Result<Value, Value>)
    ensures
        (final(i)@, r) == evaluated(old(i)@, args@),
{
    match arg(args, 0) {
        Value::Str(s) => i.value_of(Op::Eval(Value::Str(s))),
        v => Ok(v),
    }
}

/// The texts of the arguments from `k` on, separated by spaces, behind `out`.
pub open spec fn line_from(w: World, args: Seq<Value>, k: int, out: Units) -> Outcome<Units>
    decreases args.len() - k,
{
    if k < 0 || k >= args.len() {
        (w, Ok(out))
    } else {
        let (w, s) = w.text(args[k]);
        match s {
            Err(e) => (w, Err(e)),
            Ok(s) => line_from(
                w,
                args,
                k + 1,
                if k == 0 {
                    out + w.units(s)
                } else {
                    out.push(0x20) + w.units(s)
                },
            ),
        }
    }
}

/// `console.log` and its like: one line of the arguments.
pub open spec fn logged(w: World, args: Seq<Value>) -> Outcome<Value> {
    let (w, line) = line_from(w, args, 0, Seq::empty());
    match line {
        Err(e) => (w, Err(e)),
        Ok(line) => {
            let (w, s) = w.intern(line);
            let (w, _) = w.plain(Op::Print(Value::Str(s)), Seq::empty());
            (w, Ok(Value::Undefined))
        },
    }
}

pub fn console_log(i: &mut Interp, args: &[Value]) -> (r: Result<Value, Value>)
    ensures
        (final(i)@, r) == logged(old(i)@, args@),
{
    let mut out: Vec<u16> = Vec::new();
    let mut k: usize = 0;
    assert(out@ =~= Seq::<u16>::empty());
    while k < args.len()
        invariant
            k <= args@.len(),
            line_from(old(i)@, args@, 0, Seq::empty()) == line_from(i@, args@, k as int, out@),
        decreases args@.len() - k,
    {
        let s: u64 = i.to_text(args[k])?;
        let u = i.units(s);
        if k > 0 {
            out.push(0x20);
        }
        push_units(&mut out, &u);
        k += 1;
    }
    let s: u64 = i.intern(out);
    let _ = i.perform(Op::Print(Value::Str(s)));
    Ok(Value::Undefined)
}

/// `print`: one line of the first argument.
pub open spec fn printed(w: World, args: Seq<Value>) -> Outcome<Value> {
    let (w, s) = w.text(arg_at(args, 0));
    match s {
        Err(e) => (w, Err(e)),
        Ok(s) => {
            let (w, _) = w.plain(Op::Print(Value::Str(s)), Seq::empty());
            (w, Ok(Value::Undefined))
        },
    }
}

pub fn global_print(i: &mut Interp, args: &[Value]) -> (r: Result<Value, Value>)
    ensures
        (final(i)@, r) == printed(old(i)@, args@),
{
    let s: u64 = i.to_text(arg(args, 0))?;
    let _ = i.perform(Op::Print(Value::Str(s)));
    Ok(Value::Undefined)
}

} // verus!
