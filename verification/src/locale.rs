//! Locale-sensitive built-ins: date and time options, and the way to the Intl services.
use vstd::prelude::*;
use crate::interp::{arg, arg_at, ErrorKind, Interp, Key, Op, Outcome, Service, Value, World};
use crate::num;
use crate::realm::{set_data, stored};
use crate::sort::{is_units_below, units_below};
use crate::string_methods::{this_string, this_text};

verus! {

/// The options that make a request for a date.
pub const DATE_FIELDS: [&'static str; 6] = [
    "weekday",
    "year",
    "month",
    "day",
    "dateStyle",
    "timeStyle",
];

/// The options that make a request for a time.
pub const TIME_FIELDS: [&'static str; 7] = [
    "dayPeriod",
    "hour",
    "minute",
    "second",
    "fractionalSecondDigits",
    "dateStyle",
    "timeStyle",
];

/// The options that make a request for either.
pub const ALL_FIELDS: [&'static str; 11] = [
    "weekday",
    "year",
    "month",
    "day",
    "dayPeriod",
    "hour",
    "minute",
    "second",
    "fractionalSecondDigits",
    "dateStyle",
    "timeStyle",
];

pub const DATE_DEFAULTS: [&'static str; 3] = ["year", "month", "day"];

pub const TIME_DEFAULTS: [&'static str; 3] = ["hour", "minute", "second"];

pub const ALL_DEFAULTS: [&'static str; 6] = ["year", "month", "day", "hour", "minute", "second"];

/// Some option from `k` on is set.
pub open spec fn option_set(w: World, options: Value, names: Seq<&'static str>, k: int) -> Outcome<bool>
    decreases names.len() - k,
{
    if k < 0 || k >= names.len() {
        (w, Ok(false))
    } else {
        let (w, v) = w.get(options, Key::Name(names[k]));
        match v {
            Err(e) => (w, Err(e)),
            Ok(v) => if v != Value::Undefined {
                (w, Ok(true))
            } else {
                option_set(w, options, names, k + 1)
            },
        }
    }
}

fn is_option_set(i: &mut Interp, options: Value, names: &[&'static str]) -> (r: Result<bool, Value>)
    ensures
        (final(i)@, r) == option_set(old(i)@, options, names@, 0),
{
    let mut k: usize = 0;
    while k < names.len()
        invariant
            k <= names@.len(),
            option_set(old(i)@, options, names@, 0) == option_set(i@, options, names@, k as int),
        decreases names@.len() - k,
    {
        let v = i.get_member(options, Key::Name(names[k]))?;
        if !v.is_undefined() {
            return Ok(true);
        }
        k += 1;
    }
    Ok(false)
}

/// "numeric".
pub open spec fn numeric_text() -> Seq<u16> {
    seq![0x6eu16, 0x75, 0x6d, 0x65, 0x72, 0x69, 0x63]
}

/// Sets each option from `k` on to "numeric".
pub open spec fn defaults_set(w: World, o: Value, names: Seq<&'static str>, k: int) -> World
    decreases names.len() - k,
{
    if k < 0 || k >= names.len() {
        w
    } else {
        let (w, s) = w.intern(numeric_text());
        defaults_set(stored(w, o, Key::Name(names[k]), Value::Str(s)), o, names, k + 1)
    }
}

fn set_defaults(i: &mut Interp, o: Value, names: &[&'static str])
    ensures
        final(i)@ == defaults_set(old(i)@, o, names@, 0),
{
    let mut k: usize = 0;
    while k < names.len()
        invariant
            k <= names@.len(),
            defaults_set(old(i)@, o, names@, 0) == defaults_set(i@, o, names@, k as int),
        decreases names@.len() - k,
    {
        let t: Vec<u16> = vec![0x6eu16, 0x75, 0x6d, 0x65, 0x72, 0x69, 0x63];
        assert(t@ =~= numeric_text());
        let s: u64 = i.intern(t);
        set_data(i, o, Key::Name(names[k]), Value::Str(s));
        k += 1;
    }
}

/// ToDateTimeOptions: an object that inherits the given options, with numeric defaults unless a
/// component was requested.
pub open spec fn options_made(
    w: World,
    options: Value,
    fields: Seq<&'static str>,
    defaults: Seq<&'static str>,
) -> Outcome<Value> {
    if options != Value::Undefined && !options.object() {
        w.throw(ErrorKind::Type, "options must be an object")
    } else {
        let (w, requested) = if options.object() {
            option_set(w, options, fields, 0)
        } else {
            (w, Ok(false))
        };
        match requested {
            Err(e) => (w, Err(e)),
            Ok(requested) => {
                let (w, o) = w.plain(Op::NewObject, Seq::empty());
                let w = if options.object() {
                    w.plain(Op::StorePrototype(o, options), Seq::empty()).0
                } else {
                    w
                };
                (
                    if requested {
                        w
                    } else {
                        defaults_set(w, o, defaults, 0)
                    },
                    Ok(o),
                )
            },
        }
    }
}

fn make_options(
    i: &mut Interp,
    options: Value,
    fields: &[&'static str],
    defaults: &[&'static str],
) -> (r: Result<Value, Value>)
    ensures
        (final(i)@, r) == options_made(old(i)@, options, fields@, defaults@),
{
    if !options.is_undefined() && !options.is_object() {
        return i.type_error("options must be an object");
    }
    let requested = if options.is_object() {
        is_option_set(i, options, fields)?
    } else {
        false
    };
    let o = i.perform(Op::NewObject);
    if options.is_object() {
        let _ = i.perform(Op::StorePrototype(o, options));
    }
    if !requested {
        set_defaults(i, o, defaults);
    }
    Ok(o)
}

/// ToDateTimeOptions for toLocaleDateString(date)/toLocaleTimeString(time): add the dimension's
/// numeric defaults unless a component of that dimension (or a dateStyle/timeStyle) is already
/// present.
pub fn date_style_default(i: &mut Interp, options: Value, date: bool) -> (r: Result<Value, Value>)
    ensures
        (final(i)@, r) == (if date {
            options_made(old(i)@, options, DATE_FIELDS@, DATE_DEFAULTS@)
        } else {
            options_made(old(i)@, options, TIME_FIELDS@, TIME_DEFAULTS@)
        }),
{
    if date {
        make_options(i, options, DATE_FIELDS.as_slice(), DATE_DEFAULTS.as_slice())
    } else {
        make_options(i, options, TIME_FIELDS.as_slice(), TIME_DEFAULTS.as_slice())
    }
}

/// ToDateTimeOptions(options, "any", "all") for toLocaleString: add both date and time numeric
/// defaults unless the caller already requested a date/time component or a dateStyle/timeStyle.
pub fn date_all_default(i: &mut Interp, options: Value) -> (r: Result<Value, Value>)
    ensures
        (final(i)@, r) == options_made(old(i)@, options, ALL_FIELDS@, ALL_DEFAULTS@),
{
    make_options(i, options, ALL_FIELDS.as_slice(), ALL_DEFAULTS.as_slice())
}

// Services

/// The method that a service is asked by.
pub open spec fn service_method(s: Service) -> Key {
    match s {
        Service::Collator => Key::Name("compare"),
        Service::NumberFormat => Key::Name("format"),
        Service::DateTimeFormat => Key::Name("format"),
    }
}

/// An Intl service made for the locales and options, and asked.
pub open spec fn delegated(
    w: World,
    s: Service,
    locales: Value,
    options: Value,
    args: Seq<Value>,
) -> Outcome<Value> {
    let (w, ctor) = w.value(Op::IntlService(s), Seq::empty());
    match ctor {
        Err(e) => (w, Err(e)),
        Ok(ctor) => {
            let (w, inst) = w.value(Op::Construct(ctor, ctor), seq![locales, options]);
            match inst {
                Err(e) => (w, Err(e)),
                Ok(inst) => {
                    let (w, f) = w.get(inst, service_method(s));
                    match f {
                        Err(e) => (w, Err(e)),
                        Ok(f) => w.call(f, inst, args),
                    }
                },
            }
        },
    }
}

/// The locale-independent equivalents for an engine without Intl.
pub open spec fn degraded(w: World, s: Service, args: Seq<Value>) -> Outcome<Value> {
    match s {
        Service::Collator => {
            let (w, a) = w.text(arg_at(args, 0));
            match a {
                Err(e) => (w, Err(e)),
                Ok(a) => {
                    let (w, b) = w.text(arg_at(args, 1));
                    match b {
                        Err(e) => (w, Err(e)),
                        Ok(b) => (
                            w,
                            Ok(
                                Value::Num(
                                    if units_below(w.units(a), w.units(b)) {
                                        num::MINUS_ONE
                                    } else if units_below(w.units(b), w.units(a)) {
                                        num::number(1)
                                    } else {
                                        num::number(0)
                                    },
                                ),
                            ),
                        ),
                    }
                },
            }
        },
        Service::NumberFormat => {
            let (w, t) = w.text(arg_at(args, 0));
            match t {
                Err(e) => (w, Err(e)),
                Ok(t) => (w, Ok(Value::Str(t))),
            }
        },
        Service::DateTimeFormat => {
            let (w, t) = w.number(arg_at(args, 0));
            match t {
                Err(e) => (w, Err(e)),
                Ok(t) => w.value(Op::DateText(Value::Num(t)), Seq::empty()),
            }
        },
    }
}

/// Asks a service, where the engine has Intl, or its locale-independent equivalent.
pub open spec fn service_asked(
    w: World,
    s: Service,
    locales: Value,
    options: Value,
    args: Seq<Value>,
) -> Outcome<Value> {
    let (w, intl) = w.yes(Op::HasIntl);
    if intl {
        delegated(w, s, locales, options, args)
    } else {
        degraded(w, s, args)
    }
}

fn delegate_to_service(
    i: &mut Interp,
    s: Service,
    locales: Value,
    options: Value,
    args: Vec<Value>,
) -> (r: Result<Value, Value>)
    ensures
        (final(i)@, r) == delegated(old(i)@, s, locales, options, args@),
{
    let ctor = i.value_of(Op::IntlService(s))?;
    let list = vec![locales, options];
    assert(list@ =~= seq![locales, options]);
    let inst = i.ask_value(Op::Construct(ctor, ctor), list)?;
    let key = match s {
        Service::Collator => Key::Name("compare"),
        Service::NumberFormat => Key::Name("format"),
        Service::DateTimeFormat => Key::Name("format"),
    };
    let f = i.get_member(inst, key)?;
    i.call(f, inst, args)
}

fn degrade(i: &mut Interp, s: Service, args: &[Value]) -> (r: Result<Value, Value>)
    ensures
        (final(i)@, r) == degraded(old(i)@, s, args@),
{
    match s {
        Service::Collator => {
            let a: u64 = i.to_text(arg(args, 0))?;
            let b: u64 = i.to_text(arg(args, 1))?;
            let x = i.units(a);
            let y = i.units(b);
            if is_units_below(&x, &y) {
                Ok(Value::Num(num::MINUS_ONE))
            } else if is_units_below(&y, &x) {
                Ok(Value::Num(num::of_u64(1)))
            } else {
                Ok(Value::Num(num::of_u64(0)))
            }
        },
        Service::NumberFormat => {
            let t: u64 = i.to_text(arg(args, 0))?;
            Ok(Value::Str(t))
        },
        Service::DateTimeFormat => {
            let t: u64 = i.to_number(arg(args, 0))?;
            i.value_of(Op::DateText(Value::Num(t)))
        },
    }
}

/// Construct `Intl.<service>(locales, options)` and invoke its method on the arguments. An engine
/// without ECMA-402 still has the `toLocale*`/`localeCompare` surface: it degrades to the
/// locale-independent equivalents.
pub fn intl_delegate(i: &mut Interp, s: Service, locales: Value, options: Value, args: Vec<Value>) -> (r:
    Result<Value, Value>)
    ensures
        (final(i)@, r) == service_asked(old(i)@, s, locales, options, args@),
{
    if i.ask_yes(Op::HasIntl) {
        delegate_to_service(i, s, locales, options, args)
    } else {
        degrade(i, s, args.as_slice())
    }
}

/// `String.prototype.localeCompare`.
pub open spec fn locale_ordered(w: World, this: Value, args: Seq<Value>) -> Outcome<Value> {
    let (w, a) = this_text(w, this);
    match a {
        Err(e) => (w, Err(e)),
        Ok(a) => {
            let (w, b) = w.text(arg_at(args, 0));
            match b {
                Err(e) => (w, Err(e)),
                Ok(b) => service_asked(
                    w,
                    Service::Collator,
                    arg_at(args, 1),
                    arg_at(args, 2),
                    seq![Value::Str(a), Value::Str(b)],
                ),
            }
        },
    }
}

/// `String.prototype.localeCompare`: RequireObjectCoercible + ToString this, then delegate to
/// Intl.Collator.
pub fn string_locale_order(i: &mut Interp, this: Value, args: &[Value]) -> (r: Result<Value, Value>)
    ensures
        (final(i)@, r) == locale_ordered(old(i)@, this, args@),
{
    let a: u64 = this_string(i, this)?;
    let b: u64 = i.to_text(arg(args, 0))?;
    let list = vec![Value::Str(a), Value::Str(b)];
    assert(list@ =~= seq![Value::Str(a), Value::Str(b)]);
    intl_delegate(i, Service::Collator, arg(args, 1), arg(args, 2), list)
}

/// Without Intl, strings are ordered by code units: equal ones are equal, and exchanging two
/// strings exchanges the answer.
pub proof fn law_plain_order_is_antisymmetric(a: Seq<u16>, b: Seq<u16>)
    ensures
        units_below(a, b) ==> !units_below(b, a),
        !units_below(a, b) && !units_below(b, a) <==> a == b,
{
    crate::sort::law_unit_order(a, b, a);
}

} // verus!
