//! Installing built-ins: which functions an object gets, under which names and in which order.
use vstd::prelude::*;
use crate::builtin::Builtin;
use crate::interp::{Family, Interp, Key, Op, Property, Value, WellKnown, World};
use crate::num;
use crate::realm::{set_data, stored};

verus! {

/// A function to install: its name, its length, what it does, and whether it is the same function
/// object as another one, and which.
pub type Entry = (&'static str, u64, Builtin, bool, &'static str);

pub const OBJECT_METHODS: [Entry; 10] = [
    ("hasOwnProperty", 1, Builtin::ObjectHasOwnProperty, false, ""),
    ("__defineGetter__", 2, Builtin::ObjectDefineGetter, false, ""),
    ("__defineSetter__", 2, Builtin::ObjectDefineSetter, false, ""),
    ("__lookupGetter__", 1, Builtin::ObjectLookupGetter, false, ""),
    ("__lookupSetter__", 1, Builtin::ObjectLookupSetter, false, ""),
    ("isPrototypeOf", 1, Builtin::ObjectIsPrototypeOf, false, ""),
    ("propertyIsEnumerable", 1, Builtin::ObjectPropertyIsEnumerable, false, ""),
    ("toString", 0, Builtin::ObjectToText, false, ""),
    ("valueOf", 0, Builtin::ObjectValueOf, false, ""),
    ("toLocaleString", 0, Builtin::ObjectToLocaleText, false, ""),
];

pub const OBJECT_STATICS: [Entry; 23] = [
    ("hasOwn", 2, Builtin::ObjectHasOwn, false, ""),
    ("groupBy", 2, Builtin::ObjectGroupBy, false, ""),
    ("keys", 1, Builtin::ObjectKeys, false, ""),
    ("getOwnPropertyNames", 1, Builtin::ObjectOwnNames, false, ""),
    ("getOwnPropertySymbols", 1, Builtin::ObjectOwnSymbols, false, ""),
    ("getPrototypeOf", 1, Builtin::ObjectGetPrototypeOf, false, ""),
    ("setPrototypeOf", 2, Builtin::ObjectSetPrototypeOf, false, ""),
    ("create", 2, Builtin::ObjectCreate, false, ""),
    ("defineProperty", 3, Builtin::ObjectDefineProperty, false, ""),
    ("getOwnPropertyDescriptor", 2, Builtin::ObjectOwnDescriptor, false, ""),
    ("getOwnPropertyDescriptors", 1, Builtin::ObjectOwnDescriptors, false, ""),
    ("freeze", 1, Builtin::ObjectFreeze, false, ""),
    ("preventExtensions", 1, Builtin::ObjectPreventExtensions, false, ""),
    ("isExtensible", 1, Builtin::ObjectIsExtensible, false, ""),
    ("assign", 2, Builtin::ObjectAssign, false, ""),
    ("is", 2, Builtin::ObjectSameValue, false, ""),
    ("values", 1, Builtin::ObjectValues, false, ""),
    ("entries", 1, Builtin::ObjectEntries, false, ""),
    ("fromEntries", 1, Builtin::ObjectFromEntries, false, ""),
    ("defineProperties", 2, Builtin::ObjectDefineProperties, false, ""),
    ("seal", 1, Builtin::ObjectSeal, false, ""),
    ("isSealed", 1, Builtin::ObjectIsSealed, false, ""),
    ("isFrozen", 1, Builtin::ObjectIsFrozen, false, ""),
];

pub const ARRAY_METHODS: [Entry; 38] = [
    ("push", 1, Builtin::ArrayPush, false, ""),
    ("pop", 0, Builtin::ArrayPop, false, ""),
    ("shift", 0, Builtin::ArrayShift, false, ""),
    ("unshift", 1, Builtin::ArrayUnshift, false, ""),
    ("slice", 2, Builtin::ArraySlice, false, ""),
    ("indexOf", 1, Builtin::ArrayIndexOf, false, ""),
    ("includes", 1, Builtin::ArrayIncludes, false, ""),
    ("join", 1, Builtin::ArrayJoin, false, ""),
    ("concat", 1, Builtin::ArrayConcat, false, ""),
    ("forEach", 1, Builtin::ArrayForEach, false, ""),
    ("map", 1, Builtin::ArrayMapEach, false, ""),
    ("filter", 1, Builtin::ArrayFilter, false, ""),
    ("reduce", 1, Builtin::ArrayReduce, false, ""),
    ("reverse", 0, Builtin::ArrayReverse, false, ""),
    ("toString", 0, Builtin::ArrayToText, false, ""),
    ("toLocaleString", 0, Builtin::ArrayToLocaleText, false, ""),
    ("at", 1, Builtin::ArrayAt, false, ""),
    ("find", 1, Builtin::ArrayFind, false, ""),
    ("findIndex", 1, Builtin::ArrayFindIndex, false, ""),
    ("findLast", 1, Builtin::ArrayFindLast, false, ""),
    ("findLastIndex", 1, Builtin::ArrayFindLastIndex, false, ""),
    ("some", 1, Builtin::ArrayAnyOf, false, ""),
    ("every", 1, Builtin::ArrayAllOf, false, ""),
    ("fill", 1, Builtin::ArrayFill, false, ""),
    ("lastIndexOf", 1, Builtin::ArrayLastIndexOf, false, ""),
    ("flat", 0, Builtin::ArrayFlat, false, ""),
    ("flatMap", 1, Builtin::ArrayFlatMap, false, ""),
    ("splice", 2, Builtin::ArraySplice, false, ""),
    ("sort", 1, Builtin::ArraySort, false, ""),
    ("toReversed", 0, Builtin::ArrayToReversed, false, ""),
    ("toSorted", 1, Builtin::ArrayToSorted, false, ""),
    ("with", 2, Builtin::ArrayWith, false, ""),
    ("toSpliced", 2, Builtin::ArrayToSpliced, false, ""),
    ("reduceRight", 1, Builtin::ArrayReduceRight, false, ""),
    ("copyWithin", 2, Builtin::ArrayCopyWithin, false, ""),
    ("values", 0, Builtin::ArrayValues, false, ""),
    ("keys", 0, Builtin::ArrayKeys, false, ""),
    ("entries", 0, Builtin::ArrayEntries, false, ""),
];

pub const ARRAY_STATICS: [Entry; 4] = [
    ("isArray", 1, Builtin::ArrayIsArray, false, ""),
    ("of", 0, Builtin::ArrayOfElements, false, ""),
    ("from", 1, Builtin::ArrayFromItems, false, ""),
    ("fromAsync", 1, Builtin::ArrayFromAsync, false, ""),
];

pub const ITERATOR_METHODS: [Entry; 15] = [
    ("map", 1, Builtin::IteratorMapEach, false, ""),
    ("filter", 1, Builtin::IteratorFilter, false, ""),
    ("take", 1, Builtin::IteratorTake, false, ""),
    ("drop", 1, Builtin::IteratorDrop, false, ""),
    ("chunks", 1, Builtin::IteratorChunks, false, ""),
    ("windows", 1, Builtin::IteratorWindows, false, ""),
    ("includes", 1, Builtin::IteratorIncludes, false, ""),
    ("join", 1, Builtin::IteratorJoin, false, ""),
    ("flatMap", 1, Builtin::IteratorFlatMap, false, ""),
    ("toArray", 0, Builtin::IteratorToArray, false, ""),
    ("forEach", 1, Builtin::IteratorForEach, false, ""),
    ("reduce", 1, Builtin::IteratorReduce, false, ""),
    ("some", 1, Builtin::IteratorAnyOf, false, ""),
    ("every", 1, Builtin::IteratorAllOf, false, ""),
    ("find", 1, Builtin::IteratorFind, false, ""),
];

pub const ITERATOR_STATICS: [Entry; 4] = [
    ("from", 1, Builtin::IteratorFromValue, false, ""),
    ("zip", 1, Builtin::IteratorZip, false, ""),
    ("zipKeyed", 1, Builtin::IteratorZipKeyed, false, ""),
    ("concat", 0, Builtin::IteratorConcat, false, ""),
];

pub const STRING_METHODS: [Entry; 51] = [
    ("toString", 0, Builtin::StringThisValue, false, ""),
    ("valueOf", 0, Builtin::StringThisValue, false, ""),
    ("charAt", 1, Builtin::StringCharAt, false, ""),
    ("charCodeAt", 1, Builtin::StringCharCodeAt, false, ""),
    ("indexOf", 1, Builtin::StringIndexOf, false, ""),
    ("lastIndexOf", 1, Builtin::StringLastIndexOf, false, ""),
    ("toLocaleLowerCase", 0, Builtin::StringToLocaleLowerCase, false, ""),
    ("toLocaleUpperCase", 0, Builtin::StringToLocaleUpperCase, false, ""),
    ("normalize", 0, Builtin::StringNormalize, false, ""),
    ("includes", 1, Builtin::StringIncludes, false, ""),
    ("startsWith", 1, Builtin::StringStartsWith, false, ""),
    ("endsWith", 1, Builtin::StringEndsWith, false, ""),
    ("slice", 2, Builtin::StringSlice, false, ""),
    ("substring", 2, Builtin::StringSubstring, false, ""),
    ("substr", 2, Builtin::StringSubstr, false, ""),
    ("anchor", 1, Builtin::StringAnchor, false, ""),
    ("link", 1, Builtin::StringLink, false, ""),
    ("fontcolor", 1, Builtin::StringFontColor, false, ""),
    ("fontsize", 1, Builtin::StringFontSize, false, ""),
    ("big", 0, Builtin::StringBig, false, ""),
    ("blink", 0, Builtin::StringBlink, false, ""),
    ("bold", 0, Builtin::StringBold, false, ""),
    ("fixed", 0, Builtin::StringFixed, false, ""),
    ("italics", 0, Builtin::StringItalics, false, ""),
    ("small", 0, Builtin::StringSmall, false, ""),
    ("strike", 0, Builtin::StringStrike, false, ""),
    ("sub", 0, Builtin::StringSub, false, ""),
    ("sup", 0, Builtin::StringSup, false, ""),
    ("toUpperCase", 0, Builtin::StringToUpperCase, false, ""),
    ("toLowerCase", 0, Builtin::StringToLowerCase, false, ""),
    ("isWellFormed", 0, Builtin::StringIsWellFormed, false, ""),
    ("toWellFormed", 0, Builtin::StringToWellFormed, false, ""),
    ("trim", 0, Builtin::StringTrim, false, ""),
    ("localeCompare", 1, Builtin::StringLocaleOrder, false, ""),
    ("toLocaleString", 0, Builtin::StringToLocaleText, false, ""),
    ("concat", 1, Builtin::StringConcat, false, ""),
    ("repeat", 1, Builtin::StringRepeat, false, ""),
    ("split", 2, Builtin::StringSplit, false, ""),
    ("at", 1, Builtin::StringAt, false, ""),
    ("codePointAt", 1, Builtin::StringCodePointAt, false, ""),
    ("trimStart", 0, Builtin::StringTrimStart, false, ""),
    ("trimEnd", 0, Builtin::StringTrimEnd, false, ""),
    ("trimLeft", 0, Builtin::StringTrimStart, true, "trimStart"),
    ("trimRight", 0, Builtin::StringTrimEnd, true, "trimEnd"),
    ("padStart", 1, Builtin::StringPadStart, false, ""),
    ("padEnd", 1, Builtin::StringPadEnd, false, ""),
    ("match", 1, Builtin::StringMatch, false, ""),
    ("search", 1, Builtin::StringSearch, false, ""),
    ("matchAll", 1, Builtin::StringMatchAll, false, ""),
    ("replace", 2, Builtin::StringReplace, false, ""),
    ("replaceAll", 2, Builtin::StringReplaceAll, false, ""),
];

pub const STRING_STATICS: [Entry; 3] = [
    ("fromCharCode", 1, Builtin::StringFromCharCode, false, ""),
    ("raw", 1, Builtin::StringRaw, false, ""),
    ("fromCodePoint", 1, Builtin::StringFromCodePoint, false, ""),
];

pub const MAP_METHODS: [Entry; 9] = [
    ("set", 2, Builtin::MapStore, false, ""),
    ("get", 1, Builtin::MapGet, false, ""),
    ("has", 1, Builtin::MapHas, false, ""),
    ("delete", 1, Builtin::MapDelete, false, ""),
    ("clear", 0, Builtin::MapClear, false, ""),
    ("forEach", 1, Builtin::MapForEach, false, ""),
    ("values", 0, Builtin::MapValues, false, ""),
    ("entries", 0, Builtin::MapEntries, false, ""),
    ("keys", 0, Builtin::MapKeys, false, ""),
];

pub const SET_METHODS: [Entry; 8] = [
    ("add", 1, Builtin::SetAdd, false, ""),
    ("has", 1, Builtin::SetHas, false, ""),
    ("delete", 1, Builtin::SetDelete, false, ""),
    ("clear", 0, Builtin::SetClear, false, ""),
    ("forEach", 1, Builtin::SetForEach, false, ""),
    ("values", 0, Builtin::SetValues, false, ""),
    ("entries", 0, Builtin::SetEntries, false, ""),
    ("keys", 0, Builtin::SetValues, true, "values"),
];

pub const MAP_STATICS: [Entry; 1] = [
    ("groupBy", 2, Builtin::MapGroupBy, false, ""),
];

pub const MAP_UPSERTS: [Entry; 2] = [
    ("getOrInsert", 2, Builtin::MapGetOrInsert, false, ""),
    ("getOrInsertComputed", 2, Builtin::MapGetOrInsertComputed, false, ""),
];

pub const SET_ALGEBRA: [Entry; 7] = [
    ("union", 1, Builtin::Union, false, ""),
    ("intersection", 1, Builtin::Intersection, false, ""),
    ("difference", 1, Builtin::Difference, false, ""),
    ("symmetricDifference", 1, Builtin::SymmetricDifference, false, ""),
    ("isSubsetOf", 1, Builtin::IsSubsetOf, false, ""),
    ("isSupersetOf", 1, Builtin::IsSupersetOf, false, ""),
    ("isDisjointFrom", 1, Builtin::IsDisjointFrom, false, ""),
];

pub const WEAK_MAP_METHODS: [Entry; 6] = [
    ("set", 2, Builtin::WeakMapStore, false, ""),
    ("get", 1, Builtin::WeakMapGet, false, ""),
    ("getOrInsert", 2, Builtin::WeakMapGetOrInsert, false, ""),
    ("getOrInsertComputed", 2, Builtin::WeakMapGetOrInsertComputed, false, ""),
    ("has", 1, Builtin::WeakMapHas, false, ""),
    ("delete", 1, Builtin::WeakMapDelete, false, ""),
];

pub const WEAK_SET_METHODS: [Entry; 3] = [
    ("add", 1, Builtin::WeakSetAdd, false, ""),
    ("has", 1, Builtin::WeakSetHas, false, ""),
    ("delete", 1, Builtin::WeakSetDelete, false, ""),
];

pub const WEAK_REF_METHODS: [Entry; 1] = [
    ("deref", 0, Builtin::Deref, false, ""),
];

pub const REGISTRY_METHODS: [Entry; 2] = [
    ("register", 2, Builtin::Register, false, ""),
    ("unregister", 1, Builtin::Unregister, false, ""),
];

pub const ARRAY_ITERATOR_METHODS: [Entry; 1] = [
    ("next", 0, Builtin::ArrayNext, false, ""),
];

pub const STRING_ITERATOR_METHODS: [Entry; 1] = [
    ("next", 0, Builtin::StringNext, false, ""),
];

pub const MATCH_ITERATOR_METHODS: [Entry; 1] = [
    ("next", 0, Builtin::StringMatchesNext, false, ""),
];

pub const COLLECTION_ITERATOR_METHODS: [Entry; 1] = [
    ("next", 0, Builtin::EntriesNext, false, ""),
];

pub const GENERATOR_METHODS: [Entry; 3] = [
    ("next", 1, Builtin::GeneratorNext, false, ""),
    ("return", 1, Builtin::GeneratorReturn, false, ""),
    ("throw", 1, Builtin::GeneratorThrow, false, ""),
];

pub const CONSOLE_METHODS: [Entry; 5] = [
    ("log", 0, Builtin::ConsoleLog, false, ""),
    ("info", 0, Builtin::ConsoleLog, false, ""),
    ("warn", 0, Builtin::ConsoleLog, false, ""),
    ("error", 0, Builtin::ConsoleLog, false, ""),
    ("debug", 0, Builtin::ConsoleLog, false, ""),
];

pub const EARLY_GLOBALS: [Entry; 3] = [
    ("print", 1, Builtin::Print, false, ""),
    ("parseInt", 2, Builtin::ParseInt, false, ""),
    ("parseFloat", 1, Builtin::ParseFloat, false, ""),
];

pub const LATE_GLOBALS: [Entry; 9] = [
    ("isNaN", 1, Builtin::IsNaN, false, ""),
    ("isFinite", 1, Builtin::IsFinite, false, ""),
    ("escape", 1, Builtin::Escape, false, ""),
    ("unescape", 1, Builtin::Unescape, false, ""),
    ("encodeURIComponent", 1, Builtin::EncodeUriComponent, false, ""),
    ("encodeURI", 1, Builtin::EncodeUri, false, ""),
    ("decodeURIComponent", 1, Builtin::DecodeUriComponent, false, ""),
    ("decodeURI", 1, Builtin::DecodeUri, false, ""),
    ("eval", 1, Builtin::Eval, false, ""),
];

pub const WRAP_METHODS: [Entry; 2] = [
    ("next", 0, Builtin::IteratorWrapNext, false, ""),
    ("return", 0, Builtin::IteratorWrapReturn, false, ""),
];

pub const HELPER_METHODS: [Entry; 2] = [
    ("next", 0, Builtin::IteratorHelperNext, false, ""),
    ("return", 0, Builtin::IteratorHelperReturn, false, ""),
];

pub const ZIP_METHODS: [Entry; 2] = [
    ("next", 0, Builtin::IteratorZipNext, false, ""),
    ("return", 0, Builtin::IteratorZipReturn, false, ""),
];

pub const CONCAT_METHODS: [Entry; 2] = [
    ("next", 0, Builtin::IteratorConcatNext, false, ""),
    ("return", 0, Builtin::IteratorConcatReturn, false, ""),
];

pub const ASYNC_GENERATOR_METHODS: [Entry; 3] = [
    ("next", 1, Builtin::GeneratorAsyncNext, false, ""),
    ("return", 1, Builtin::GeneratorAsyncReturn, false, ""),
    ("throw", 1, Builtin::GeneratorAsyncThrow, false, ""),
];

/// The methods that `with` does not shadow.
pub const UNSCOPABLES: [&'static str; 16] = [
    "at",
    "copyWithin",
    "entries",
    "fill",
    "find",
    "findIndex",
    "findLast",
    "findLastIndex",
    "flat",
    "flatMap",
    "includes",
    "keys",
    "toReversed",
    "toSorted",
    "toSpliced",
    "values",
];

// Steps

/// Stores a property.
pub open spec fn kept(w: World, o: Value, k: Key, p: Property) -> World {
    w.plain(Op::StoreProperty(o, k, p), Seq::empty()).0
}

fn keep(i: &mut Interp, o: Value, k: Key, p: Property)
    ensures
        final(i)@ == kept(old(i)@, o, k, p),
{
    let _ = i.perform(Op::StoreProperty(o, k, p));
}

/// A built-in property: writable, not enumerable, configurable.
pub open spec fn builtin(v: Value) -> Property {
    Property::data(v, true, false, true)
}

fn make_builtin(v: Value) -> (r: Property)
    ensures
        r == builtin(v),
{
    Property::new_data(v, true, false, true)
}

/// Stores under `k` the function that stands under a name.
pub open spec fn aliased(w: World, o: Value, k: Key, existing: &'static str) -> World {
    let (w, p) = w.property(Op::OwnProperty(o, Key::Name(existing)));
    match p {
        Ok(Some(p)) => kept(w, o, k, builtin(p.value)),
        _ => w,
    }
}

fn alias(i: &mut Interp, o: Value, k: Key, existing: &'static str)
    ensures
        final(i)@ == aliased(old(i)@, o, k, existing),
{
    match i.ask_property(Op::OwnProperty(o, Key::Name(existing))) {
        Ok(Some(p)) => {
            keep(i, o, k, make_builtin(p.value));
        },
        _ => {},
    }
}

/// Installs the entries of a table from `k` on.
pub open spec fn table_installed(w: World, o: Value, t: Seq<Entry>, k: int) -> World
    decreases t.len() - k,
{
    if k < 0 || k >= t.len() {
        w
    } else if t[k].3 {
        table_installed(aliased(w, o, Key::Name(t[k].0), t[k].4), o, t, k + 1)
    } else {
        let (w, _) = w.plain(Op::DefineMethod(o, t[k].0, t[k].1, t[k].2), Seq::empty());
        table_installed(w, o, t, k + 1)
    }
}

/// Installs a table of functions on an object, in order.
pub fn install_table(i: &mut Interp, o: Value, t: &[Entry])
    ensures
        final(i)@ == table_installed(old(i)@, o, t@, 0),
{
    let mut k: usize = 0;
    while k < t.len()
        invariant
            k <= t@.len(),
            table_installed(old(i)@, o, t@, 0) == table_installed(i@, o, t@, k as int),
        decreases t@.len() - k,
    {
        let e = t[k];
        if e.3 {
            alias(i, o, Key::Name(e.0), e.4);
        } else {
            let _ = i.perform(Op::DefineMethod(o, e.0, e.1, e.2));
        }
        k += 1;
    }
}

/// Installs a function without parameters under a symbol.
pub open spec fn symbol_method(w: World, o: Value, sym: WellKnown, name: &'static str, b: Builtin) -> World {
    let (w, f) = w.plain(Op::NewNative(name, 0, b), Seq::empty());
    kept(w, o, Key::Symbol(sym), builtin(f))
}

pub fn install_symbol_method(i: &mut Interp, o: Value, sym: WellKnown, name: &'static str, b: Builtin)
    ensures
        final(i)@ == symbol_method(old(i)@, o, sym, name, b),
{
    let f = i.perform(Op::NewNative(name, 0, b));
    keep(i, o, Key::Symbol(sym), make_builtin(f));
}

/// Installs a getter, or a getter and a setter: not enumerable, configurable.
pub open spec fn accessor_installed(
    w: World,
    o: Value,
    k: Key,
    getter: (&'static str, Builtin),
    setter: Option<(&'static str, Builtin)>,
) -> World {
    let (w, g) = w.plain(Op::NewNative(getter.0, 0, getter.1), Seq::empty());
    let (w, s) = match setter {
        Some(s) => w.plain(Op::NewNative(s.0, 1, s.1), Seq::empty()),
        None => (w, Value::Undefined),
    };
    kept(w, o, k, accessor(g, s))
}

pub open spec fn accessor(get: Value, set: Value) -> Property {
    Property {
        value: Value::Undefined,
        get,
        set,
        accessor: true,
        writable: false,
        enumerable: false,
        configurable: true,
    }
}

fn install_accessor(
    i: &mut Interp,
    o: Value,
    k: Key,
    getter: (&'static str, Builtin),
    setter: Option<(&'static str, Builtin)>,
)
    ensures
        final(i)@ == accessor_installed(old(i)@, o, k, getter, setter),
{
    let g = i.perform(Op::NewNative(getter.0, 0, getter.1));
    let s = match setter {
        Some(s) => i.perform(Op::NewNative(s.0, 1, s.1)),
        None => Value::Undefined,
    };
    keep(
        i,
        o,
        k,
        Property {
            value: Value::Undefined,
            get: g,
            set: s,
            accessor: true,
            writable: false,
            enumerable: false,
            configurable: true,
        },
    );
}

pub open spec fn done(w: World, op: Op) -> World {
    w.plain(op, Seq::empty()).0
}

fn act(i: &mut Interp, op: Op)
    ensures
        final(i)@ == done(old(i)@, op),
{
    let _ = i.perform(op);
}

/// A constructor tied to its prototype, with its own functions.
pub open spec fn constructor_installed(
    w: World,
    proto: Value,
    name: &'static str,
    len: u64,
    b: Builtin,
    statics: Seq<Entry>,
) -> (World, Value) {
    let (w, ctor) = w.plain(Op::NewNative(name, len, b), Seq::empty());
    let w = kept(w, ctor, Key::Name("prototype"), Property::data(proto, false, false, false));
    let w = kept(w, proto, Key::Name("constructor"), builtin(ctor));
    (table_installed(w, ctor, statics, 0), ctor)
}

fn install_constructor(
    i: &mut Interp,
    proto: Value,
    name: &'static str,
    len: u64,
    b: Builtin,
    statics: &[Entry],
) -> (r: Value)
    ensures
        (final(i)@, r) == constructor_installed(old(i)@, proto, name, len, b, statics@),
{
    let ctor = i.perform(Op::NewNative(name, len, b));
    keep(i, ctor, Key::Name("prototype"), Property::new_data(proto, false, false, false));
    keep(i, proto, Key::Name("constructor"), make_builtin(ctor));
    install_table(i, ctor, statics);
    ctor
}

/// The `get [Symbol.species]` accessor, which returns its receiver.
pub open spec fn species_installed(w: World, ctor: Value) -> World {
    accessor_installed(
        w,
        ctor,
        Key::Symbol(WellKnown::Species),
        ("get [Symbol.species]", Builtin::ReturnThis),
        None,
    )
}

pub fn install_species(i: &mut Interp, ctor: Value)
    ensures
        final(i)@ == species_installed(old(i)@, ctor),
{
    install_accessor(
        i,
        ctor,
        Key::Symbol(WellKnown::Species),
        ("get [Symbol.species]", Builtin::ReturnThis),
        None,
    );
}

/// A global binding.
pub open spec fn global_installed(w: World, name: &'static str, v: Value) -> World {
    let (w, g) = w.plain(Op::GlobalObject, Seq::empty());
    kept(w, g, Key::Name(name), builtin(v))
}

fn install_global(i: &mut Interp, name: &'static str, v: Value)
    ensures
        final(i)@ == global_installed(old(i)@, name, v),
{
    let g = i.perform(Op::GlobalObject);
    keep(i, g, Key::Name(name), make_builtin(v));
}

// Families

/// `Object`.
pub open spec fn object_installed(w: World) -> World {
    let (w, p) = w.plain(Op::Intrinsic("Object"), Seq::empty());
    let w = table_installed(w, p, OBJECT_METHODS@, 0);
    let w = accessor_installed(
        w,
        p,
        Key::Name("__proto__"),
        ("get __proto__", Builtin::ObjectReadProto),
        Some(("set __proto__", Builtin::ObjectWriteProto)),
    );
    let (w, ctor) = constructor_installed(w, p, "Object", 1, Builtin::ObjectConstruct, OBJECT_STATICS@);
    let w = done(w, Op::RegisterIntrinsic("%ObjectCtor%", ctor));
    global_installed(w, "Object", ctor)
}

pub fn install_object(it: &mut Interp)
    ensures
        final(it)@ == object_installed(old(it)@),
{
    let p = it.perform(Op::Intrinsic("Object"));
    install_table(it, p, OBJECT_METHODS.as_slice());
    install_accessor(
        it,
        p,
        Key::Name("__proto__"),
        ("get __proto__", Builtin::ObjectReadProto),
        Some(("set __proto__", Builtin::ObjectWriteProto)),
    );
    let ctor = install_constructor(it, p, "Object", 1, Builtin::ObjectConstruct, OBJECT_STATICS.as_slice());
    act(it, Op::RegisterIntrinsic("%ObjectCtor%", ctor));
    install_global(it, "Object", ctor);
}

/// The names of `Array.prototype[@@unscopables]` from `k` on, each true.
pub open spec fn names_marked(w: World, o: Value, names: Seq<&'static str>, k: int) -> World
    decreases names.len() - k,
{
    if k < 0 || k >= names.len() {
        w
    } else {
        names_marked(stored(w, o, Key::Name(names[k]), Value::Bool(true)), o, names, k + 1)
    }
}

fn mark_names(i: &mut Interp, o: Value, names: &[&'static str])
    ensures
        final(i)@ == names_marked(old(i)@, o, names@, 0),
{
    let mut k: usize = 0;
    while k < names.len()
        invariant
            k <= names@.len(),
            names_marked(old(i)@, o, names@, 0) == names_marked(i@, o, names@, k as int),
        decreases names@.len() - k,
    {
        set_data(i, o, Key::Name(names[k]), Value::Bool(true));
        k += 1;
    }
}

/// `Array`.
pub open spec fn array_installed(w: World) -> World {
    let (w, p) = w.plain(Op::Intrinsic("Array"), Seq::empty());
    let w = kept(
        w,
        p,
        Key::Name("length"),
        Property::data(Value::Num(num::number(0)), true, false, false),
    );
    let (w, un) = w.plain(Op::NewWithPrototype(Value::Null), Seq::empty());
    let w = names_marked(w, un, UNSCOPABLES@, 0);
    let w = kept(
        w,
        p,
        Key::Symbol(WellKnown::Unscopables),
        Property::data(un, false, false, true),
    );
    let w = table_installed(w, p, ARRAY_METHODS@, 0);
    let w = aliased(w, p, Key::Symbol(WellKnown::Iterator), "values");
    let (w, ctor) = constructor_installed(w, p, "Array", 1, Builtin::ArrayConstruct, ARRAY_STATICS@);
    let w = species_installed(w, ctor);
    global_installed(w, "Array", ctor)
}

/// `Array`; `arr[Symbol.iterator]` is `Array.prototype.values`.
pub fn install_array(it: &mut Interp)
    ensures
        final(it)@ == array_installed(old(it)@),
{
    let p = it.perform(Op::Intrinsic("Array"));
    keep(
        it,
        p,
        Key::Name("length"),
        Property::new_data(Value::Num(num::of_u64(0)), true, false, false),
    );
    let un = it.perform(Op::NewWithPrototype(Value::Null));
    mark_names(it, un, UNSCOPABLES.as_slice());
    keep(
        it,
        p,
        Key::Symbol(WellKnown::Unscopables),
        Property::new_data(un, false, false, true),
    );
    install_table(it, p, ARRAY_METHODS.as_slice());
    alias(it, p, Key::Symbol(WellKnown::Iterator), "values");
    let ctor = install_constructor(it, p, "Array", 1, Builtin::ArrayConstruct, ARRAY_STATICS.as_slice());
    install_species(it, ctor);
    install_global(it, "Array", ctor);
}

/// `String`.
pub open spec fn string_installed(w: World) -> World {
    let (w, p) = w.plain(Op::Intrinsic("String"), Seq::empty());
    let w = symbol_method(w, p, WellKnown::Iterator, "[Symbol.iterator]", Builtin::StringIterate);
    let w = table_installed(w, p, STRING_METHODS@, 0);
    let (w, ctor) = constructor_installed(w, p, "String", 1, Builtin::StringConstruct, STRING_STATICS@);
    global_installed(w, "String", ctor)
}

/// `String`; trimLeft/trimRight ARE trimStart/trimEnd (same function objects).
pub fn install_string(it: &mut Interp)
    ensures
        final(it)@ == string_installed(old(it)@),
{
    let p = it.perform(Op::Intrinsic("String"));
    install_symbol_method(it, p, WellKnown::Iterator, "[Symbol.iterator]", Builtin::StringIterate);
    install_table(it, p, STRING_METHODS.as_slice());
    let ctor = install_constructor(it, p, "String", 1, Builtin::StringConstruct, STRING_STATICS.as_slice());
    install_global(it, "String", ctor);
}

/// A fresh prototype with a tag and functions, registered under a name.
pub open spec fn prototype_installed(
    w: World,
    parent: Value,
    register: &'static str,
    tag: Option<&'static str>,
    t: Seq<Entry>,
) -> (World, Value) {
    let (w, p) = w.plain(Op::NewWithPrototype(parent), Seq::empty());
    let w = match tag {
        Some(tag) => done(w, Op::DefineTag(p, tag)),
        None => w,
    };
    let w = table_installed(w, p, t, 0);
    (done(w, Op::RegisterIntrinsic(register, p)), p)
}

fn install_prototype(
    i: &mut Interp,
    parent: Value,
    register: &'static str,
    tag: Option<&'static str>,
    t: &[Entry],
) -> (r: Value)
    ensures
        (final(i)@, r) == prototype_installed(old(i)@, parent, register, tag, t@),
{
    let p = i.perform(Op::NewWithPrototype(parent));
    match tag {
        Some(tag) => {
            act(i, Op::DefineTag(p, tag));
        },
        None => {},
    }
    install_table(i, p, t);
    act(i, Op::RegisterIntrinsic(register, p));
    p
}

/// Ties a generator prototype to the prototype of its generator functions, both ways.
pub open spec fn generator_linked(w: World, functions: &'static str, p: Value) -> World {
    let (w, f) = w.plain(Op::Intrinsic(functions), Seq::empty());
    if !f.object() {
        w
    } else {
        let w = kept(w, f, Key::Name("prototype"), Property::data(p, false, false, true));
        kept(w, p, Key::Name("constructor"), Property::data(f, false, false, true))
    }
}

/// Wire the `.prototype` / `.constructor` pair between a `%(Async)GeneratorFunction.prototype%`
/// intrinsic and its instance prototype.
pub fn link_generator_proto(it: &mut Interp, functions: &'static str, p: Value)
    ensures
        final(it)@ == generator_linked(old(it)@, functions, p),
{
    let f = it.perform(Op::Intrinsic(functions));
    if f.is_object() {
        keep(it, f, Key::Name("prototype"), Property::new_data(p, false, false, true));
        keep(it, p, Key::Name("constructor"), Property::new_data(f, false, false, true));
    }
}

/// The prototypes of the built-in iterators.
pub open spec fn iterator_kinds_installed(w: World, p: Value) -> World {
    let (w, _) = prototype_installed(
        w,
        p,
        "%ArrayIteratorPrototype%",
        Some("Array Iterator"),
        ARRAY_ITERATOR_METHODS@,
    );
    let (w, _) = prototype_installed(
        w,
        p,
        "%StringIteratorPrototype%",
        Some("String Iterator"),
        STRING_ITERATOR_METHODS@,
    );
    let (w, _) = prototype_installed(
        w,
        p,
        "%RegExpStringIteratorPrototype%",
        Some("RegExp String Iterator"),
        MATCH_ITERATOR_METHODS@,
    );
    w
}

fn install_iterator_kinds(it: &mut Interp, p: Value)
    ensures
        final(it)@ == iterator_kinds_installed(old(it)@, p),
{
    let _ = install_prototype(
        it,
        p,
        "%ArrayIteratorPrototype%",
        Some("Array Iterator"),
        ARRAY_ITERATOR_METHODS.as_slice(),
    );
    let _ = install_prototype(
        it,
        p,
        "%StringIteratorPrototype%",
        Some("String Iterator"),
        STRING_ITERATOR_METHODS.as_slice(),
    );
    let _ = install_prototype(
        it,
        p,
        "%RegExpStringIteratorPrototype%",
        Some("RegExp String Iterator"),
        MATCH_ITERATOR_METHODS.as_slice(),
    );
}

/// The prototypes of generators and async generators.
pub open spec fn generators_installed(w: World, p: Value) -> World {
    let (w, object_proto) = w.plain(Op::Intrinsic("Object"), Seq::empty());
    let (w, a) = w.plain(Op::NewWithPrototype(object_proto), Seq::empty());
    let w = symbol_method(w, a, WellKnown::AsyncIterator, "[Symbol.asyncIterator]", Builtin::ReturnThis);
    let w = symbol_method(w, a, WellKnown::AsyncDispose, "[Symbol.asyncDispose]", Builtin::IteratorAsyncDispose);
    let w = done(w, Op::RegisterIntrinsic("%AsyncIteratorPrototype%", a));
    let (w, g) = prototype_installed(
        w,
        p,
        "%GeneratorPrototype%",
        Some("Generator"),
        GENERATOR_METHODS@,
    );
    let w = generator_linked(w, "%GeneratorFunction.prototype%", g);
    let (w, ag) = prototype_installed(
        w,
        a,
        "%AsyncGeneratorPrototype%",
        Some("AsyncGenerator"),
        ASYNC_GENERATOR_METHODS@,
    );
    generator_linked(w, "%AsyncGeneratorFunction.prototype%", ag)
}

fn install_generators(it: &mut Interp, p: Value)
    ensures
        final(it)@ == generators_installed(old(it)@, p),
{
    let object_proto = it.perform(Op::Intrinsic("Object"));
    let a = it.perform(Op::NewWithPrototype(object_proto));
    install_symbol_method(it, a, WellKnown::AsyncIterator, "[Symbol.asyncIterator]", Builtin::ReturnThis);
    install_symbol_method(it, a, WellKnown::AsyncDispose, "[Symbol.asyncDispose]", Builtin::IteratorAsyncDispose);
    act(it, Op::RegisterIntrinsic("%AsyncIteratorPrototype%", a));
    let g = install_prototype(
        it,
        p,
        "%GeneratorPrototype%",
        Some("Generator"),
        GENERATOR_METHODS.as_slice(),
    );
    link_generator_proto(it, "%GeneratorFunction.prototype%", g);
    let ag = install_prototype(
        it,
        a,
        "%AsyncGeneratorPrototype%",
        Some("AsyncGenerator"),
        ASYNC_GENERATOR_METHODS.as_slice(),
    );
    link_generator_proto(it, "%AsyncGeneratorFunction.prototype%", ag);
}

/// `Iterator`.
pub open spec fn iterator_installed(w: World) -> World {
    let (w, object_proto) = w.plain(Op::Intrinsic("Object"), Seq::empty());
    let (w, p) = w.plain(Op::NewWithPrototype(object_proto), Seq::empty());
    let w = done(w, Op::RegisterIntrinsic("%IteratorPrototype%", p));
    let w = symbol_method(w, p, WellKnown::Iterator, "[Symbol.iterator]", Builtin::ReturnThis);
    let w = table_installed(w, p, ITERATOR_METHODS@, 0);
    let w = symbol_method(w, p, WellKnown::Dispose, "[Symbol.dispose]", Builtin::IteratorDispose);
    let (w, _) = prototype_installed(
        w,
        p,
        "%WrapForValidIteratorPrototype%",
        None,
        WRAP_METHODS@,
    );
    let (w, _) = prototype_installed(
        w,
        p,
        "%IteratorHelperPrototype%",
        Some("Iterator Helper"),
        HELPER_METHODS@,
    );
    let (w, ctor) = w.plain(Op::NewNative("Iterator", 0, Builtin::IteratorConstruct), Seq::empty());
    let w = done(w, Op::RegisterIntrinsic("%IteratorCtorMarker%", ctor));
    let w = table_installed(w, ctor, ITERATOR_STATICS@, 0);
    let w = kept(w, ctor, Key::Name("prototype"), Property::data(p, false, false, false));
    let w = accessor_installed(
        w,
        p,
        Key::Name("constructor"),
        ("get constructor", Builtin::IteratorReadConstructor),
        Some(("set constructor", Builtin::IteratorWriteConstructor)),
    );
    let w = accessor_installed(
        w,
        p,
        Key::Symbol(WellKnown::ToStringTag),
        ("get [Symbol.toStringTag]", Builtin::IteratorReadTag),
        Some(("set [Symbol.toStringTag]", Builtin::IteratorWriteTag)),
    );
    let w = global_installed(w, "Iterator", ctor);
    generators_installed(iterator_kinds_installed(w, p), p)
}

/// `Iterator`. The `constructor` and @@toStringTag of its prototype are accessor pairs.
pub fn install_iterator(it: &mut Interp)
    ensures
        final(it)@ == iterator_installed(old(it)@),
{
    let object_proto = it.perform(Op::Intrinsic("Object"));
    let p = it.perform(Op::NewWithPrototype(object_proto));
    act(it, Op::RegisterIntrinsic("%IteratorPrototype%", p));
    install_symbol_method(it, p, WellKnown::Iterator, "[Symbol.iterator]", Builtin::ReturnThis);
    install_table(it, p, ITERATOR_METHODS.as_slice());
    install_symbol_method(it, p, WellKnown::Dispose, "[Symbol.dispose]", Builtin::IteratorDispose);
    let _ = install_prototype(
        it,
        p,
        "%WrapForValidIteratorPrototype%",
        None,
        WRAP_METHODS.as_slice(),
    );
    let _ = install_prototype(
        it,
        p,
        "%IteratorHelperPrototype%",
        Some("Iterator Helper"),
        HELPER_METHODS.as_slice(),
    );
    let ctor = it.perform(Op::NewNative("Iterator", 0, Builtin::IteratorConstruct));
    act(it, Op::RegisterIntrinsic("%IteratorCtorMarker%", ctor));
    install_table(it, ctor, ITERATOR_STATICS.as_slice());
    keep(it, ctor, Key::Name("prototype"), Property::new_data(p, false, false, false));
    install_accessor(
        it,
        p,
        Key::Name("constructor"),
        ("get constructor", Builtin::IteratorReadConstructor),
        Some(("set constructor", Builtin::IteratorWriteConstructor)),
    );
    install_accessor(
        it,
        p,
        Key::Symbol(WellKnown::ToStringTag),
        ("get [Symbol.toStringTag]", Builtin::IteratorReadTag),
        Some(("set [Symbol.toStringTag]", Builtin::IteratorWriteTag)),
    );
    install_global(it, "Iterator", ctor);
    install_iterator_kinds(it, p);
    install_generators(it, p);
}

/// The `size` of a Map or a Set.
pub open spec fn size_of_kind(is_set: bool) -> Builtin {
    if is_set {
        Builtin::SetSize
    } else {
        Builtin::MapSize
    }
}

/// `Map` or `Set`.
pub open spec fn map_like_installed(w: World, is_set: bool) -> World {
    let name = if is_set {
        "Set"
    } else {
        "Map"
    };
    let (w, object_proto) = w.plain(Op::Intrinsic("Object"), Seq::empty());
    let (w, p) = w.plain(Op::NewWithPrototype(object_proto), Seq::empty());
    let w = done(w, Op::RegisterIntrinsic(name, p));
    let w = table_installed(
        w,
        p,
        if is_set {
            SET_METHODS@
        } else {
            MAP_METHODS@
        },
        0,
    );
    let w = accessor_installed(w, p, Key::Name("size"), ("get size", size_of_kind(is_set)), None);
    let w = aliased(
        w,
        p,
        Key::Symbol(WellKnown::Iterator),
        if is_set {
            "values"
        } else {
            "entries"
        },
    );
    let (w, ctor) = constructor_installed(
        w,
        p,
        name,
        0,
        if is_set {
            Builtin::SetConstruct
        } else {
            Builtin::MapConstruct
        },
        if is_set {
            Seq::empty()
        } else {
            MAP_STATICS@
        },
    );
    let w = species_installed(w, ctor);
    let w = done(w, Op::DefineTag(p, name));
    global_installed(w, name, ctor)
}

/// `Map` or `Set`. `Set.prototype.keys` is the *same* function object as `Set.prototype.values`,
/// and @@iterator is `values` on a Set, `entries` on a Map.
pub fn install_map_like(it: &mut Interp, is_set: bool)
    ensures
        final(it)@ == map_like_installed(old(it)@, is_set),
{
    let name: &'static str = if is_set {
        "Set"
    } else {
        "Map"
    };
    let object_proto = it.perform(Op::Intrinsic("Object"));
    let p = it.perform(Op::NewWithPrototype(object_proto));
    act(it, Op::RegisterIntrinsic(name, p));
    if is_set {
        install_table(it, p, SET_METHODS.as_slice());
    } else {
        install_table(it, p, MAP_METHODS.as_slice());
    }
    let size = if is_set {
        Builtin::SetSize
    } else {
        Builtin::MapSize
    };
    install_accessor(it, p, Key::Name("size"), ("get size", size), None);
    if is_set {
        alias(it, p, Key::Symbol(WellKnown::Iterator), "values");
    } else {
        alias(it, p, Key::Symbol(WellKnown::Iterator), "entries");
    }
    let none: Vec<Entry> = Vec::new();
    assert(none@ =~= Seq::<Entry>::empty());
    let ctor = if is_set {
        install_constructor(
            it,
            p,
            name,
            0,
            Builtin::SetConstruct,
            none.as_slice(),
        )
    } else {
        install_constructor(
            it,
            p,
            name,
            0,
            Builtin::MapConstruct,
            MAP_STATICS.as_slice(),
        )
    };
    install_species(it, ctor);
    act(it, Op::DefineTag(p, name));
    install_global(it, name, ctor);
}

/// A class whose instances refer weakly: its prototype, constructor and tag.
pub open spec fn weak_class_installed(
    w: World,
    name: &'static str,
    len: u64,
    b: Builtin,
    t: Seq<Entry>,
) -> World {
    let (w, object_proto) = w.plain(Op::Intrinsic("Object"), Seq::empty());
    let (w, p) = w.plain(Op::NewWithPrototype(object_proto), Seq::empty());
    let w = done(w, Op::RegisterIntrinsic(name, p));
    let w = table_installed(w, p, t, 0);
    let (w, ctor) = constructor_installed(w, p, name, len, b, Seq::empty());
    let w = done(w, Op::DefineTag(p, name));
    global_installed(w, name, ctor)
}

/// `WeakMap`, `WeakSet`, `WeakRef` and `FinalizationRegistry`.
pub fn install_weak(it: &mut Interp, name: &'static str, len: u64, b: Builtin, t: &[Entry])
    ensures
        final(it)@ == weak_class_installed(old(it)@, name, len, b, t@),
{
    let object_proto = it.perform(Op::Intrinsic("Object"));
    let p = it.perform(Op::NewWithPrototype(object_proto));
    act(it, Op::RegisterIntrinsic(name, p));
    install_table(it, p, t);
    let none: Vec<Entry> = Vec::new();
    assert(none@ =~= Seq::<Entry>::empty());
    let ctor = install_constructor(it, p, name, len, b, none.as_slice());
    act(it, Op::DefineTag(p, name));
    install_global(it, name, ctor);
}

/// `WeakRef` and `FinalizationRegistry`.
pub open spec fn weak_refs_installed(w: World) -> World {
    let w = weak_class_installed(w, "WeakRef", 1, Builtin::WeakRefConstruct, WEAK_REF_METHODS@);
    weak_class_installed(w, "FinalizationRegistry", 1, Builtin::RegistryConstruct, REGISTRY_METHODS@)
}

pub fn install_weak_refs(it: &mut Interp)
    ensures
        final(it)@ == weak_refs_installed(old(it)@),
{
    install_weak(it, "WeakRef", 1, Builtin::WeakRefConstruct, WEAK_REF_METHODS.as_slice());
    install_weak(it, "FinalizationRegistry", 1, Builtin::RegistryConstruct, REGISTRY_METHODS.as_slice());
}

/// The collections.
pub open spec fn collections_installed(w: World) -> World {
    let (w, ip) = w.plain(Op::Intrinsic("%IteratorPrototype%"), Seq::empty());
    let (w, _) = prototype_installed(
        w,
        ip,
        "%MapIteratorPrototype%",
        Some("Map Iterator"),
        COLLECTION_ITERATOR_METHODS@,
    );
    let (w, _) = prototype_installed(
        w,
        ip,
        "%SetIteratorPrototype%",
        Some("Set Iterator"),
        COLLECTION_ITERATOR_METHODS@,
    );
    let w = map_like_installed(w, false);
    let w = map_like_installed(w, true);
    let w = weak_class_installed(w, "WeakMap", 0, Builtin::WeakMapConstruct, WEAK_MAP_METHODS@);
    let w = weak_class_installed(w, "WeakSet", 0, Builtin::WeakSetConstruct, WEAK_SET_METHODS@);
    let (w, sp) = w.plain(Op::Intrinsic("Set"), Seq::empty());
    let w = table_installed(w, sp, SET_ALGEBRA@, 0);
    let (w, mp) = w.plain(Op::Intrinsic("Map"), Seq::empty());
    table_installed(w, mp, MAP_UPSERTS@, 0)
}

pub fn install_collections(it: &mut Interp)
    ensures
        final(it)@ == collections_installed(old(it)@),
{
    let ip = it.perform(Op::Intrinsic("%IteratorPrototype%"));
    let _ = install_prototype(
        it,
        ip,
        "%MapIteratorPrototype%",
        Some("Map Iterator"),
        COLLECTION_ITERATOR_METHODS.as_slice(),
    );
    let _ = install_prototype(
        it,
        ip,
        "%SetIteratorPrototype%",
        Some("Set Iterator"),
        COLLECTION_ITERATOR_METHODS.as_slice(),
    );
    install_map_like(it, false);
    install_map_like(it, true);
    install_weak(it, "WeakMap", 0, Builtin::WeakMapConstruct, WEAK_MAP_METHODS.as_slice());
    install_weak(it, "WeakSet", 0, Builtin::WeakSetConstruct, WEAK_SET_METHODS.as_slice());
    let sp = it.perform(Op::Intrinsic("Set"));
    install_table(it, sp, SET_ALGEBRA.as_slice());
    let mp = it.perform(Op::Intrinsic("Map"));
    install_table(it, mp, MAP_UPSERTS.as_slice());
}

/// Stores a global function under the same name on another object.
pub open spec fn shared(w: World, g: Value, o: Value, name: &'static str) -> World {
    let (w, p) = w.property(Op::OwnProperty(g, Key::Name(name)));
    match p {
        Ok(Some(p)) => kept(w, o, Key::Name(name), builtin(p.value)),
        _ => w,
    }
}

fn share(i: &mut Interp, g: Value, o: Value, name: &'static str)
    ensures
        final(i)@ == shared(old(i)@, g, o, name),
{
    match i.ask_property(Op::OwnProperty(g, Key::Name(name))) {
        Ok(Some(p)) => {
            keep(i, o, Key::Name(name), make_builtin(p.value));
        },
        _ => {},
    }
}

/// The global functions. `Number.parseInt` and `Number.parseFloat` are the same functions as the
/// globals.
pub open spec fn globals_installed(w: World) -> World {
    let (w, g) = w.plain(Op::GlobalObject, Seq::empty());
    let w = table_installed(w, g, EARLY_GLOBALS@, 0);
    let (w, n) = w.property(Op::OwnProperty(g, Key::Name("Number")));
    let w = match n {
        Ok(Some(n)) => if n.value.object() {
            shared(shared(w, g, n.value, "parseInt"), g, n.value, "parseFloat")
        } else {
            w
        },
        _ => w,
    };
    table_installed(w, g, LATE_GLOBALS@, 0)
}

pub fn install_globals(it: &mut Interp)
    ensures
        final(it)@ == globals_installed(old(it)@),
{
    let g = it.perform(Op::GlobalObject);
    install_table(it, g, EARLY_GLOBALS.as_slice());
    match it.ask_property(Op::OwnProperty(g, Key::Name("Number"))) {
        Ok(Some(n)) => {
            if n.value.is_object() {
                share(it, g, n.value, "parseInt");
                share(it, g, n.value, "parseFloat");
            }
        },
        _ => {},
    }
    install_table(it, g, LATE_GLOBALS.as_slice());
}

/// `console`.
pub open spec fn console_installed(w: World) -> World {
    let (w, c) = w.plain(Op::NewObject, Seq::empty());
    global_installed(table_installed(w, c, CONSOLE_METHODS@, 0), "console", c)
}

pub fn install_console(it: &mut Interp)
    ensures
        final(it)@ == console_installed(old(it)@),
{
    let c = it.perform(Op::NewObject);
    install_table(it, c, CONSOLE_METHODS.as_slice());
    install_global(it, "console", c);
}

// Everything

/// The global value properties: not writable, not enumerable, not configurable.
pub open spec fn value_properties_installed(w: World) -> World {
    let (w, g) = w.plain(Op::GlobalObject, Seq::empty());
    let w = kept(
        w,
        g,
        Key::Name("undefined"),
        Property::data(Value::Undefined, false, false, false),
    );
    let w = kept(
        w,
        g,
        Key::Name("NaN"),
        Property::data(Value::Num(num::NAN), false, false, false),
    );
    let w = kept(
        w,
        g,
        Key::Name("Infinity"),
        Property::data(Value::Num(num::INFINITY), false, false, false),
    );
    kept(w, g, Key::Name("globalThis"), builtin(g))
}

fn install_value_properties(it: &mut Interp)
    ensures
        final(it)@ == value_properties_installed(old(it)@),
{
    let g = it.perform(Op::GlobalObject);
    keep(
        it,
        g,
        Key::Name("undefined"),
        Property::new_data(Value::Undefined, false, false, false),
    );
    keep(
        it,
        g,
        Key::Name("NaN"),
        Property::new_data(Value::Num(num::NAN), false, false, false),
    );
    keep(
        it,
        g,
        Key::Name("Infinity"),
        Property::new_data(Value::Num(num::INFINITY), false, false, false),
    );
    keep(it, g, Key::Name("globalThis"), make_builtin(g));
}

/// Function.prototype[@@hasInstance]: not writable, not enumerable, not configurable.
pub open spec fn has_instance_installed(w: World) -> World {
    let (w, f) = w.plain(Op::NewNative("[Symbol.hasInstance]", 1, Builtin::HasInstance), Seq::empty());
    let (w, p) = w.plain(Op::Intrinsic("Function"), Seq::empty());
    kept(w, p, Key::Symbol(WellKnown::HasInstance), Property::data(f, false, false, false))
}

fn install_has_instance(it: &mut Interp)
    ensures
        final(it)@ == has_instance_installed(old(it)@),
{
    let f = it.perform(Op::NewNative("[Symbol.hasInstance]", 1, Builtin::HasInstance));
    let p = it.perform(Op::Intrinsic("Function"));
    keep(
        it,
        p,
        Key::Symbol(WellKnown::HasInstance),
        Property::new_data(f, false, false, false),
    );
}

/// One family installed by the engine.
pub open spec fn family(w: World, f: Family) -> World {
    done(w, Op::Install(f))
}

/// Everything up to the strings.
pub open spec fn core_installed(w: World) -> World {
    let w = value_properties_installed(w);
    let w = family(w, Family::FunctionPrototype);
    let w = object_installed(w);
    // Symbols come before arrays and strings, so that `Symbol.iterator` exists for them.
    let w = family(w, Family::Symbols);
    let w = family(w, Family::GeneratorFunctions);
    let w = has_instance_installed(w);
    let w = iterator_installed(w);
    let w = array_installed(w);
    string_installed(w)
}

/// The families between the strings and the globals.
pub open spec fn middle_installed(w: World) -> World {
    let w = family(w, Family::Numbers);
    let w = family(w, Family::Booleans);
    let w = family(w, Family::BigInts);
    let w = family(w, Family::Math);
    let w = family(w, Family::Errors);
    let w = family(w, Family::Reflect);
    let w = family(w, Family::Proxies);
    let w = family(w, Family::Promises);
    let w = family(w, Family::Json);
    let w = collections_installed(w);
    let w = family(w, Family::Dates);
    let w = family(w, Family::TypedArrays);
    let w = family(w, Family::DataViews);
    let w = family(w, Family::SharedArrayBuffers);
    family(w, Family::RegExps)
}

/// The globals and what comes behind them.
pub open spec fn rest_installed(w: World) -> World {
    let w = globals_installed(w);
    let w = console_installed(w);
    let w = family(w, Family::Host);
    let w = family(w, Family::Atomics);
    let w = weak_refs_installed(w);
    let w = family(w, Family::DisposableStacks);
    let w = family(w, Family::ShadowRealms);
    let w = family(w, Family::Temporal);
    let (w, intl) = w.yes(Op::HasIntl);
    if intl {
        family(w, Family::Intl)
    } else {
        w
    }
}

fn install_core(it: &mut Interp)
    ensures
        final(it)@ == core_installed(old(it)@),
{
    install_value_properties(it);
    act(it, Op::Install(Family::FunctionPrototype));
    install_object(it);
    act(it, Op::Install(Family::Symbols));
    act(it, Op::Install(Family::GeneratorFunctions));
    install_has_instance(it);
    install_iterator(it);
    install_array(it);
    install_string(it);
}

fn install_middle(it: &mut Interp)
    ensures
        final(it)@ == middle_installed(old(it)@),
{
    act(it, Op::Install(Family::Numbers));
    act(it, Op::Install(Family::Booleans));
    act(it, Op::Install(Family::BigInts));
    act(it, Op::Install(Family::Math));
    act(it, Op::Install(Family::Errors));
    act(it, Op::Install(Family::Reflect));
    act(it, Op::Install(Family::Proxies));
    act(it, Op::Install(Family::Promises));
    act(it, Op::Install(Family::Json));
    install_collections(it);
    act(it, Op::Install(Family::Dates));
    act(it, Op::Install(Family::TypedArrays));
    act(it, Op::Install(Family::DataViews));
    act(it, Op::Install(Family::SharedArrayBuffers));
    act(it, Op::Install(Family::RegExps));
}

fn install_rest(it: &mut Interp)
    ensures
        final(it)@ == rest_installed(old(it)@),
{
    install_globals(it);
    install_console(it);
    act(it, Op::Install(Family::Host));
    act(it, Op::Install(Family::Atomics));
    install_weak_refs(it);
    act(it, Op::Install(Family::DisposableStacks));
    act(it, Op::Install(Family::ShadowRealms));
    act(it, Op::Install(Family::Temporal));
    if it.ask_yes(Op::HasIntl) {
        act(it, Op::Install(Family::Intl));
    }
}

/// The standard library, installed in the order that its parts need of each other.
pub fn install(it: &mut Interp)
    ensures
        final(it)@ == rest_installed(middle_installed(core_installed(old(it)@))),
{
    install_core(it);
    install_middle(it);
    install_rest(it);
}

} // verus!
