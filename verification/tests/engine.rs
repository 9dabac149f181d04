//! Built-ins run against a small engine that answers their questions.
use lumen::array::{array_at, array_concat, array_copy_within, array_fill, array_includes, array_index_of, array_last_index_of, array_reverse, array_shift, array_slice, array_splice, array_unshift, nf_array_pop, nf_array_push};
use lumen::array_callbacks::{array_filter, array_find, array_flat, array_flat_map, array_for_each, array_from, array_iter_next, array_join, array_map, array_of_method, array_reduce, array_some_every, array_to_reversed, array_to_spliced, array_to_string, array_with, make_array_iterator, nf_array_ctor, ElementKind};
use lumen::case::{string_change_case, string_change_locale_case};
use lumen::builtin::Builtin;
use lumen::from_async::{async_dispose_via_return, from_async_sync_reject, from_async_sync_unwrap, FromAsyncCoro, Suspend};
use lumen::dispatch::{call_builtin, call_native, call_reaction, Limits};
use lumen::generator::{async_gen_react, async_gen_return_settled, async_generator_next, async_generator_throw, async_react, drive_generator, generator_next, generator_return, generator_throw};
use lumen::globals::{console_log, global_eval, global_is_finite, global_is_nan, global_parse_float, global_parse_int, global_print};
use lumen::install::install;
use lumen::interp::{Brand, ErrorKind, Interp, Key, KeyClass, Native, ObjRef, Op, Property, Reaction, Reply, Resume, Value, WellKnown};
use lumen::iter_helper::{iter_helper_next, iter_helper_return, make_chunking_helper, make_iter_helper, HelperKind};
use lumen::iterator::{iter_some_every, iterator_find, iterator_for_each, iterator_includes, iterator_join, iterator_reduce, iterator_to_array};
use lumen::iterator_objects::{iterator_constructor, iterator_dispose, iterator_from, iterator_proto_weird_set, wrap_next, wrap_return, FromResult};
use lumen::locale::{date_all_default, date_style_default, string_locale_order};
use lumen::object::{cdp_or_throw, define_accessor, delete_or_throw, get_proto, lookup_accessor, nf_function_apply, nf_object_has_own, object_assign, object_constructor, object_create, object_define_properties_method, object_define_property, object_freeze_or_seal, object_from_entries, object_get_own_property_descriptor, object_get_own_property_descriptors, object_get_prototype_of, object_group_by, object_has_own_property, object_is, object_is_prototype_of, object_listing, object_own_names, object_prevent_extensions, object_property_is_enumerable, object_set_prototype_of, object_to_locale_string, object_to_string, reflect_ordinary_get, reflect_ordinary_set, set_proto, test_integrity_level, Listing};
use lumen::promise::{capability_executor, make_thenable_job, new_promise_capability, pf_catch_finally, pf_return, pf_then_finally, pf_throw, promise_all_element, promise_any_reject, promise_keyed_combinator, promise_keyed_element, promise_keyed_settle, promise_settled, species_constructor, thenable_job_run};
use lumen::proxy::{js_get_prototype_of, js_own_keys};
use lumen::realm::{box_primitive, descriptor_from_prop};
use lumen::regexp::{flush_regexp_legacy, regexp_exec, regexp_exec_discard_direct, regexp_exec_discard_fast, regexp_literal_exec_discard, regexp_literal_match_discard, regexp_literal_replace_discard, regexp_string_iterator_next, read_program, to_index, update_regexp_legacy_statics, PendingMatch, RegExpStringIter};
use lumen::set_methods::{collection_ctor, collection_for_each, collection_iter_kind, map_group_by, map_set_iter_next, set_difference, set_intersection, set_is_disjoint_from, set_is_subset_of, set_is_superset_of, set_symmetric_difference, set_union, EntryKind};
use lumen::slots::Internal;
use lumen::sort::{array_sort, array_to_sorted};
use lumen::states::{copy_state, State};
use lumen::string_methods::{nf_char_at, nf_char_code_at, nf_string_iterator, nf_string_slice, string_at, string_code_point_at, string_concat, string_constructor, string_from_char_code, string_from_code_point, string_html, string_index_of, string_is_well_formed, string_iter_next, string_last_index_of, string_normalize, string_pad, string_raw, string_repeat, string_substr, string_substring, string_test, string_this_value, string_to_well_formed, string_trim, this_number, StringIter, SubstringTest};
use lumen::string_patterns::{nf_string_match, nf_string_replace, nf_string_split, string_match_all, string_replace_all, string_search};
use lumen::typed_arrays::{ta_buffer_get, ta_bytelength_get, ta_byteoffset_get, ta_length_get};
use lumen::uri::{global_decode_uri, global_encode_uri, global_escape, global_unescape};
use lumen::weak_refs::{registry_constructor, registry_register, registry_unregister, weak_ref_constructor, weak_ref_deref, Registry};
use lumen::zip::{concat_next, concat_return, iterator_concat, iterator_zip, zip_next, zip_return};
use std::collections::HashMap;

const LIMIT: u64 = 1 << 24;
const LIMITS: Limits = Limits { elements: LIMIT, text: 1 << 24 };

#[derive(Clone, PartialEq)]
enum Name {
    Text(Vec<u16>),
    Symbol(u64),
}

/// What a function of the host does.
#[derive(Clone, Copy)]
enum Act {
    /// Adds its first two arguments.
    Sum,
    /// Adds its receiver's `base` and its two arguments.
    BaseSum,
    /// Doubles its first argument.
    Double,
    /// Whether its first argument is even.
    Even,
    /// The next of a run of numbers kept in the function's own slots.
    CountUp(u64),
    /// Logs a name, and returns an empty result object.
    Logs(&'static str),
    /// Returns its receiver.
    Itself,
    /// The `has` and `keys` of a set-like object.
    HasSmall,
    Keys,
    /// Subtracts its second argument from its first.
    Difference,
    /// Returns a string.
    Says(&'static str),
    /// Logs a word and returns another.
    Gives(&'static str, &'static str),
    Throws,
    /// The elements of an array, one after the other.
    Each(Value),
    /// Logs its arguments as Numbers.
    Note,
    /// Hands its first two arguments to the executor that it is constructed with.
    Settles,
    /// Not a Number, with the bits of its argument's parity.
    OddNaN,
    Yes,
    /// Steps the iterator that the function keeps.
    StepsKept,
    /// Does the work of a built-in.
    Native(Builtin),
}

#[derive(Clone)]
enum Kind {
    Ordinary,
    Array,
    Function(Act),
    Proxy { target: Value, handler: Value, traps: Traps },
    Text(Vec<u16>),
    Boxed(Value),
    /// A typed array of so many elements of a size.
    Typed(u64, u64),
    RegExp { pattern: Vec<u16>, global: bool },
    WeakRef(Value),
    Registry,
    Error(&'static str),
}

/// The traps of a proxy.
#[derive(Clone, Copy)]
enum Traps {
    Absent,
    /// Counts each look at a descriptor and passes it on.
    CountDescriptors,
    /// Reports every property as missing.
    DenyDescriptors,
    /// Logs each read.
    LogReads,
    /// Logs each write.
    LogWrites,
    /// Logs each call and adds 20.
    LogCalls,
}

#[derive(Clone)]
struct Object {
    props: Vec<(Name, Property)>,
    proto: Value,
    extensible: bool,
    kind: Kind,
}

struct Host {
    objects: Vec<Object>,
    log: Vec<String>,
    reads: u64,
    object_proto: Value,
    array_proto: Value,
    iterator_proto: Value,
    new_target: Value,
    slots: Vec<(u64, &'static str, Value)>,
    generator: Vec<u64>,
    /// The internal data of collections, and the states of iterators.
    internals: HashMap<u64, Internal>,
    states: HashMap<u64, State>,
    intrinsics: Vec<(String, Value)>,
    global: Value,
}

fn units(s: &str) -> Vec<u16> {
    s.encode_utf16().collect()
}

fn n(x: f64) -> Value {
    Value::Num(x.to_bits())
}

fn of(v: Value) -> f64 {
    match v {
        Value::Num(b) => f64::from_bits(b),
        _ => f64::NAN,
    }
}

fn text(i: &Interp, v: Value) -> String {
    match v {
        Value::Str(s) => String::from_utf16_lossy(&i.units(s)),
        _ => panic!("not a string: {v:?}"),
    }
}

fn s(i: &mut Interp, t: &str) -> Value {
    Value::Str(i.intern(units(t)))
}

fn error_name(kind: ErrorKind) -> &'static str {
    match kind {
        ErrorKind::Type => "TypeError",
        ErrorKind::Range => "RangeError",
        ErrorKind::Syntax => "SyntaxError",
        ErrorKind::Reference => "ReferenceError",
        ErrorKind::Uri => "URIError",
    }
}

fn symbol(k: WellKnown) -> u64 {
    1000 + k as u64
}

fn data(v: Value) -> Property {
    Property::new_data(v, true, true, true)
}

impl Host {
    fn new() -> Host {
        let mut h = Host {
            objects: Vec::new(),
            log: Vec::new(),
            reads: 0,
            object_proto: Value::Null,
            array_proto: Value::Null,
            iterator_proto: Value::Null,
            new_target: Value::Undefined,
            slots: Vec::new(),
            generator: Vec::new(),
            internals: HashMap::new(),
            states: HashMap::new(),
            intrinsics: Vec::new(),
            global: Value::Null,
        };
        h.object_proto = h.make(Kind::Ordinary);
        h.array_proto = h.make(Kind::Ordinary);
        h.iterator_proto = h.make(Kind::Ordinary);
        h.global = h.make(Kind::Ordinary);
        h
    }

    fn make(&mut self, kind: Kind) -> Value {
        let callable = match &kind {
            Kind::Function(_) => true,
            Kind::Proxy { target, .. } => target.is_callable(),
            _ => false,
        };
        let proto = match &kind {
            Kind::Array => self.array_proto,
            _ => self.object_proto,
        };
        self.objects.push(Object { props: Vec::new(), proto, extensible: true, kind });
        Value::Obj(ObjRef { id: self.objects.len() as u64 - 1, callable, constructor: false })
    }

    fn array(&mut self, items: &[Value]) -> Value {
        let a = self.make(Kind::Array);
        for (k, v) in items.iter().enumerate() {
            self.at(a).props.push((Name::Text(units(&k.to_string())), data(*v)));
        }
        let len = Property::new_data(n(items.len() as f64), true, false, false);
        self.at(a).props.push((Name::Text(units("length")), len));
        a
    }

    fn numbers(&mut self, items: &[f64]) -> Value {
        let v: Vec<Value> = items.iter().map(|x| n(*x)).collect();
        self.array(&v)
    }

    fn function(&mut self, act: Act) -> Value {
        self.make(Kind::Function(act))
    }

    fn object(&mut self, props: &[(&str, Value)]) -> Value {
        let o = self.make(Kind::Ordinary);
        for (k, v) in props {
            self.at(o).props.push((Name::Text(units(k)), data(*v)));
        }
        o
    }

    /// An iterator over the numbers from 0 up to a bound, whose `return` logs.
    fn counter(&mut self, bound: u64, name: &'static str) -> Value {
        let next = self.function(Act::CountUp(bound));
        let ret = self.function(Act::Logs(name));
        self.object(&[("next", next), ("return", ret)])
    }

    fn at(&mut self, v: Value) -> &mut Object {
        match v {
            Value::Obj(o) => &mut self.objects[o.id as usize],
            _ => panic!("not an object: {v:?}"),
        }
    }

    fn name(&self, i: &Interp, k: Key) -> Name {
        match k {
            Key::Name(t) => Name::Text(units(t)),
            Key::Index(x) => Name::Text(units(&x.to_string())),
            Key::Symbol(w) => Name::Symbol(symbol(w)),
            Key::Of(Value::Str(h)) => Name::Text(i.units(h)),
            Key::Of(Value::Sym(x)) => Name::Symbol(x),
            Key::Of(v) => panic!("not a key: {v:?}"),
        }
    }

    fn value_of_name(&self, i: &mut Interp, k: &Name) -> Value {
        match k {
            Name::Text(t) => Value::Str(i.intern(t.clone())),
            Name::Symbol(x) => Value::Sym(*x),
        }
    }

    fn own(&mut self, o: Value, k: &Name) -> Option<Property> {
        let obj = self.at(o).clone();
        if let (Kind::Text(t), Name::Text(k)) = (&obj.kind, k) {
            let key = String::from_utf16_lossy(k);
            if key == "length" {
                return Some(Property::new_data(n(t.len() as f64), false, false, false));
            }
            if key.parse::<usize>().map_or(false, |x| x < t.len() && x.to_string() == key) {
                return Some(Property::new_data(Value::Undefined, false, true, false));
            }
        }
        if let (Kind::Typed(len, _), Name::Text(k)) = (&obj.kind, k) {
            let key = String::from_utf16_lossy(k);
            if let Ok(x) = key.parse::<u64>() {
                if x.to_string() == key {
                    return if x < *len { Some(data(n(0.0))) } else { None };
                }
            }
            if key == "-0" {
                return None;
            }
        }
        obj.props.iter().find(|p| p.0 == *k).map(|p| p.1)
    }

    fn store(&mut self, o: Value, k: Name, p: Property) {
        let is_array = matches!(self.at(o).kind, Kind::Array);
        if is_array {
            if let Name::Text(t) = &k {
                if let Ok(x) = String::from_utf16_lossy(t).parse::<u32>() {
                    let len = self.own(o, &Name::Text(units("length"))).unwrap();
                    if x as f64 >= of(len.value) {
                        let longer = Property { value: n(x as f64 + 1.0), ..len };
                        self.store(o, Name::Text(units("length")), longer);
                    }
                }
            }
        }
        let obj = self.at(o);
        match obj.props.iter_mut().find(|q| q.0 == k) {
            Some(q) => q.1 = p,
            None => obj.props.push((k, p)),
        }
    }

    fn get(&mut self, i: &mut Interp, o: Value, k: Key) -> Result<Value, Value> {
        let key = self.name(i, k);
        let mut cur = o;
        if let Value::Str(h) = o {
            let t = i.units(h);
            return Ok(match &key {
                Name::Text(k) if *k == units("length") => n(t.len() as f64),
                _ => Value::Undefined,
            });
        }
        while let Value::Obj(_) = cur {
            if let Kind::Proxy { target, traps, .. } = self.at(cur).kind.clone() {
                if let (Traps::LogReads, Name::Text(t)) = (traps, &key) {
                    self.log.push(String::from_utf16_lossy(t));
                }
                cur = target;
                continue;
            }
            if let Some(p) = self.own(cur, &key) {
                if p.accessor {
                    return if p.get.is_callable() { self.call(i, p.get, o, &[]) } else { Ok(Value::Undefined) };
                }
                return Ok(p.value);
            }
            cur = self.at(cur).proto;
        }
        Ok(Value::Undefined)
    }

    fn put(&mut self, i: &mut Interp, o: Value, k: Key, v: Value) -> Result<Value, Value> {
        let key = self.name(i, k);
        let mut cur = o;
        if let Kind::Proxy { target, traps, .. } = self.at(cur).kind.clone() {
            if let (Traps::LogWrites, Name::Text(t)) = (traps, &key) {
                self.log.push(format!("set:{}", String::from_utf16_lossy(t)));
            }
            cur = target;
        }
        if matches!(self.at(cur).kind, Kind::Array) && key == Name::Text(units("length")) && of(v) % 1.0 != 0.0 {
            return Err(self.error("RangeError"));
        }
        match self.own(cur, &key) {
            Some(p) if !p.writable => return Err(self.error("TypeError")),
            Some(p) => self.store(cur, key, Property { value: v, ..p }),
            None if !self.at(cur).extensible => return Err(self.error("TypeError")),
            None => self.store(cur, key, data(v)),
        }
        Ok(Value::Undefined)
    }

    fn error(&mut self, name: &'static str) -> Value {
        self.make(Kind::Error(name))
    }

    fn name_of_error(&mut self, e: Value) -> &'static str {
        match self.at(e).kind {
            Kind::Error(name) => name,
            _ => panic!("not an error"),
        }
    }

    fn result(&mut self, v: Value, done: bool) -> Value {
        self.object(&[("value", v), ("done", Value::Bool(done))])
    }

    fn call(&mut self, i: &mut Interp, f: Value, this: Value, args: &[Value]) -> Result<Value, Value> {
        let a = |k: usize| args.get(k).copied().unwrap_or(Value::Undefined);
        match self.at(f).kind.clone() {
            Kind::Proxy { target, traps, .. } => {
                let r = self.call(i, target, this, args)?;
                if let Traps::LogCalls = traps {
                    self.log.push("apply".to_string());
                    return Ok(n(of(r) + 20.0));
                }
                Ok(r)
            }
            Kind::Function(act) => match act {
                Act::Sum => Ok(n(of(a(0)) + of(a(1)))),
                Act::BaseSum => {
                    let base = self.get(i, this, Key::Name("base"))?;
                    Ok(n(of(base) + of(a(0)) + of(a(1))))
                }
                Act::Double => Ok(n(of(a(0)) * 2.0)),
                Act::Difference => Ok(n(of(a(0)) - of(a(1)))),
                Act::Even => Ok(Value::Bool(of(a(0)) % 2.0 == 0.0)),
                Act::CountUp(bound) => {
                    let at = self.own(f, &Name::Symbol(1)).map_or(0.0, |p| of(p.value));
                    if at >= bound as f64 {
                        return Ok(self.result(Value::Undefined, true));
                    }
                    self.store(f, Name::Symbol(1), data(n(at + 1.0)));
                    Ok(self.result(n(at), false))
                }
                Act::Logs(t) => {
                    self.log.push(t.to_string());
                    Ok(self.make(Kind::Ordinary))
                }
                Act::Itself => Ok(this),
                Act::HasSmall => Ok(Value::Bool(of(a(0)) < 3.0)),
                Act::Keys => Ok(self.counter(4, "closed keys")),
                Act::Says(t) => {
                    self.log.push(t.to_string());
                    Ok(s(i, t))
                }
                Act::Gives(line, t) => {
                    self.log.push(line.to_string());
                    Ok(s(i, t))
                }
                Act::Throws => Err(n(99.0)),
                Act::Each(list) => {
                    let at = self.own(f, &Name::Symbol(1)).map_or(0.0, |p| of(p.value));
                    let len = of(self.get(i, list, Key::Name("length"))?);
                    if at >= len {
                        return Ok(self.result(Value::Undefined, true));
                    }
                    self.store(f, Name::Symbol(1), data(n(at + 1.0)));
                    let v = self.get(i, list, Key::Index(at as u64))?;
                    Ok(self.result(v, false))
                }
                Act::Note => {
                    let line: Vec<String> = args.iter().map(|v| of(*v).to_string()).collect();
                    self.log.push(line.join(","));
                    Ok(Value::Undefined)
                }
                Act::Settles => Ok(Value::Undefined),
                Act::Yes => Ok(Value::Bool(true)),
                Act::StepsKept => {
                    let it = self.own(f, &Name::Symbol(2)).unwrap().value;
                    let next = self.get(i, it, Key::Name("next"))?;
                    self.call(i, next, it, &[])
                }
                Act::OddNaN => Ok(Value::Num(f64::NAN.to_bits() + (of(a(0)) as u64 % 2))),
                Act::Native(b) => self.call_native(i, b, this, args),
            },
            _ => Err(self.error("TypeError")),
        }
    }

    fn to_text(&mut self, i: &mut Interp, v: Value) -> Result<Value, Value> {
        Ok(match v {
            Value::Undefined => s(i, "undefined"),
            Value::Null => s(i, "null"),
            Value::Bool(b) => s(i, if b { "true" } else { "false" }),
            Value::Num(b) => {
                let t = format!("{}", f64::from_bits(b));
                s(i, &t)
            }
            Value::Str(_) => v,
            Value::Obj(_) => {
                let f = self.get(i, v, Key::Name("toString"))?;
                if f.is_callable() {
                    return self.call(i, f, v, &[]);
                }
                s(i, "[object]")
            }
            _ => return Err(self.error("TypeError")),
        })
    }

    fn to_number(&mut self, i: &mut Interp, v: Value) -> Result<Value, Value> {
        Ok(match v {
            Value::Undefined => n(f64::NAN),
            Value::Null => n(0.0),
            Value::Bool(b) => n(if b { 1.0 } else { 0.0 }),
            Value::Str(h) => n(String::from_utf16_lossy(&i.units(h)).parse().unwrap_or(f64::NAN)),
            _ => return Err(self.error("TypeError")),
        })
    }

    /// A value or a throw.
    fn reply(r: Result<Value, Value>) -> Reply {
        match r {
            Ok(v) => Reply::Value(v),
            Err(e) => Reply::Throw(e),
        }
    }

    /// The identity of an object, as a key of the slots.
    fn id(&self, v: Value) -> Value {
        match v {
            Value::Obj(o) => Value::Num(o.id + 1),
            _ => panic!("not an object: {v:?}"),
        }
    }

    fn internal(&mut self, o: Value) -> Option<&mut Internal> {
        match o {
            Value::Obj(x) => self.internals.get_mut(&x.id),
            _ => None,
        }
    }

    fn give_internal(&mut self, o: Value, b: Brand) {
        if let Value::Obj(x) = o {
            self.internals.insert(x.id, Internal::new(Some(b)));
        }
    }

    fn set_of(&mut self, keys: Vec<Value>) -> Value {
        let o = self.make(Kind::Ordinary);
        self.give_internal(o, Brand::SetData);
        for k in keys {
            self.internal(o).unwrap().store_entry(k, k);
        }
        o
    }

    fn intrinsic(&mut self, name: &str) -> Value {
        match name {
            "Object" => return self.object_proto,
            "Array" => return self.array_proto,
            _ => {}
        }
        if let Some(x) = self.intrinsics.iter().rev().find(|x| x.0 == name) {
            return x.1;
        }
        let o = self.make(Kind::Ordinary);
        self.intrinsics.push((name.to_string(), o));
        o
    }

    /// Calls a built-in, answering one question after the other.
    fn call_native(&mut self, i: &mut Interp, b: Builtin, this: Value, args: &[Value]) -> Result<Value, Value> {
        let waiting = i.begin();
        let id = match this {
            Value::Obj(x) => Some(x.id),
            _ => None,
        };
        let r = loop {
            i.rewind();
            let kept = id.and_then(|id| self.internals.remove(&id));
            let holds = kept.is_some();
            let mut own = kept.unwrap_or_else(|| Internal::new(None));
            let r = call_builtin(i, &mut own, b, this, args, LIMITS);
            if let (Some(id), true) = (id, holds) {
                self.internals.insert(id, own);
            }
            let (op, list, state) = match i.open_question() {
                Some(q) => (q.op, q.list.clone(), q.state.as_ref().map(copy_state)),
                None => break r,
            };
            let reply = self.answer(i, op, list, state);
            i.answer(reply);
        };
        i.end(waiting);
        r
    }

    fn answer(&mut self, i: &mut Interp, op: Op, list: Vec<Value>, state: Option<State>) -> Reply {
        let done = Reply::Value(Value::Undefined);
        let yes = |b: bool| Reply::Value(Value::Bool(b));
        match op {
            Op::Get(o, k) => Host::reply(self.get(i, o, k)),
            Op::Put(o, k, v) => Host::reply(self.put(i, o, k, v)),
            Op::SetFor(o, k, v, _) => yes(self.put(i, o, k, v).is_ok()),
            Op::CreateData(o, k, v) => {
                let key = self.name(i, k);
                self.store(o, key, data(v));
                yes(true)
            }
            Op::Has(o, k) => {
                let key = self.name(i, k);
                let mut cur = o;
                while let Value::Obj(_) = cur {
                    if self.own(cur, &key).is_some() {
                        return yes(true);
                    }
                    cur = self.at(cur).proto;
                }
                yes(false)
            }
            Op::Remove(o, k) | Op::RemoveProperty(o, k) => {
                let key = self.name(i, k);
                self.at(o).props.retain(|p| p.0 != key);
                yes(true)
            }
            Op::SuppliedProperty(..) => Reply::Property(None),
            Op::OwnProperty(o, k) | Op::StoredProperty(o, k) => {
                let key = self.name(i, k);
                Reply::Property(self.own(o, &key))
            }
            Op::OwnKeys(o) => {
                let names: Vec<Name> = self.at(o).props.iter().map(|p| p.0.clone()).collect();
                Reply::List(names.iter().map(|k| self.value_of_name(i, k)).collect())
            }
            Op::StoreProperty(o, k, p) => {
                let key = self.name(i, k);
                self.store(o, key, p);
                done
            }
            Op::Classify(o, k) => {
                let key = self.name(i, k);
                let is_array = matches!(self.at(o).kind, Kind::Array);
                Reply::Class(match key {
                    Name::Text(t) if is_array && t == units("length") => KeyClass::ArrayLength,
                    Name::Text(t) if is_array => match String::from_utf16_lossy(&t).parse::<u64>() {
                        Ok(x) => KeyClass::ArrayIndex(x),
                        Err(_) => KeyClass::Ordinary,
                    },
                    _ => KeyClass::Ordinary,
                })
            }
            Op::ProxyParts(o) => Reply::List(match self.at(o).kind {
                Kind::Proxy { target, handler, .. } => vec![target, handler],
                _ => vec![],
            }),
            Op::Prototype(o) => Reply::Value(self.at(o).proto),
            Op::StorePrototype(o, p) => {
                self.at(o).proto = p;
                done
            }
            Op::Extensible(o) => yes(self.at(o).extensible),
            Op::StopExtensions(o) => {
                self.at(o).extensible = false;
                yes(true)
            }
            Op::StaysExtensible(_) | Op::IsNamespace(_) | Op::IsForeignArray(_) => yes(false),
            Op::HasElements(o) => yes(matches!(self.at(o).kind, Kind::Typed(..))),
            Op::IsArrayConstructor(_) => yes(false),
            Op::IsArrayExotic(o) => yes(matches!(self.at(o).kind, Kind::Array)),
            Op::TypedLength(_) => done,
            Op::Call(f, this) => Host::reply(self.call(i, f, this, &list)),
            Op::ToText(v) => Host::reply(self.to_text(i, v)),
            Op::ToNumber(v) => Host::reply(self.to_number(i, v)),
            Op::ToKey(v) => Host::reply(self.to_text(i, v)),
            Op::Wrap(v) => Reply::Value(match v {
                Value::Str(h) => {
                    let t = i.units(h);
                    self.make(Kind::Text(t))
                }
                _ => self.make(Kind::Boxed(v)),
            }),
            Op::NewObject => Reply::Value(self.make(Kind::Ordinary)),
            Op::NewWithPrototype(p) => {
                let o = self.make(Kind::Ordinary);
                self.at(o).proto = p;
                Reply::Value(o)
            }
            Op::NewArray => Reply::Value(self.array(&list)),
            Op::NewIterResult(v, d) => Reply::Value(self.result(v, d)),
            Op::NewError(kind, _) => Reply::Value(self.error(error_name(kind))),
            Op::NewSet => Reply::Value(self.set_of(list)),
            Op::Iterate(v) => {
                if let Kind::Array = self.at(v).kind {
                    let next = self.function(Act::Each(v));
                    let ret = self.function(Act::Logs("array closed"));
                    let it = self.object(&[("next", next), ("return", ret)]);
                    return Reply::List(vec![it, next]);
                }
                let next = self.get(i, v, Key::Name("next")).unwrap();
                Reply::List(vec![v, next])
            }
            Op::Close(v) | Op::CloseNormal(v) => {
                let f = self.get(i, v, Key::Name("return")).unwrap();
                if f.is_callable() {
                    return Host::reply(self.call(i, f, v, &[]));
                }
                done
            }
            Op::HasBrand(o, _) if self.internal(o).is_some() => self.internal(o).unwrap().answer(op).unwrap(),
            Op::HasBrand(o, b) => yes(match (&self.at(o).kind, b) {
                (Kind::RegExp { .. }, Brand::RegExpData) => true,
                (Kind::WeakRef(_), Brand::WeakRefData) => true,
                (Kind::Registry, Brand::RegistryData) => true,
                (Kind::Text(_), Brand::StringData) => true,
                (Kind::Typed(..), Brand::TypedArrayData) => true,
                (Kind::Error(_), Brand::ErrorData) => true,
                (Kind::Ordinary, Brand::GeneratorData) => self.generator.len() > 0,
                _ => false,
            }),
            Op::SlotAt(o, _) | Op::LiveCount(o) | Op::LiveKeys(o) | Op::HoldsKey(o, _) | Op::EntryValue(o, _) => {
                match self.internal(o) {
                    Some(own) => own.answer(op).unwrap(),
                    None => done,
                }
            }
            Op::StringData(o) => Reply::Value(match self.at(o).kind.clone() {
                Kind::Text(t) => Value::Str(i.intern(t)),
                _ => Value::Undefined,
            }),
            Op::NewTarget => Reply::Value(self.new_target),
            Op::Normalize(v, form) => {
                let t = format!("{form}:{}", text(i, v));
                Reply::Value(s(i, &t))
            }
            Op::CombiningClass(c) => Reply::Value(n(if c == 0x301 || c == 0x307 { 230.0 } else if c == 0x323 { 220.0 } else { 0.0 })),
            Op::LocaleList(v) => Reply::List(if v.is_undefined() { vec![] } else { vec![v] }),
            Op::Print(v) => {
                let line = text(i, v);
                self.log.push(line);
                done
            }
            Op::RegExpShape(o) => match self.at(o).kind.clone() {
                Kind::RegExp { global, .. } => Reply::List(vec![
                    Value::Bool(global), Value::Bool(false), Value::Bool(false), Value::Bool(false), n(0.0),
                ]),
                _ => Reply::List(vec![]),
            },
            Op::MatchAt(o, input, start) => {
                let (pattern, input) = match (self.at(o).kind.clone(), input) {
                    (Kind::RegExp { pattern, .. }, Value::Str(h)) => (pattern, i.units(h)),
                    _ => panic!("not a match"),
                };
                let hit = (start as usize..=input.len()).find(|p| input[*p..].starts_with(&pattern));
                Reply::List(match hit {
                    Some(p) => vec![n(p as f64), n((p + pattern.len()) as f64)],
                    None => vec![],
                })
            }
            Op::RecordMatch(..) => {
                self.log.push("match".to_string());
                done
            }
            Op::WeakTarget(o) => Reply::Value(match self.at(o).kind {
                Kind::WeakRef(v) => v,
                _ => Value::Undefined,
            }),
            Op::KeepAlive(_) => {
                self.log.push("kept".to_string());
                done
            }
            Op::IsRegistered(v) => yes(v == Value::Sym(7)),
            Op::TypedShape(o) => match self.at(o).kind {
                Kind::Typed(len, size) => Reply::List(vec![n(len as f64), n(size as f64), n(0.0)]),
                _ => Reply::List(vec![]),
            },
            Op::IsIteratorPrototype(o) => yes(o == self.iterator_proto),
            Op::SymbolText(_) => Reply::Value(s(i, "Symbol(x)")),
            Op::IsFinished(_) => yes(self.generator.is_empty()),
            Op::ResumeGenerator(_, _) => {
                let k = self.generator.remove(0);
                Reply::List(vec![n(k as f64), n(5.0)])
            }
            Op::NewPromise => Reply::Value(self.make(Kind::Ordinary)),
            Op::PromiseFor(v) => Reply::Value(v),
            Op::PromiseThen(p, ..) => {
                self.slots.push((0, "then", p));
                done
            }
            Op::RejectPromise(_, e) => {
                self.slots.push((0, "rejected", e));
                done
            }
            Op::GlobalObject => Reply::Value(self.global),
            Op::Intrinsic(name) => Reply::Value(self.intrinsic(name)),
            Op::NewNative(_, _, b) => Reply::Value(self.function(Act::Native(b))),
            Op::DefineMethod(o, name, len, b) => {
                self.log.push(format!("{name}/{len}"));
                let f = self.function(Act::Native(b));
                self.store(o, Name::Text(units(name)), Property::new_data(f, true, false, true));
                done
            }
            Op::Install(f) => {
                self.log.push(format!("{f:?}"));
                done
            }
            Op::HasIntl => yes(false),
            Op::RegisterIntrinsic(name, o) => {
                self.intrinsics.push((name.to_string(), o));
                done
            }
            Op::DefineTag(..) => done,
            Op::StoreEntry(o, k, v) => {
                self.internal(o).unwrap().store_entry(k, v);
                done
            }
            Op::NewCollection(b) => {
                let o = self.make(Kind::Ordinary);
                self.give_internal(o, b);
                Reply::Value(o)
            }
            Op::InitCollection(o, b) => {
                self.give_internal(o, b);
                done
            }
            Op::NewIterator(name) => {
                let o = self.make(Kind::Ordinary);
                let proto = self.intrinsic(name);
                self.at(o).proto = proto;
                if let (Value::Obj(x), Some(s)) = (o, state) {
                    self.states.insert(x.id, s);
                }
                Reply::Value(o)
            }
            Op::WriteState(o) => {
                if let (Value::Obj(x), Some(s)) = (o, state) {
                    self.states.insert(x.id, s);
                }
                done
            }
            Op::ReadState(Value::Obj(x)) => match self.states.get(&x.id) {
                Some(s) => Reply::State(copy_state(s)),
                None => done,
            },
            Op::IntegerNumber(radix, negative) => {
                let mut x = 0.0;
                for d in list {
                    x = x * radix as f64 + of(d);
                }
                Reply::Value(n(if negative { -x } else { x }))
            }
            Op::DecimalNumber(v) => Reply::Value(n(text(i, v).parse().unwrap())),
            Op::StartFromAsync(_) => {
                self.log.push(format!("fromAsync {}", list.len()));
                done
            }
            Op::TriggerDeferred(..) | Op::SuppliedLength(_) => done,
            Op::Delete(o, k) => {
                let key = self.name(i, k);
                let free = self.own(o, &key).map_or(true, |p| p.configurable);
                if free {
                    self.at(o).props.retain(|p| p.0 != key);
                }
                yes(free)
            }
            Op::IsObjectPrototype(o) => yes(o == self.object_proto),
            Op::GetFor(o, k, _) => Host::reply(self.get(i, o, k)),
            Op::WrapperPrototype(_) => {
                let p = self.array_proto;
                Reply::Value(p)
            }
            Op::IsObjectConstructor(_) | Op::IsIteratorConstructor(_) => yes(false),
            Op::Construct(f, _) => match self.at(f).kind {
                Kind::Function(Act::Settles) => {
                    // The first two functions that the host made take part in the promise.
                    let cap = list[0];
                    let bound: Vec<Value> = self.slots.iter().filter(|x| Value::Num(x.0) == self.id(cap)).map(|x| x.2).collect();
                    let resolve = self.function(Act::Note);
                    let reject = self.function(Act::Note);
                    let args = [bound[0], resolve, reject];
                    Host::reply(run(self, i, |i| capability_executor(i, &args)).map(|_| f))
                }
                _ => {
                    self.log.push(format!("new {}", list.len()));
                    Reply::Value(self.array(&[]))
                }
            },
            Op::IterateAll(v) => {
                let len = of(self.get(i, v, Key::Name("length")).unwrap()) as u64;
                Reply::List((0..len).map(|k| self.get(i, v, Key::Index(k)).unwrap()).collect())
            }
            Op::NumberData(o) => Reply::Value(match self.at(o).kind {
                Kind::Boxed(v) => v,
                _ => Value::Undefined,
            }),
            Op::ReadSlot(o, name) => {
                let id = self.id(o);
                let hit = self.slots.iter().rev().find(|x| Value::Num(x.0) == id && x.1 == name);
                Reply::Value(hit.map_or(Value::Undefined, |x| x.2))
            }
            Op::WriteSlot(o, name, v) => {
                if let Value::Num(id) = self.id(o) {
                    self.slots.push((id, name, v));
                }
                done
            }
            Op::NewBound(native, len) => {
                self.log.push(format!("{native:?}/{len}"));
                let f = self.function(Act::Itself);
                if let Value::Num(id) = self.id(f) {
                    for v in list {
                        self.slots.push((id, "bound", v));
                    }
                }
                Reply::Value(f)
            }
            Op::NewAggregateError(_) => Reply::Value(self.error("AggregateError")),
            Op::ResolvePromise(_, v) => {
                self.slots.push((0, "resolved", v));
                done
            }
            Op::BoundTarget(_) | Op::RealmPrototype(..) => done,
            Op::StoreWeakTarget(o, v) => {
                self.at(o).kind = Kind::WeakRef(v);
                done
            }
            Op::NewRegistry(o, _) => {
                self.at(o).kind = Kind::Registry;
                done
            }
            Op::Eval(v) => Reply::Value(v),
            Op::TypedBuffer(_) => Reply::Value(self.object_proto),
            Op::DriveAsync(_, r) | Op::DriveAsyncGenerator(_, _, r) | Op::DriveAsyncInner(_, _, r) => {
                self.log.push(format!("{r:?}"));
                done
            }
            Op::FinishAsyncStep(_) => {
                self.log.push("step".to_string());
                done
            }
            other => panic!("unexpected question: {other:?}"),
        }
    }
}

/// Runs a built-in, answering one question after the other.
fn run<T>(h: &mut Host, i: &mut Interp, f: impl Fn(&mut Interp) -> T) -> T {
    let waiting = i.begin();
    let r = loop {
        i.rewind();
        let r = f(i);
        let (op, list, state) = match i.open_question() {
            Some(q) => (q.op, q.list.clone(), q.state.as_ref().map(copy_state)),
            None => break r,
        };
        let reply = h.answer(i, op, list, state);
        i.answer(reply);
    };
    i.end(waiting);
    r
}

fn fresh() -> (Host, Interp) {
    (Host::new(), Interp::new())
}

fn own(h: &mut Host, i: &mut Interp, o: Value, k: Value) -> String {
    match run(h, i, |i| nf_object_has_own(i, &[o, k])) {
        Ok(Value::Bool(b)) => b.to_string(),
        Ok(v) => panic!("{v:?}"),
        Err(e) => h.name_of_error(e).to_string(),
    }
}

#[test]
fn hasown_intrinsic_dispatches_getownproperty_after_warmup() {
    let (mut h, mut i) = fresh();
    let x = s(&mut i, "x");
    for _ in 0..160 {
        let o = h.object(&[("x", n(1.0))]);
        assert_eq!(own(&mut h, &mut i, o, x), "true");
    }
    let mut out: Vec<String> = Vec::new();
    let target = h.object(&[("x", n(1.0))]);
    let trap = h.function(Act::Itself);
    let handler = h.object(&[("getOwnPropertyDescriptor", trap)]);
    let proxy = h.make(Kind::Proxy { target, handler, traps: Traps::CountDescriptors });
    let missing = s(&mut i, "missing");
    for k in [x, missing] {
        let r = run_trapped(&mut h, &mut i, proxy, k);
        out.push(r);
    }
    out.push(h.reads.to_string());

    let bytes = h.make(Kind::Typed(2, 1));
    h.store(bytes, Name::Text(units("01")), data(n(3.0)));
    for k in ["0", "2", "-0", "01"] {
        let k = s(&mut i, k);
        out.push(own(&mut h, &mut i, bytes, k));
    }
    let abc = s(&mut i, "abc");
    let one = s(&mut i, "1");
    let length = s(&mut i, "length");
    out.push(own(&mut h, &mut i, abc, one));
    out.push(own(&mut h, &mut i, abc, length));
    for v in [n(1.0), Value::Bool(true), Value::BigInt(1), Value::Sym(3)] {
        out.push(own(&mut h, &mut i, v, x));
    }
    let holes = h.numbers(&[1.0, 2.0, 3.0]);
    h.at(holes).props.retain(|p| p.0 != Name::Text(units("1")));
    let zero = s(&mut i, "0");
    out.push(own(&mut h, &mut i, holes, zero));
    out.push(own(&mut h, &mut i, holes, one));

    // Revoked.
    h.at(proxy).kind = Kind::Proxy { target: Value::Null, handler: Value::Null, traps: Traps::Absent };
    out.push(own(&mut h, &mut i, proxy, x));

    let sealed = h.make(Kind::Ordinary);
    h.store(sealed, Name::Text(units("x")), Property::new_data(n(1.0), false, true, false));
    h.at(sealed).extensible = false;
    let liar = h.make(Kind::Proxy { target: sealed, handler, traps: Traps::DenyDescriptors });
    out.push(run_trapped(&mut h, &mut i, liar, x));
    assert_eq!(
        out.join("|"),
        "true|false|2|true|false|false|true|true|true|false|false|false|false|true|false|TypeError|TypeError"
    );
}

/// `Object.hasOwn` on a proxy whose descriptor trap is the host's.
fn run_trapped(h: &mut Host, i: &mut Interp, proxy: Value, k: Value) -> String {
    let (target, traps) = match h.at(proxy).kind.clone() {
        Kind::Proxy { target, traps, .. } => (target, traps),
        _ => panic!("not a proxy"),
    };
    let waiting = i.begin();
    let r = loop {
        i.rewind();
        let r = nf_object_has_own(i, &[proxy, k]);
        let (op, list, state) = match i.open_question() {
            Some(q) => (q.op, q.list.clone(), q.state.as_ref().map(copy_state)),
            None => break r,
        };
        let reply = match op {
            Op::Call(_, _) => {
                assert_eq!(list, [target, k]);
                match traps {
                    Traps::CountDescriptors => {
                        h.reads += 1;
                        let name = h.name(i, Key::Of(k));
                        match h.own(target, &name) {
                            Some(p) => Reply::Value(run(h, i, |i| descriptor_from_prop(i, p))),
                            None => Reply::Value(Value::Undefined),
                        }
                    }
                    _ => Reply::Value(Value::Undefined),
                }
            }
            _ => h.answer(i, op, list, state),
        };
        i.answer(reply);
    };
    i.end(waiting);
    match r {
        Ok(Value::Bool(b)) => b.to_string(),
        Ok(v) => panic!("{v:?}"),
        Err(e) => h.name_of_error(e).to_string(),
    }
}

#[test]
fn hasown_preserves_coercion_order_and_does_not_invoke_data_getters() {
    let (mut h, mut i) = fresh();
    let to_string = h.function(Act::Gives("key", "x"));
    let key = h.object(&[("toString", to_string)]);
    let e = run(&mut h, &mut i, |i| nf_object_has_own(i, &[Value::Null, key])).unwrap_err();
    let line = format!("static:{}", h.name_of_error(e));
    h.log.push(line);
    let e = run(&mut h, &mut i, |i| object_has_own_property(i, Value::Null, &[key])).unwrap_err();
    let line = format!("proto:{}", h.name_of_error(e));
    h.log.push(line);
    // The getter of `x` must not run.
    let o = h.make(Kind::Ordinary);
    let getter = h.function(Act::Throws);
    let p = Property { get: getter, accessor: true, writable: false, ..data(Value::Undefined) };
    h.store(o, Name::Text(units("x")), p);
    let r = run(&mut h, &mut i, |i| nf_object_has_own(i, &[o, key]));
    assert_eq!(r, Ok(Value::Bool(true)));
    h.log.push("true".to_string());
    h.store(o, Name::Symbol(7), data(n(2.0)));
    let r = run(&mut h, &mut i, |i| nf_object_has_own(i, &[o, Value::Sym(7)]));
    assert_eq!(r, Ok(Value::Bool(true)));
    h.log.push("true".to_string());
    assert_eq!(h.log.join("|"), "static:TypeError|key|proto:TypeError|key|true|true");
}

#[test]
fn enabled_native_intrinsics_preserve_exotic_receivers_and_lists() {
    let (mut h, mut i) = fresh();
    let sum = h.function(Act::BaseSum);
    let t = h.object(&[("base", n(5.0))]);
    let a = h.array(&[]);
    for k in 0..160 {
        let list = h.numbers(&[1.0, 2.0]);
        let r = run(&mut h, &mut i, |i| nf_function_apply(i, sum, &[t, list], LIMIT));
        assert_eq!(r, Ok(n(8.0)));
        assert_eq!(run(&mut h, &mut i, |i| nf_array_push(i, a, &[n(k as f64)])), Ok(n(1.0)));
        assert_eq!(run(&mut h, &mut i, |i| nf_array_pop(i, a)), Ok(n(k as f64)));
    }
    let handler = h.make(Kind::Ordinary);
    let f = h.make(Kind::Proxy { target: sum, handler, traps: Traps::LogCalls });
    let target = h.object(&[("length", n(2.0)), ("0", n(1.0)), ("1", n(2.0))]);
    let list = h.make(Kind::Proxy { target, handler, traps: Traps::LogReads });
    let mut out: Vec<String> = Vec::new();
    let r = run(&mut h, &mut i, |i| nf_function_apply(i, f, &[t, list], LIMIT)).unwrap();
    out.push(of(r).to_string());
    let r = h.call(&mut i, f, t, &[n(1.0), n(2.0)]).unwrap();
    out.push(of(r).to_string());
    let target = h.array(&[]);
    let p = h.make(Kind::Proxy { target, handler, traps: Traps::LogWrites });
    let r = run(&mut h, &mut i, |i| nf_array_push(i, p, &[n(7.0)])).unwrap();
    out.push(of(r).to_string());
    let first = h.get(&mut i, p, Key::Index(0)).unwrap();
    out.push(of(first).to_string());
    out.push(h.log.join(","));
    assert_eq!(out.join("|"), "28|28|1|7|length,0,1,apply,apply,set:0,set:length");
}

fn numbers_in(h: &mut Host, i: &mut Interp, a: Value) -> Vec<f64> {
    let len = of(h.get(i, a, Key::Name("length")).unwrap()) as u64;
    (0..len).map(|k| of(h.get(i, a, Key::Index(k)).unwrap())).collect()
}

#[test]
fn arrays_are_searched_cut_and_joined() {
    let (mut h, mut i) = fresh();
    let a = h.numbers(&[1.0, 2.0, 3.0, 2.0]);
    assert_eq!(run(&mut h, &mut i, |i| array_index_of(i, a, &[n(2.0)])), Ok(n(1.0)));
    assert_eq!(run(&mut h, &mut i, |i| array_index_of(i, a, &[n(2.0), n(2.0)])), Ok(n(3.0)));
    assert_eq!(run(&mut h, &mut i, |i| array_index_of(i, a, &[n(9.0)])), Ok(n(-1.0)));
    let b = h.numbers(&[f64::NAN]);
    assert_eq!(run(&mut h, &mut i, |i| array_includes(i, b, &[n(f64::NAN)])), Ok(Value::Bool(true)));
    assert_eq!(run(&mut h, &mut i, |i| array_index_of(i, b, &[n(f64::NAN)])), Ok(n(-1.0)));
    let r = run(&mut h, &mut i, |i| array_slice(i, a, &[n(-3.0), n(-1.0)])).unwrap();
    assert_eq!(numbers_in(&mut h, &mut i, r), [2.0, 3.0]);
    let r = run(&mut h, &mut i, |i| array_splice(i, a, &[n(1.0), n(2.0), n(8.0)])).unwrap();
    assert_eq!(numbers_in(&mut h, &mut i, r), [2.0, 3.0]);
    assert_eq!(numbers_in(&mut h, &mut i, a), [1.0, 8.0, 2.0]);
    let r = run(&mut h, &mut i, |i| array_concat(i, a, &[b, n(4.0)])).unwrap();
    assert_eq!(numbers_in(&mut h, &mut i, r).len(), 5);
    let dash = s(&mut i, "-");
    let r = run(&mut h, &mut i, |i| array_join(i, a, &[dash], LIMIT)).unwrap();
    assert_eq!(text(&i, r), "1-8-2");
}

#[test]
fn array_callbacks_see_elements_in_order() {
    let (mut h, mut i) = fresh();
    let a = h.numbers(&[1.0, 2.0, 3.0, 4.0]);
    let double = h.function(Act::Double);
    let even = h.function(Act::Even);
    let sum = h.function(Act::Sum);
    let r = run(&mut h, &mut i, |i| array_map(i, a, &[double])).unwrap();
    assert_eq!(numbers_in(&mut h, &mut i, r), [2.0, 4.0, 6.0, 8.0]);
    let r = run(&mut h, &mut i, |i| array_filter(i, a, &[even])).unwrap();
    assert_eq!(numbers_in(&mut h, &mut i, r), [2.0, 4.0]);
    assert_eq!(run(&mut h, &mut i, |i| array_reduce(i, a, &[sum], false)), Ok(n(10.0)));
    assert_eq!(run(&mut h, &mut i, |i| array_some_every(i, a, &[even], true)), Ok(Value::Bool(false)));
    assert_eq!(run(&mut h, &mut i, |i| array_some_every(i, a, &[even], false)), Ok(Value::Bool(true)));
    let empty = h.array(&[]);
    let e = run(&mut h, &mut i, |i| array_reduce(i, empty, &[sum], false)).unwrap_err();
    assert_eq!(h.name_of_error(e), "TypeError");
    let e = run(&mut h, &mut i, |i| array_map(i, a, &[n(1.0)])).unwrap_err();
    assert_eq!(h.name_of_error(e), "TypeError");
    let inner = h.numbers(&[5.0, 6.0]);
    let nested = h.array(&[n(1.0), inner]);
    let r = run(&mut h, &mut i, |i| array_flat(i, nested, &[])).unwrap();
    assert_eq!(numbers_in(&mut h, &mut i, r), [1.0, 5.0, 6.0]);
}

#[test]
fn sorting_is_by_text_unless_an_order_is_given() {
    let (mut h, mut i) = fresh();
    let a = h.array(&[n(10.0), n(9.0), Value::Undefined, n(1.0)]);
    run(&mut h, &mut i, |i| array_sort(i, a, &[], LIMIT)).unwrap();
    let got = numbers_in(&mut h, &mut i, a);
    assert_eq!(&got[..3], [1.0, 10.0, 9.0]);
    assert!(got[3].is_nan());
    let order = h.function(Act::Difference);
    run(&mut h, &mut i, |i| array_sort(i, a, &[order], LIMIT)).unwrap();
    let got = numbers_in(&mut h, &mut i, a);
    assert_eq!(&got[..3], [1.0, 9.0, 10.0]);
}

#[test]
fn array_iterators_end_for_good() {
    let (mut h, mut i) = fresh();
    let a = h.numbers(&[7.0]);
    let mut it = run(&mut h, &mut i, |i| make_array_iterator(i, a, ElementKind::Values)).unwrap();
    let mut seen: Vec<f64> = Vec::new();
    for _ in 0..3 {
        let start = it;
        let (r, after) = run(&mut h, &mut i, |i| {
            let mut copy = start;
            let r = array_iter_next(i, &mut copy);
            (r, copy)
        });
        it = after;
        let r = r.unwrap();
        let done = h.get(&mut i, r, Key::Name("done")).unwrap();
        let v = h.get(&mut i, r, Key::Name("value")).unwrap();
        seen.push(if done == Value::Bool(true) { -1.0 } else { of(v) });
        if seen.len() == 2 {
            h.store(a, Name::Text(units("1")), data(n(8.0)));
        }
    }
    assert_eq!(seen, [7.0, -1.0, -1.0]);
}

#[test]
fn objects_are_listed_frozen_and_copied() {
    let (mut h, mut i) = fresh();
    let o = h.object(&[("a", n(1.0)), ("b", n(2.0))]);
    let r = run(&mut h, &mut i, |i| object_listing(i, &[o], Listing::Values)).unwrap();
    assert_eq!(numbers_in(&mut h, &mut i, r), [1.0, 2.0]);
    let to = h.object(&[("a", n(9.0))]);
    run(&mut h, &mut i, |i| object_assign(i, &[to, o])).unwrap();
    assert_eq!(h.get(&mut i, to, Key::Name("a")), Ok(n(1.0)));
    assert_eq!(run(&mut h, &mut i, |i| test_integrity_level(i, o, true)), Ok(false));
    run(&mut h, &mut i, |i| object_freeze_or_seal(i, &[o], true)).unwrap();
    assert_eq!(run(&mut h, &mut i, |i| test_integrity_level(i, o, true)), Ok(true));
    let keys = run(&mut h, &mut i, |i| js_own_keys(i, o)).unwrap();
    assert_eq!(keys.len(), 2);
    assert_eq!(text(&i, keys[0]), "a");
    assert_eq!(run(&mut h, &mut i, |i| js_get_prototype_of(i, o)), Ok(h.object_proto));
    assert_eq!(object_is(&[n(f64::NAN), n(f64::NAN)]), Value::Bool(true));
    assert_eq!(object_is(&[n(0.0), n(-0.0)]), Value::Bool(false));
    let a = h.array(&[]);
    let r = run(&mut h, &mut i, |i| object_to_string(i, a)).unwrap();
    assert_eq!(text(&i, r), "[object Array]");
    let e = h.error("TypeError");
    let r = run(&mut h, &mut i, |i| object_to_string(i, e)).unwrap();
    assert_eq!(text(&i, r), "[object Error]");
    let r = run(&mut h, &mut i, |i| object_to_string(i, Value::Null)).unwrap();
    assert_eq!(text(&i, r), "[object Null]");
    let x = s(&mut i, "x");
    let r = run(&mut h, &mut i, |i| object_to_string(i, x)).unwrap();
    assert_eq!(text(&i, r), "[object String]");
}

/// The value of the next step of a helper, or nothing at its end.
fn value_in(h: &mut Host, i: &mut Interp, r: Result<Value, Value>) -> Option<f64> {
    let r = r.unwrap();
    match h.get(i, r, Key::Name("done")).unwrap() {
        Value::Bool(true) => None,
        _ => Some(of(h.get(i, r, Key::Name("value")).unwrap())),
    }
}

#[test]
fn helpers_step_lazily_and_close_their_source() {
    let (mut h, mut i) = fresh();
    let source = h.counter(5, "closed");
    let double = h.function(Act::Double);
    let helper = run(&mut h, &mut i, |i| make_iter_helper(i, source, HelperKind::Mapping, double)).unwrap();
    let mut state = helper.state;
    let mut seen: Vec<f64> = Vec::new();
    for _ in 0..2 {
        let before = state;
        let (r, after) = run(&mut h, &mut i, |i| {
            let mut copy = lumen::iter_helper::IterHelper { state: before, buffer: Vec::new() };
            let r = iter_helper_next(i, &mut copy);
            (r, copy.state)
        });
        state = after;
        seen.push(value_in(&mut h, &mut i, r).unwrap());
    }
    assert_eq!(seen, [0.0, 2.0]);
    let before = state;
    let (r, after) = run(&mut h, &mut i, |i| {
        let mut copy = lumen::iter_helper::IterHelper { state: before, buffer: Vec::new() };
        let r = iter_helper_return(i, &mut copy);
        (r, copy.state)
    });
    assert_eq!(value_in(&mut h, &mut i, r), None);
    assert!(after.done);
    assert_eq!(h.log, ["closed"]);
}

#[test]
fn chunks_hold_what_is_left() {
    let (mut h, mut i) = fresh();
    let source = h.counter(5, "closed");
    let helper = run(&mut h, &mut i, |i| {
        make_chunking_helper(i, source, n(2.0), None)
    }).unwrap();
    let mut state = helper.state;
    let mut sizes: Vec<usize> = Vec::new();
    loop {
        let before = state;
        let (r, after) = run(&mut h, &mut i, |i| {
            let mut copy = lumen::iter_helper::IterHelper { state: before, buffer: Vec::new() };
            let r = iter_helper_next(i, &mut copy);
            (r, copy.state)
        });
        state = after;
        let r = r.unwrap();
        if h.get(&mut i, r, Key::Name("done")) == Ok(Value::Bool(true)) {
            break;
        }
        let chunk = h.get(&mut i, r, Key::Name("value")).unwrap();
        sizes.push(numbers_in(&mut h, &mut i, chunk).len());
    }
    assert_eq!(sizes, [2, 2, 1]);
    let e = run(&mut h, &mut i, |i| {
        make_chunking_helper(i, source, n(0.0), None).err()
    }).unwrap();
    assert_eq!(h.name_of_error(e), "RangeError");
}

#[test]
fn iterators_are_consumed() {
    let (mut h, mut i) = fresh();
    let source = h.counter(4, "closed");
    let a = run(&mut h, &mut i, |i| iterator_to_array(i, source)).unwrap();
    assert_eq!(numbers_in(&mut h, &mut i, a), [0.0, 1.0, 2.0, 3.0]);
    let source = h.counter(4, "closed");
    let sum = h.function(Act::Sum);
    assert_eq!(run(&mut h, &mut i, |i| iterator_reduce(i, source, &[sum])), Ok(n(6.0)));
    let source = h.counter(3, "closed");
    let r = run(&mut h, &mut i, |i| iterator_join(i, source, &[])).unwrap();
    assert_eq!(text(&i, r), "0,1,2");
}

#[test]
fn zips_step_in_lockstep() {
    let (mut h, mut i) = fresh();
    let a = h.counter(2, "a");
    let b = h.counter(5, "b");
    // The iterable of iterables is a run of two.
    let items = h.array(&[a, b]);
    let mut z = zip_of(&mut h, &mut i, items);
    let mut rounds: Vec<Vec<f64>> = Vec::new();
    loop {
        let r = step_zip(&mut h, &mut i, &mut z).unwrap();
        if h.get(&mut i, r, Key::Name("done")) == Ok(Value::Bool(true)) {
            break;
        }
        let v = h.get(&mut i, r, Key::Name("value")).unwrap();
        rounds.push(numbers_in(&mut h, &mut i, v));
    }
    assert_eq!(rounds, [vec![0.0, 0.0], vec![1.0, 1.0]]);
    // The longer input is closed when the shorter ends.
    assert_eq!(h.log, ["b"]);
    assert!(z.finished);
}

/// A zip of the elements of an array, opened as the iterable of iterables.
fn zip_of(h: &mut Host, i: &mut Interp, items: Value) -> lumen::zip::ZipIter {
    let list: Vec<Value> = {
        let len = of(h.get(i, items, Key::Name("length")).unwrap()) as u64;
        (0..len).map(|k| h.get(i, items, Key::Index(k)).unwrap()).collect()
    };
    let mut nexts: Vec<Value> = Vec::new();
    for v in &list {
        nexts.push(h.get(i, *v, Key::Name("next")).unwrap());
    }
    lumen::zip::ZipIter {
        closed: vec![false; list.len()],
        pad: vec![Value::Undefined; list.len()],
        keys: Vec::new(),
        keyed: false,
        mode: lumen::zip::ZipMode::Shortest,
        finished: false,
        running: false,
        started: false,
        iters: list,
        nexts,
    }
}

fn clone_zip(z: &lumen::zip::ZipIter) -> lumen::zip::ZipIter {
    lumen::zip::ZipIter {
        iters: z.iters.clone(),
        nexts: z.nexts.clone(),
        closed: z.closed.clone(),
        pad: z.pad.clone(),
        keys: z.keys.clone(),
        keyed: z.keyed,
        mode: z.mode,
        finished: z.finished,
        running: z.running,
        started: z.started,
    }
}

fn step_zip(h: &mut Host, i: &mut Interp, z: &mut lumen::zip::ZipIter) -> Result<Value, Value> {
    let (r, after) = run(h, i, |i| {
        let mut copy = clone_zip(z);
        let r = zip_next(i, &mut copy);
        (r, copy)
    });
    *z = after;
    r
}

#[test]
fn strict_zips_complain_about_lengths() {
    let (mut h, mut i) = fresh();
    let a = h.counter(1, "a");
    let b = h.counter(2, "b");
    let items = h.array(&[a, b]);
    let mut z = zip_of(&mut h, &mut i, items);
    z.mode = lumen::zip::ZipMode::Strict;
    assert!(step_zip(&mut h, &mut i, &mut z).is_ok());
    let e = step_zip(&mut h, &mut i, &mut z).unwrap_err();
    assert_eq!(h.name_of_error(e), "TypeError");
    assert_eq!(h.log, ["b"]);
    let (r, _) = run(&mut h, &mut i, |i| {
        let mut copy = clone_zip(&z);
        let r = zip_return(i, &mut copy);
        (r, copy)
    });
    assert_eq!(value_in(&mut h, &mut i, r), None);
}

#[test]
fn longest_zips_pad() {
    let (mut h, mut i) = fresh();
    let a = h.counter(1, "a");
    let b = h.counter(2, "b");
    let items = h.array(&[a, b]);
    let mut z = zip_of(&mut h, &mut i, items);
    z.mode = lumen::zip::ZipMode::Longest;
    z.pad = vec![n(50.0), n(60.0)];
    let mut rounds: Vec<Vec<f64>> = Vec::new();
    loop {
        let r = step_zip(&mut h, &mut i, &mut z).unwrap();
        if h.get(&mut i, r, Key::Name("done")) == Ok(Value::Bool(true)) {
            break;
        }
        let v = h.get(&mut i, r, Key::Name("value")).unwrap();
        rounds.push(numbers_in(&mut h, &mut i, v));
    }
    assert_eq!(rounds, [vec![0.0, 0.0], vec![50.0, 1.0]]);
}

#[test]
fn zip_options_are_checked() {
    let (mut h, mut i) = fresh();
    let e = run(&mut h, &mut i, |i| iterator_zip(i, &[n(1.0)], false).err()).unwrap();
    assert_eq!(h.name_of_error(e), "TypeError");
    let mode = s(&mut i, "widest");
    let options = h.object(&[("mode", mode)]);
    let input = h.counter(0, "outer");
    let e = run(&mut h, &mut i, |i| iterator_zip(i, &[input, options], false).err()).unwrap();
    assert_eq!(h.name_of_error(e), "TypeError");
    let mode = s(&mut i, "longest");
    let options = h.object(&[("mode", mode)]);
    let z = run(&mut h, &mut i, |i| iterator_zip(i, &[input, options], false)).ok().unwrap();
    assert_eq!(z.iters.len(), 0);
}

#[test]
fn concatenated_iterators_follow_each_other() {
    let (mut h, mut i) = fresh();
    let itself = h.function(Act::Itself);
    let a = h.counter(2, "a");
    let b = h.counter(1, "b");
    for o in [a, b] {
        h.store(o, Name::Symbol(symbol(WellKnown::Iterator)), data(itself));
    }
    let c = run(&mut h, &mut i, |i| iterator_concat(i, &[a, b])).ok().unwrap();
    let mut seen: Vec<f64> = Vec::new();
    let (mut index, mut current, mut current_next, mut done) = (c.index, c.current, c.current_next, c.done);
    loop {
        let (r, after) = run(&mut h, &mut i, |i| {
            let mut copy = lumen::zip::ConcatIter {
                items: c.items.clone(),
                methods: c.methods.clone(),
                index,
                current,
                current_next,
                done,
                running: false,
                started: true,
            };
            let r = concat_next(i, &mut copy);
            (r, (copy.index, copy.current, copy.current_next, copy.done))
        });
        (index, current, current_next, done) = after;
        match value_in(&mut h, &mut i, r) {
            Some(v) => seen.push(v),
            None => break,
        }
    }
    assert_eq!(seen, [0.0, 1.0, 0.0]);
    assert!(done);
    let e = run(&mut h, &mut i, |i| iterator_concat(i, &[n(1.0)]).err()).unwrap();
    assert_eq!(h.name_of_error(e), "TypeError");
}

#[test]
fn sets_combine_with_set_like_objects() {
    let (mut h, mut i) = fresh();
    let set = h.set_of(vec![n(7.0), n(1.0)]);
    let has = h.function(Act::HasSmall);
    let keys = h.function(Act::Keys);
    let other = h.object(&[("size", n(4.0)), ("has", has), ("keys", keys)]);
    let r = run(&mut h, &mut i, |i| set_union(i, set, &[other])).unwrap();
    assert_eq!(members(&mut h, r), [7.0, 1.0, 0.0, 2.0, 3.0]);
    let small = h.set_of(vec![n(2.0), n(1.0)]);
    assert_eq!(run(&mut h, &mut i, |i| set_is_subset_of(i, small, &[other])), Ok(Value::Bool(true)));
    assert_eq!(run(&mut h, &mut i, |i| set_is_subset_of(i, set, &[other])), Ok(Value::Bool(false)));
    let e = run(&mut h, &mut i, |i| set_union(i, other, &[set])).unwrap_err();
    assert_eq!(h.name_of_error(e), "TypeError");
}

#[test]
fn strings_are_read_and_tested() {
    let (mut h, mut i) = fresh();
    let banana = s(&mut i, "banana");
    let an = s(&mut i, "an");
    assert_eq!(run(&mut h, &mut i, |i| string_index_of(i, banana, &[an, n(2.0)])), Ok(n(3.0)));
    assert_eq!(run(&mut h, &mut i, |i| nf_char_code_at(i, banana, &[n(1.9)])), Ok(n(97.0)));
    let r = run(&mut h, &mut i, |i| nf_char_code_at(i, banana, &[n(9.0)])).unwrap();
    assert!(of(r).is_nan());
    let r = run(&mut h, &mut i, |i| string_at(i, banana, &[n(-1.0)])).unwrap();
    assert_eq!(text(&i, r), "a");
    assert_eq!(run(&mut h, &mut i, |i| string_at(i, banana, &[n(6.0)])), Ok(Value::Undefined));
    let ban = s(&mut i, "ban");
    for (t, want) in [(SubstringTest::StartsWith, true), (SubstringTest::EndsWith, false), (SubstringTest::Includes, true)] {
        assert_eq!(run(&mut h, &mut i, |i| string_test(i, banana, &[ban], t)), Ok(Value::Bool(want)));
    }
    let rx = h.make(Kind::RegExp { pattern: units("a"), global: false });
    let e = run(&mut h, &mut i, |i| string_test(i, banana, &[rx], SubstringTest::Includes)).unwrap_err();
    assert_eq!(h.name_of_error(e), "TypeError");
    let e = run(&mut h, &mut i, |i| string_index_of(i, Value::Null, &[an])).unwrap_err();
    assert_eq!(h.name_of_error(e), "TypeError");
}

#[test]
fn strings_are_built() {
    let (mut h, mut i) = fresh();
    let r = run(&mut h, &mut i, |i| string_from_char_code(i, &[n(65.0), n(-1.0), n(65536.0 + 66.0)])).unwrap();
    assert_eq!(i.units(match r { Value::Str(x) => x, _ => 0 }), [65, 0xffff, 66]);
    let r = run(&mut h, &mut i, |i| string_from_code_point(i, &[n(128512.0), n(65.0)])).unwrap();
    assert_eq!(text(&i, r), "\u{1f600}A");
    let e = run(&mut h, &mut i, |i| string_from_code_point(i, &[n(1.5)])).unwrap_err();
    assert_eq!(h.name_of_error(e), "RangeError");
    let ab = s(&mut i, "ab");
    let r = run(&mut h, &mut i, |i| string_repeat(i, ab, &[n(2.0)], 100)).unwrap();
    assert_eq!(text(&i, r), "abab");
    let e = run(&mut h, &mut i, |i| string_repeat(i, ab, &[n(-1.0)], 100)).unwrap_err();
    assert_eq!(h.name_of_error(e), "RangeError");
    let e = run(&mut h, &mut i, |i| string_repeat(i, ab, &[n(51.0)], 100)).unwrap_err();
    assert_eq!(h.name_of_error(e), "RangeError");
    let r = run(&mut h, &mut i, |i| string_pad(i, ab, &[n(5.0)], true)).unwrap();
    assert_eq!(text(&i, r), "   ab");
    let one = s(&mut i, "1");
    let two = s(&mut i, "2");
    let raw = h.array(&[one, two]);
    let template = h.object(&[("raw", raw)]);
    let r = run(&mut h, &mut i, |i| string_raw(i, &[template, ab, ab])).unwrap();
    assert_eq!(text(&i, r), "1ab2");
    let nfd = s(&mut i, "NFD");
    let r = run(&mut h, &mut i, |i| string_normalize(i, ab, &[nfd])).unwrap();
    assert_eq!(text(&i, r), "NFD:ab");
    let e = run(&mut h, &mut i, |i| string_normalize(i, ab, &[ab])).unwrap_err();
    assert_eq!(h.name_of_error(e), "RangeError");
    let r = run(&mut h, &mut i, |i| string_constructor(i, &[Value::Sym(1)])).unwrap();
    assert_eq!(text(&i, r), "Symbol(x)");
}

#[test]
fn case_mapping_follows_unicode_and_language() {
    let (mut h, mut i) = fresh();
    let street = s(&mut i, "straße ΑΣ");
    let r = run(&mut h, &mut i, |i| string_change_case(i, street, true)).unwrap();
    assert_eq!(text(&i, r), "STRASSE ΑΣ");
    let r = run(&mut h, &mut i, |i| string_change_case(i, street, false)).unwrap();
    assert_eq!(text(&i, r), "straße ας");
    let tr = s(&mut i, "tr-TR");
    let lt = s(&mut i, "lt");
    let word = s(&mut i, "Iı\u{130}I\u{307}");
    let r = run(&mut h, &mut i, |i| string_change_locale_case(i, word, &[tr], false)).unwrap();
    assert_eq!(text(&i, r), "ııii");
    let word = s(&mut i, "iıx");
    let r = run(&mut h, &mut i, |i| string_change_locale_case(i, word, &[tr], true)).unwrap();
    assert_eq!(text(&i, r), "\u{130}IX");
    let word = s(&mut i, "I\u{301}J\u{cc}");
    let r = run(&mut h, &mut i, |i| string_change_locale_case(i, word, &[lt], false)).unwrap();
    assert_eq!(text(&i, r), "i\u{307}\u{301}ji\u{307}\u{300}");
    let word = s(&mut i, "i\u{323}\u{307}a");
    let r = run(&mut h, &mut i, |i| string_change_locale_case(i, word, &[lt], true)).unwrap();
    assert_eq!(text(&i, r), "I\u{323}A");
    // A lone surrogate passes through.
    let lone = Value::Str(i.intern(vec![0x61, 0xd800, 0x62]));
    let r = run(&mut h, &mut i, |i| string_change_case(i, lone, true)).unwrap();
    assert_eq!(i.units(match r { Value::Str(x) => x, _ => 0 }), [0x41, 0xd800, 0x42]);
}

#[test]
fn patterns_split_and_replace() {
    let (mut h, mut i) = fresh();
    let banana = s(&mut i, "banana");
    let a = s(&mut i, "a");
    let r = run(&mut h, &mut i, |i| nf_string_split(i, banana, &[a, n(2.0)], LIMIT)).unwrap();
    assert_eq!(of(h.get(&mut i, r, Key::Name("length")).unwrap()), 2.0);
    let first = h.get(&mut i, r, Key::Index(0)).unwrap();
    assert_eq!(text(&i, first), "b");
    let rx = h.make(Kind::RegExp { pattern: units("an"), global: true });
    let r = run(&mut h, &mut i, |i| nf_string_split(i, banana, &[rx], LIMIT)).unwrap();
    assert_eq!(of(h.get(&mut i, r, Key::Name("length")).unwrap()), 3.0);
    let template = s(&mut i, "<$&>");
    let r = run(&mut h, &mut i, |i| nf_string_replace(i, banana, &[a, template])).unwrap();
    assert_eq!(text(&i, r), "b<a>nana");
    let r = run(&mut h, &mut i, |i| string_replace_all(i, banana, &[a, template])).unwrap();
    assert_eq!(text(&i, r), "b<a>n<a>n<a>");
    let f = h.function(Act::Says("!"));
    let r = run(&mut h, &mut i, |i| string_replace_all(i, banana, &[a, f])).unwrap();
    assert_eq!(text(&i, r), "b!n!n!");
    assert_eq!(h.log, ["!", "!", "!"]);
    let quiet = h.make(Kind::RegExp { pattern: units("a"), global: false });
    let empty = s(&mut i, "i");
    h.store(quiet, Name::Text(units("flags")), data(empty));
    let e = run(&mut h, &mut i, |i| string_match_all(i, banana, &[quiet])).unwrap_err();
    assert_eq!(h.name_of_error(e), "TypeError");
}

#[test]
fn exec_keeps_last_index() {
    let (mut h, mut i) = fresh();
    let rx = h.make(Kind::RegExp { pattern: units("an"), global: true });
    h.store(rx, Name::Text(units("lastIndex")), data(n(0.0)));
    let banana = s(&mut i, "banana");
    let m = run(&mut h, &mut i, |i| regexp_exec(i, rx, &[banana])).unwrap();
    assert_eq!(h.get(&mut i, m, Key::Name("index")), Ok(n(1.0)));
    assert_eq!(h.get(&mut i, rx, Key::Name("lastIndex")), Ok(n(3.0)));
    let m = run(&mut h, &mut i, |i| regexp_exec(i, rx, &[banana])).unwrap();
    assert_eq!(h.get(&mut i, m, Key::Name("index")), Ok(n(3.0)));
    assert_eq!(run(&mut h, &mut i, |i| regexp_exec(i, rx, &[banana])), Ok(Value::Null));
    assert_eq!(h.get(&mut i, rx, Key::Name("lastIndex")), Ok(n(0.0)));
    assert_eq!(h.log, ["match", "match"]);
    let o = h.make(Kind::Ordinary);
    let e = run(&mut h, &mut i, |i| regexp_exec(i, o, &[banana])).unwrap_err();
    assert_eq!(h.name_of_error(e), "TypeError");
    assert_eq!(run(&mut h, &mut i, |i| to_index(i, n(3.7))), Ok(3));
    let e = run(&mut h, &mut i, |i| to_index(i, n(-1.0))).unwrap_err();
    assert_eq!(h.name_of_error(e), "RangeError");
}

#[test]
fn legacy_statics_are_stored_when_asked_for() {
    let (mut h, mut i) = fresh();
    let a = h.function(Act::Itself);
    let b = h.function(Act::Itself);
    let input = i.intern(units("banana"));
    let pending = |ctor: Value| PendingMatch {
        ctor,
        regexp: Value::Undefined,
        input,
        spans: vec![n(1.0), n(4.0), n(2.0), n(3.0)],
        groups: 1,
        search_start: None,
    };
    // A match of another constructor flushes the first one.
    run(&mut h, &mut i, |i| {
        let mut slot = None;
        update_regexp_legacy_statics(i, &mut slot, pending(a));
        update_regexp_legacy_statics(i, &mut slot, pending(b));
        assert!(slot.is_some_and(|m| m.ctor == b));
    });
    for (name, want) in [
        ("__legacy_input", "banana"), ("__legacy_lastMatch", "ana"), ("__legacy_leftContext", "b"),
        ("__legacy_rightContext", "na"), ("__legacy_lastParen", "n"), ("__legacy_$1", "n"), ("__legacy_$2", ""),
    ] {
        let v = h.get(&mut i, a, Key::Name(name)).unwrap();
        assert_eq!(text(&i, v), want, "{name}");
    }
    assert_eq!(h.get(&mut i, b, Key::Name("__legacy_input")), Ok(Value::Undefined));
    run(&mut h, &mut i, |i| {
        let mut slot = Some(pending(b));
        flush_regexp_legacy(i, &mut slot);
        assert!(slot.is_none());
    });
    let v = h.get(&mut i, b, Key::Name("__legacy_lastMatch")).unwrap();
    assert_eq!(text(&i, v), "ana");
}

#[test]
fn string_iterators_go_by_code_point() {
    let (mut h, mut i) = fresh();
    let string = i.intern(units("a\u{1f600}b"));
    let mut it = StringIter { string, index: 0 };
    let mut seen: Vec<String> = Vec::new();
    loop {
        let before = it;
        let (r, after) = run(&mut h, &mut i, |i| {
            let mut copy = before;
            let r = string_iter_next(i, &mut copy);
            (r, copy)
        });
        it = after;
        let r = r.unwrap();
        if h.get(&mut i, r, Key::Name("done")) == Ok(Value::Bool(true)) {
            break;
        }
        let v = h.get(&mut i, r, Key::Name("value")).unwrap();
        seen.push(text(&i, v));
    }
    assert_eq!(seen, ["a", "\u{1f600}", "b"]);
}

#[test]
fn globals_coerce_their_argument() {
    let (mut h, mut i) = fresh();
    let x = s(&mut i, "x");
    assert_eq!(run(&mut h, &mut i, |i| global_is_nan(i, &[x])), Ok(Value::Bool(true)));
    assert_eq!(run(&mut h, &mut i, |i| global_is_finite(i, &[n(1.0)])), Ok(Value::Bool(true)));
    run(&mut h, &mut i, |i| console_log(i, &[x, n(1.0), Value::Null])).unwrap();
    assert_eq!(h.log, ["x 1 null"]);
    let bad = s(&mut i, "%");
    let e = run(&mut h, &mut i, |i| global_decode_uri(i, &[bad], false)).unwrap_err();
    assert_eq!(h.name_of_error(e), "URIError");
}

#[test]
fn weak_references_and_registries() {
    let (mut h, mut i) = fresh();
    let target = h.make(Kind::Ordinary);
    let w = h.make(Kind::WeakRef(target));
    assert_eq!(run(&mut h, &mut i, |i| weak_ref_deref(i, w)), Ok(target));
    assert_eq!(h.log, ["kept"]);
    let e = run(&mut h, &mut i, |i| weak_ref_deref(i, target)).unwrap_err();
    assert_eq!(h.name_of_error(e), "TypeError");

    let r = h.make(Kind::Registry);
    let token = h.make(Kind::Ordinary);
    let (reply, cells) = run(&mut h, &mut i, |i| {
        let mut reg = Registry::new();
        let reply = registry_register(i, &mut reg, r, &[target, n(1.0), token]);
        (reply, reg.cells)
    });
    assert_eq!(reply, Ok(Value::Undefined));
    assert_eq!(cells.len(), 1);
    let (reply, left) = run(&mut h, &mut i, |i| {
        let mut reg = Registry { cells: cells.clone() };
        let reply = registry_unregister(i, &mut reg, r, &[token]);
        (reply, reg.cells.len())
    });
    assert_eq!((reply, left), (Ok(Value::Bool(true)), 0));
    // A registered symbol cannot be held weakly, and a target not with itself.
    for args in [[Value::Sym(7), n(1.0), Value::Undefined], [target, target, Value::Undefined], [target, n(1.0), n(2.0)]] {
        let e = run(&mut h, &mut i, |i| {
            let mut reg = Registry::new();
            registry_register(i, &mut reg, r, &args).err()
        }).unwrap();
        assert_eq!(h.name_of_error(e), "TypeError");
    }
}

#[test]
fn iterator_objects() {
    let (mut h, mut i) = fresh();
    let plain = h.counter(1, "x");
    let next = h.get(&mut i, plain, Key::Name("next")).unwrap();
    let r = run(&mut h, &mut i, |i| iterator_from(i, &[plain])).unwrap();
    assert_eq!(r, FromResult::Wrapped { iterator: plain, next });
    let heir = h.counter(1, "x");
    h.at(heir).proto = h.iterator_proto;
    assert_eq!(run(&mut h, &mut i, |i| iterator_from(i, &[heir])), Ok(FromResult::Itself(heir)));
    let home = h.iterator_proto;
    let e = run(&mut h, &mut i, |i| iterator_proto_weird_set(i, home, n(1.0), Key::Name("constructor"))).unwrap_err();
    assert_eq!(h.name_of_error(e), "TypeError");
    run(&mut h, &mut i, |i| iterator_proto_weird_set(i, plain, n(1.0), Key::Name("constructor"))).unwrap();
    assert_eq!(h.get(&mut i, plain, Key::Name("constructor")), Ok(n(1.0)));
}

#[test]
fn generators_report_what_their_code_did() {
    let (mut h, mut i) = fresh();
    let g = h.make(Kind::Ordinary);
    for (k, want) in [(0, Some(5.0)), (2, None)] {
        h.generator = vec![k];
        let r = run(&mut h, &mut i, |i| drive_generator(i, g, Resume::Next(Value::Undefined)));
        assert_eq!(value_in(&mut h, &mut i, r), want);
    }
    h.generator = vec![3];
    let r = run(&mut h, &mut i, |i| drive_generator(i, g, Resume::Next(Value::Undefined)));
    assert_eq!(r, Err(n(5.0)));
    h.generator = vec![4];
    let e = run(&mut h, &mut i, |i| drive_generator(i, g, Resume::Next(Value::Undefined))).unwrap_err();
    assert_eq!(h.name_of_error(e), "TypeError");
    let e = run(&mut h, &mut i, |i| drive_generator(i, n(1.0), Resume::Next(Value::Undefined))).unwrap_err();
    assert_eq!(h.name_of_error(e), "TypeError");
}

fn resume(h: &mut Host, i: &mut Interp, c: &mut FromAsyncCoro, signal: Resume) -> Suspend {
    let (r, after) = run(h, i, |i| {
        let mut copy = *c;
        let r = copy.resume(i, signal);
        (r, copy)
    });
    *c = after;
    r
}

#[test]
fn from_async_fills_an_array() {
    let (mut h, mut i) = fresh();
    let source = h.numbers(&[4.0, 5.0]);
    let double = h.function(Act::Double);
    let mut c = FromAsyncCoro::new(Value::Undefined, source, double, Value::Undefined);
    assert!(!c.started());
    let mut signal = Resume::Next(Value::Undefined);
    let mut awaited: Vec<f64> = Vec::new();
    let array = loop {
        match resume(&mut h, &mut i, &mut c, signal) {
            Suspend::Await(v) => {
                awaited.push(of(v));
                signal = Resume::Next(v);
            }
            Suspend::Done(v) => break v,
            Suspend::Throw(e) => panic!("{e:?}"),
        }
    };
    // Each element is awaited, and so is what the mapper makes of it.
    assert_eq!(awaited, [4.0, 8.0, 5.0, 10.0]);
    assert_eq!(numbers_in(&mut h, &mut i, array), [8.0, 10.0]);
    assert!(c.done());
    assert_eq!(resume(&mut h, &mut i, &mut c, signal), Suspend::Done(Value::Undefined));
}

#[test]
fn from_async_closes_its_iterator_after_an_error() {
    let (mut h, mut i) = fresh();
    let source = h.counter(3, "closed");
    let itself = h.function(Act::Itself);
    h.store(source, Name::Symbol(symbol(WellKnown::AsyncIterator)), data(itself));
    let bad = h.function(Act::Throws);
    let mut c = FromAsyncCoro::new(Value::Undefined, source, bad, Value::Undefined);
    let mut signal = Resume::Next(Value::Undefined);
    let thrown = loop {
        match resume(&mut h, &mut i, &mut c, signal) {
            Suspend::Await(v) => signal = Resume::Next(v),
            Suspend::Throw(e) => break e,
            Suspend::Done(v) => panic!("{v:?}"),
        }
    };
    assert_eq!(thrown, n(99.0));
    assert_eq!(h.log, ["closed"]);
    let mut c = FromAsyncCoro::new(Value::Undefined, source, n(1.0), Value::Undefined);
    assert!(matches!(resume(&mut h, &mut i, &mut c, Resume::Next(Value::Undefined)), Suspend::Throw(_)));
    let mut c = FromAsyncCoro::new(Value::Undefined, source, Value::Undefined, Value::Undefined);
    assert_eq!(resume(&mut h, &mut i, &mut c, Resume::Terminate), Suspend::Done(Value::Undefined));
}

#[test]
fn species_and_date_options() {
    let (mut h, mut i) = fresh();
    let default_ctor = h.function(Act::Itself);
    let o = h.object(&[]);
    assert_eq!(run(&mut h, &mut i, |i| species_constructor(i, o, default_ctor)), Ok(default_ctor));
    let odd = h.object(&[("constructor", n(1.0))]);
    let e = run(&mut h, &mut i, |i| species_constructor(i, odd, default_ctor)).unwrap_err();
    assert_eq!(h.name_of_error(e), "TypeError");
    let r = run(&mut h, &mut i, |i| date_style_default(i, Value::Undefined, true)).unwrap();
    let year = h.get(&mut i, r, Key::Name("year")).unwrap();
    assert_eq!(text(&i, year), "numeric");
    assert_eq!(h.get(&mut i, r, Key::Name("hour")), Ok(Value::Undefined));
    let long = s(&mut i, "long");
    let options = h.object(&[("month", long)]);
    let r = run(&mut h, &mut i, |i| date_style_default(i, options, true)).unwrap();
    assert_eq!(h.get(&mut i, r, Key::Name("year")), Ok(Value::Undefined));
    assert_eq!(h.get(&mut i, r, Key::Name("month")), Ok(long));
    let e = run(&mut h, &mut i, |i| date_style_default(i, n(1.0), true)).unwrap_err();
    assert_eq!(h.name_of_error(e), "TypeError");
    let bytes = h.make(Kind::Typed(3, 4));
    assert_eq!(run(&mut h, &mut i, |i| ta_bytelength_get(i, bytes)), Ok(n(12.0)));
    let e = run(&mut h, &mut i, |i| ta_bytelength_get(i, o)).unwrap_err();
    assert_eq!(h.name_of_error(e), "TypeError");
}

#[test]
fn the_library_installs_in_order() {
    let (mut h, mut i) = fresh();
    run(&mut h, &mut i, |i| install(i));
    let place = |t: &str| h.log.iter().position(|x| x == t).unwrap_or_else(|| panic!("{t}"));
    assert!(place("FunctionPrototype") < place("hasOwnProperty/1"));
    assert!(place("Symbols") < place("flatMap/1"));
    assert!(place("push/1") < place("charCodeAt/1"));
    assert!(place("charCodeAt/1") < place("Numbers"));
    assert!(place("RegExps") < place("encodeURIComponent/1"));
    assert!(place("encodeURIComponent/1") < place("deref/0"));
    assert_eq!(h.log.last().map(|x| x.as_str()), Some("Temporal"));
    assert!(!h.log.contains(&"Intl".to_string()));
}

fn error_of(h: &mut Host, r: Result<Value, Value>) -> &'static str {
    match r {
        Ok(v) => panic!("{v:?}"),
        Err(e) => h.name_of_error(e),
    }
}

#[test]
fn arrays_are_shifted_filled_and_turned() {
    let (mut h, mut i) = fresh();
    let a = h.numbers(&[1.0, 2.0, 3.0]);
    assert_eq!(run(&mut h, &mut i, |i| array_shift(i, a, LIMIT)), Ok(n(1.0)));
    assert_eq!(numbers_in(&mut h, &mut i, a), [2.0, 3.0]);
    assert_eq!(run(&mut h, &mut i, |i| array_unshift(i, a, &[n(8.0), n(9.0)])), Ok(n(4.0)));
    assert_eq!(numbers_in(&mut h, &mut i, a), [8.0, 9.0, 2.0, 3.0]);
    assert_eq!(run(&mut h, &mut i, |i| array_reverse(i, a)), Ok(a));
    assert_eq!(numbers_in(&mut h, &mut i, a), [3.0, 2.0, 9.0, 8.0]);
    run(&mut h, &mut i, |i| array_fill(i, a, &[n(0.0), n(-2.0)], LIMIT)).unwrap();
    assert_eq!(numbers_in(&mut h, &mut i, a), [3.0, 2.0, 0.0, 0.0]);
    let b = h.numbers(&[1.0, 2.0, 3.0, 4.0, 5.0]);
    run(&mut h, &mut i, |i| array_copy_within(i, b, &[n(1.0), n(0.0), n(3.0)])).unwrap();
    assert_eq!(numbers_in(&mut h, &mut i, b), [1.0, 1.0, 2.0, 3.0, 5.0]);
    assert_eq!(run(&mut h, &mut i, |i| array_last_index_of(i, b, &[n(1.0)])), Ok(n(1.0)));
    assert_eq!(run(&mut h, &mut i, |i| array_last_index_of(i, b, &[n(1.0), n(-5.0)])), Ok(n(0.0)));
    assert_eq!(run(&mut h, &mut i, |i| array_at(i, b, &[n(-1.0)], LIMIT)), Ok(n(5.0)));
    assert_eq!(run(&mut h, &mut i, |i| array_at(i, b, &[n(5.0)], LIMIT)), Ok(Value::Undefined));
    let empty = h.array(&[]);
    assert_eq!(run(&mut h, &mut i, |i| array_shift(i, empty, LIMIT)), Ok(Value::Undefined));
}

#[test]
fn changed_copies_leave_the_array_alone() {
    let (mut h, mut i) = fresh();
    let a = h.numbers(&[3.0, 1.0, 2.0]);
    let r = run(&mut h, &mut i, |i| array_to_reversed(i, a, LIMIT)).unwrap();
    assert_eq!(numbers_in(&mut h, &mut i, r), [2.0, 1.0, 3.0]);
    let r = run(&mut h, &mut i, |i| array_to_sorted(i, a, &[], LIMIT)).unwrap();
    assert_eq!(numbers_in(&mut h, &mut i, r), [1.0, 2.0, 3.0]);
    let r = run(&mut h, &mut i, |i| array_with(i, a, &[n(-1.0), n(7.0)], LIMIT)).unwrap();
    assert_eq!(numbers_in(&mut h, &mut i, r), [3.0, 1.0, 7.0]);
    let r = run(&mut h, &mut i, |i| array_to_spliced(i, a, &[n(1.0), n(1.0), n(5.0), n(6.0)], LIMIT)).unwrap();
    assert_eq!(numbers_in(&mut h, &mut i, r), [3.0, 5.0, 6.0, 2.0]);
    assert_eq!(numbers_in(&mut h, &mut i, a), [3.0, 1.0, 2.0]);
    let r = run(&mut h, &mut i, |i| array_with(i, a, &[n(3.0), n(7.0)], LIMIT));
    assert_eq!(error_of(&mut h, r), "RangeError");
    let r = run(&mut h, &mut i, |i| array_to_sorted(i, a, &[n(1.0)], LIMIT));
    assert_eq!(error_of(&mut h, r), "TypeError");
}

#[test]
fn comparator_sorting_is_stable() {
    let (mut h, mut i) = fresh();
    // Equal under the order: every pair of objects, whose `toString` gives no Number.
    let objects: Vec<Value> = (0..6).map(|k| h.object(&[("k", n(k as f64))])).collect();
    let a = h.array(&objects);
    let order = h.function(Act::Itself);
    run(&mut h, &mut i, |i| array_sort(i, a, &[order], LIMIT)).unwrap();
    for k in 0..6 {
        assert_eq!(h.get(&mut i, a, Key::Index(k)), Ok(objects[k as usize]));
    }
    let by_difference = h.function(Act::Difference);
    let b = h.numbers(&[5.0, 1.0, 4.0, 1.0, 3.0, 9.0, 2.0]);
    run(&mut h, &mut i, |i| array_sort(i, b, &[by_difference], LIMIT)).unwrap();
    assert_eq!(numbers_in(&mut h, &mut i, b), [1.0, 1.0, 2.0, 3.0, 4.0, 5.0, 9.0]);
}

#[test]
fn arrays_are_found_in_and_built() {
    let (mut h, mut i) = fresh();
    let a = h.numbers(&[1.0, 4.0, 6.0]);
    let even = h.function(Act::Even);
    let double = h.function(Act::Double);
    let note = h.function(Act::Note);
    assert_eq!(run(&mut h, &mut i, |i| array_find(i, a, &[even], true, false)), Ok(n(4.0)));
    assert_eq!(run(&mut h, &mut i, |i| array_find(i, a, &[even], true, true)), Ok(n(6.0)));
    assert_eq!(run(&mut h, &mut i, |i| array_find(i, a, &[even], false, false)), Ok(n(1.0)));
    let odd = h.numbers(&[1.0]);
    assert_eq!(run(&mut h, &mut i, |i| array_find(i, odd, &[even], false, true)), Ok(n(-1.0)));
    assert_eq!(run(&mut h, &mut i, |i| array_find(i, odd, &[even], true, true)), Ok(Value::Undefined));
    assert_eq!(run(&mut h, &mut i, |i| array_for_each(i, odd, &[note])), Ok(Value::Undefined));
    assert_eq!(h.log, ["1,0,NaN"]);
    let r = run(&mut h, &mut i, |i| array_flat_map(i, a, &[double])).unwrap();
    assert_eq!(numbers_in(&mut h, &mut i, r), [2.0, 8.0, 12.0]);
    let r = run(&mut h, &mut i, |i| array_of_method(i, Value::Undefined, &[n(7.0), n(8.0)])).unwrap();
    assert_eq!(numbers_in(&mut h, &mut i, r), [7.0, 8.0]);
    let like = h.object(&[("length", n(2.0)), ("0", n(5.0)), ("1", n(6.0))]);
    let r = run(&mut h, &mut i, |i| array_from(i, Value::Undefined, &[like, double])).unwrap();
    assert_eq!(numbers_in(&mut h, &mut i, r), [10.0, 12.0]);
    let r = run(&mut h, &mut i, |i| nf_array_ctor(i, &[n(3.0)])).unwrap();
    assert_eq!(h.get(&mut i, r, Key::Name("length")), Ok(n(3.0)));
    assert_eq!(h.at(r).props.len(), 1);
    let r = run(&mut h, &mut i, |i| nf_array_ctor(i, &[n(3.0), n(4.0)])).unwrap();
    assert_eq!(numbers_in(&mut h, &mut i, r), [3.0, 4.0]);
    let r = run(&mut h, &mut i, |i| nf_array_ctor(i, &[n(1.5)]));
    assert_eq!(error_of(&mut h, r), "RangeError");
    let join = h.function(Act::Says("joined"));
    let joins = h.object(&[("join", join)]);
    let r = run(&mut h, &mut i, |i| array_to_string(i, joins)).unwrap();
    assert_eq!(text(&i, r), "joined");
}

#[test]
fn accessors_are_defined_and_looked_up() {
    let (mut h, mut i) = fresh();
    let x = s(&mut i, "x");
    let o = h.object(&[]);
    let f = h.function(Act::Says("got"));
    run(&mut h, &mut i, |i| define_accessor(i, o, &[x, f], true)).unwrap();
    assert_eq!(run(&mut h, &mut i, |i| lookup_accessor(i, o, &[x], true)), Ok(f));
    assert_eq!(run(&mut h, &mut i, |i| lookup_accessor(i, o, &[x], false)), Ok(Value::Undefined));
    let child = h.object(&[]);
    h.at(child).proto = o;
    assert_eq!(run(&mut h, &mut i, |i| lookup_accessor(i, child, &[x], true)), Ok(f));
    let r = run(&mut h, &mut i, |i| define_accessor(i, o, &[x, n(1.0)], true));
    assert_eq!(error_of(&mut h, r), "TypeError");
    assert_eq!(run(&mut h, &mut i, |i| object_property_is_enumerable(i, o, &[x])), Ok(Value::Bool(true)));
    let y = s(&mut i, "y");
    assert_eq!(run(&mut h, &mut i, |i| object_property_is_enumerable(i, o, &[y])), Ok(Value::Bool(false)));
}

#[test]
fn prototypes_are_read_and_written() {
    let (mut h, mut i) = fresh();
    let o = h.object(&[]);
    let p = h.object(&[]);
    assert_eq!(run(&mut h, &mut i, |i| object_is_prototype_of(i, p, &[o])), Ok(Value::Bool(false)));
    assert_eq!(run(&mut h, &mut i, |i| object_set_prototype_of(i, &[o, p])), Ok(o));
    assert_eq!(run(&mut h, &mut i, |i| object_is_prototype_of(i, p, &[o])), Ok(Value::Bool(true)));
    assert_eq!(run(&mut h, &mut i, |i| object_get_prototype_of(i, &[o])), Ok(p));
    assert_eq!(run(&mut h, &mut i, |i| get_proto(i, o)), Ok(p));
    // A cycle is refused.
    let r = run(&mut h, &mut i, |i| object_set_prototype_of(i, &[p, o]));
    assert_eq!(error_of(&mut h, r), "TypeError");
    let r = run(&mut h, &mut i, |i| object_set_prototype_of(i, &[p, n(1.0)]));
    assert_eq!(error_of(&mut h, r), "TypeError");
    assert_eq!(run(&mut h, &mut i, |i| set_proto(i, o, &[Value::Null])), Ok(Value::Undefined));
    assert_eq!(h.at(o).proto, Value::Null);
    assert_eq!(run(&mut h, &mut i, |i| set_proto(i, o, &[n(1.0)])), Ok(Value::Undefined));
    assert_eq!(h.at(o).proto, Value::Null);
    let made = run(&mut h, &mut i, |i| object_create(i, &[p])).unwrap();
    assert_eq!(h.at(made).proto, p);
    let r = run(&mut h, &mut i, |i| object_create(i, &[Value::Undefined]));
    assert_eq!(error_of(&mut h, r), "TypeError");
    assert_eq!(run(&mut h, &mut i, |i| object_prevent_extensions(i, &[made])), Ok(made));
    assert!(!h.at(made).extensible);
    let r = run(&mut h, &mut i, |i| object_set_prototype_of(i, &[made, o]));
    assert_eq!(error_of(&mut h, r), "TypeError");
    assert_eq!(run(&mut h, &mut i, |i| object_set_prototype_of(i, &[made, p])), Ok(made));
}

#[test]
fn properties_are_defined_and_described() {
    let (mut h, mut i) = fresh();
    let x = s(&mut i, "x");
    let o = h.object(&[]);
    let d = h.object(&[("value", n(4.0)), ("enumerable", Value::Bool(true))]);
    assert_eq!(run(&mut h, &mut i, |i| object_define_property(i, &[o, x, d])), Ok(o));
    let p = h.own(o, &Name::Text(units("x"))).unwrap();
    assert_eq!(p, Property::new_data(n(4.0), false, true, false));
    let other = h.object(&[("value", n(5.0))]);
    let r = run(&mut h, &mut i, |i| object_define_property(i, &[o, x, other]));
    assert_eq!(error_of(&mut h, r), "TypeError");
    let getter = h.function(Act::Itself);
    let both = h.object(&[("value", n(5.0)), ("get", getter)]);
    let y = s(&mut i, "y");
    let r = run(&mut h, &mut i, |i| object_define_property(i, &[o, y, both]));
    assert_eq!(error_of(&mut h, r), "TypeError");
    let desc = run(&mut h, &mut i, |i| object_get_own_property_descriptor(i, &[o, x])).unwrap();
    assert_eq!(h.get(&mut i, desc, Key::Name("value")), Ok(n(4.0)));
    assert_eq!(h.get(&mut i, desc, Key::Name("writable")), Ok(Value::Bool(false)));
    assert_eq!(run(&mut h, &mut i, |i| object_get_own_property_descriptor(i, &[o, y])), Ok(Value::Undefined));
    let all = run(&mut h, &mut i, |i| object_get_own_property_descriptors(i, &[o])).unwrap();
    let of_x = h.get(&mut i, all, Key::Name("x")).unwrap();
    assert_eq!(h.get(&mut i, of_x, Key::Name("enumerable")), Ok(Value::Bool(true)));
    let more = h.object(&[("z", d)]);
    assert_eq!(run(&mut h, &mut i, |i| object_define_properties_method(i, &[o, more])), Ok(o));
    let names = run(&mut h, &mut i, |i| object_own_names(i, &[o], false)).unwrap();
    assert_eq!(h.get(&mut i, names, Key::Name("length")), Ok(n(2.0)));
    h.store(o, Name::Symbol(7), data(n(1.0)));
    let symbols = run(&mut h, &mut i, |i| object_own_names(i, &[o], true)).unwrap();
    assert_eq!(h.get(&mut i, symbols, Key::Index(0)), Ok(Value::Sym(7)));
}

#[test]
fn objects_are_built_from_entries_and_groups() {
    let (mut h, mut i) = fresh();
    let a = s(&mut i, "a");
    let e1 = h.array(&[a, n(1.0)]);
    let e2 = h.array(&[a, n(2.0)]);
    let entries = h.array(&[e1, e2]);
    let o = run(&mut h, &mut i, |i| object_from_entries(i, &[entries])).unwrap();
    assert_eq!(h.get(&mut i, o, Key::Name("a")), Ok(n(2.0)));
    let bad = h.array(&[n(1.0)]);
    let r = run(&mut h, &mut i, |i| object_from_entries(i, &[bad]));
    assert_eq!(error_of(&mut h, r), "TypeError");
    assert_eq!(h.log, ["array closed"]);
    let items = h.numbers(&[1.0, 2.0, 3.0, 4.0]);
    let even = h.function(Act::Even);
    let groups = run(&mut h, &mut i, |i| object_group_by(i, &[items, even])).unwrap();
    let g = h.get(&mut i, groups, Key::Name("true")).unwrap();
    assert_eq!(numbers_in(&mut h, &mut i, g), [2.0, 4.0]);
    assert_eq!(h.at(groups).proto, Value::Null);
    let map = run(&mut h, &mut i, |i| map_group_by(i, &[items, even])).unwrap();
    let g = h.call_native(&mut i, Builtin::MapGet, map, &[Value::Bool(false)]).unwrap();
    assert_eq!(numbers_in(&mut h, &mut i, g), [1.0, 3.0]);
    let r = run(&mut h, &mut i, |i| object_constructor(i, &[o]));
    assert_eq!(r, Ok(o));
    let says = h.function(Act::Says("here"));
    let talks = h.object(&[("toString", says)]);
    let r = run(&mut h, &mut i, |i| object_to_locale_string(i, talks)).unwrap();
    assert_eq!(text(&i, r), "here");
}

#[test]
fn ordinary_reads_and_writes_go_through_prototypes() {
    let (mut h, mut i) = fresh();
    let x = s(&mut i, "x");
    let parent = h.object(&[("x", n(1.0))]);
    let o = h.object(&[]);
    h.at(o).proto = parent;
    assert_eq!(run(&mut h, &mut i, |i| reflect_ordinary_get(i, o, x, o)), Ok(n(1.0)));
    assert_eq!(run(&mut h, &mut i, |i| reflect_ordinary_set(i, o, x, n(2.0), o)), Ok(true));
    assert_eq!(h.own(o, &Name::Text(units("x"))), Some(data(n(2.0))));
    assert_eq!(h.own(parent, &Name::Text(units("x"))), Some(data(n(1.0))));
    assert_eq!(run(&mut h, &mut i, |i| reflect_ordinary_set(i, o, x, n(2.0), n(1.0))), Ok(false));
    let fixed = h.object(&[]);
    h.store(fixed, Name::Text(units("x")), Property::new_data(n(3.0), false, true, false));
    assert_eq!(run(&mut h, &mut i, |i| reflect_ordinary_set(i, fixed, x, n(2.0), fixed)), Ok(false));
    let e = run(&mut h, &mut i, |i| delete_or_throw(i, fixed, x)).unwrap_err();
    assert_eq!(h.name_of_error(e), "TypeError");
    assert_eq!(run(&mut h, &mut i, |i| delete_or_throw(i, o, x)), Ok(()));
    assert_eq!(h.own(o, &Name::Text(units("x"))), None);
    assert_eq!(run(&mut h, &mut i, |i| cdp_or_throw(i, o, x, n(6.0))), Ok(()));
    assert_eq!(h.own(o, &Name::Text(units("x"))), Some(data(n(6.0))));
    let e = run(&mut h, &mut i, |i| cdp_or_throw(i, fixed, x, n(6.0))).unwrap_err();
    assert_eq!(h.name_of_error(e), "TypeError");
}

fn members(h: &mut Host, v: Value) -> Vec<f64> {
    h.internal(v).unwrap().entries.live_keys().into_iter().map(of).collect()
}

#[test]
fn sets_meet_and_differ() {
    let (mut h, mut i) = fresh();
    let set = h.set_of(vec![n(7.0), n(2.0), n(1.0)]);
    let has = h.function(Act::HasSmall);
    let keys = h.function(Act::Keys);
    // Holds 0 to 3 by its keys, and what is below 3 by its test.
    let other = h.object(&[("size", n(4.0)), ("has", has), ("keys", keys)]);
    let r = run(&mut h, &mut i, |i| set_intersection(i, set, &[other])).unwrap();
    assert_eq!(members(&mut h, r), [2.0, 1.0]);
    let r = run(&mut h, &mut i, |i| set_difference(i, set, &[other])).unwrap();
    assert_eq!(members(&mut h, r), [7.0]);
    let r = run(&mut h, &mut i, |i| set_symmetric_difference(i, set, &[other])).unwrap();
    assert_eq!(members(&mut h, r), [7.0, 0.0, 3.0]);
    assert_eq!(run(&mut h, &mut i, |i| set_is_superset_of(i, set, &[other])), Ok(Value::Bool(false)));
    let all = h.set_of((0..6).map(|k| n(k as f64)).collect());
    assert_eq!(run(&mut h, &mut i, |i| set_is_superset_of(i, all, &[other])), Ok(Value::Bool(true)));
    assert_eq!(run(&mut h, &mut i, |i| set_is_disjoint_from(i, set, &[other])), Ok(Value::Bool(false)));
    let far = h.set_of(vec![n(9.0)]);
    assert_eq!(run(&mut h, &mut i, |i| set_is_disjoint_from(i, far, &[other])), Ok(Value::Bool(true)));
    let odd = h.object(&[("size", n(f64::NAN)), ("has", has), ("keys", keys)]);
    let r = run(&mut h, &mut i, |i| set_union(i, set, &[odd]));
    assert_eq!(error_of(&mut h, r), "TypeError");
    let odd = h.object(&[("size", n(-1.0)), ("has", has), ("keys", keys)]);
    let r = run(&mut h, &mut i, |i| set_union(i, set, &[odd]));
    assert_eq!(error_of(&mut h, r), "RangeError");
}

fn entries(h: &mut Host, i: &mut Interp, m: Value, args: &[Value], op: Builtin) -> Result<Value, Value> {
    h.call_native(i, op, m, args)
}

#[test]
fn maps_keep_entries_in_order() {
    let (mut h, mut i) = fresh();
    h.new_target = h.object_proto;
    let pair = h.numbers(&[1.0, 10.0]);
    let again = h.numbers(&[-0.0, 20.0]);
    let source = h.array(&[pair, again]);
    // Entries go in by the map's own `set`.
    let adder = h.function(Act::Note);
    let proto = h.object_proto;
    h.store(proto, Name::Text(units("set")), data(adder));
    let m = run(&mut h, &mut i, |i| collection_ctor(i, &[source], Brand::MapData, false)).unwrap();
    assert_eq!(h.log, ["1,10", "-0,20"]);
    assert_eq!(entries(&mut h, &mut i, m, &[n(1.0), n(10.0)], Builtin::MapStore), Ok(m));
    assert_eq!(entries(&mut h, &mut i, m, &[n(-0.0), n(20.0)], Builtin::MapStore), Ok(m));
    assert_eq!(entries(&mut h, &mut i, m, &[n(0.0)], Builtin::MapGet), Ok(n(20.0)));
    assert_eq!(entries(&mut h, &mut i, m, &[], Builtin::MapSize), Ok(n(2.0)));
    let mut it = run(&mut h, &mut i, |i| collection_iter_kind(i, m, EntryKind::Keys, Brand::MapData)).unwrap();
    let mut seen: Vec<Option<f64>> = Vec::new();
    for k in 0..4 {
        let start = it;
        let (r, after) = run(&mut h, &mut i, |i| {
            let mut copy = start;
            let r = map_set_iter_next(i, &mut copy);
            (r, copy)
        });
        it = after;
        seen.push(value_in(&mut h, &mut i, r));
        if k == 0 {
            // What is deleted is skipped, what is added is reached.
            assert_eq!(entries(&mut h, &mut i, m, &[n(0.0)], Builtin::MapDelete), Ok(Value::Bool(true)));
            entries(&mut h, &mut i, m, &[n(5.0), n(50.0)], Builtin::MapStore).unwrap();
        }
    }
    assert_eq!(seen, [Some(1.0), Some(5.0), None, None]);
    h.log.clear();
    let note = h.function(Act::Note);
    run(&mut h, &mut i, |i| collection_for_each(i, m, &[note], Brand::MapData)).unwrap();
    assert_eq!(h.log, ["10,1,NaN", "50,5,NaN"]);
    assert_eq!(h.call_native(&mut i, Builtin::MapGetOrInsert, m, &[n(1.0), n(0.0)]), Ok(n(10.0)));
    assert_eq!(h.call_native(&mut i, Builtin::MapGetOrInsert, m, &[n(3.0), n(30.0)]), Ok(n(30.0)));
    let double = h.function(Act::Double);
    assert_eq!(h.call_native(&mut i, Builtin::MapGetOrInsertComputed, m, &[n(4.0), double]), Ok(n(8.0)));
    assert_eq!(entries(&mut h, &mut i, m, &[n(4.0)], Builtin::MapHas), Ok(Value::Bool(true)));
    entries(&mut h, &mut i, m, &[], Builtin::MapClear).unwrap();
    assert_eq!(entries(&mut h, &mut i, m, &[], Builtin::MapSize), Ok(n(0.0)));
    let o = h.object(&[]);
    let r = entries(&mut h, &mut i, o, &[n(4.0)], Builtin::MapHas);
    assert_eq!(error_of(&mut h, r), "TypeError");
    h.new_target = Value::Undefined;
    let r = run(&mut h, &mut i, |i| collection_ctor(i, &[], Brand::MapData, false));
    assert_eq!(error_of(&mut h, r), "TypeError");
}

#[test]
fn weak_collections_hold_objects_and_symbols() {
    let (mut h, mut i) = fresh();
    let m = h.object(&[]);
    h.give_internal(m, Brand::WeakMapData);
    let k = h.object(&[]);
    assert_eq!(h.call_native(&mut i, Builtin::WeakMapStore, m, &[k, n(1.0)]), Ok(m));
    assert_eq!(h.call_native(&mut i, Builtin::WeakMapGetOrInsert, m, &[k, n(2.0)]), Ok(n(1.0)));
    let double = h.function(Act::Double);
    let fresh_key = h.object(&[]);
    let r = h.call_native(&mut i, Builtin::WeakMapGetOrInsertComputed, m, &[fresh_key, double]).unwrap();
    assert!(of(r).is_nan());
    assert_eq!(h.call_native(&mut i, Builtin::WeakMapStore, m, &[Value::Sym(3), n(1.0)]), Ok(m));
    // A registered symbol is never collected.
    let r = h.call_native(&mut i, Builtin::WeakMapStore, m, &[Value::Sym(7), n(1.0)]);
    assert_eq!(error_of(&mut h, r), "TypeError");
    let r = h.call_native(&mut i, Builtin::WeakMapStore, m, &[n(1.0), n(1.0)]);
    assert_eq!(error_of(&mut h, r), "TypeError");
    h.new_target = h.object_proto;
    let r = run(&mut h, &mut i, |i| weak_ref_constructor(i, &[k])).unwrap();
    assert_eq!(run(&mut h, &mut i, |i| weak_ref_deref(i, r)), Ok(k));
    let r = run(&mut h, &mut i, |i| weak_ref_constructor(i, &[n(1.0)]));
    assert_eq!(error_of(&mut h, r), "TypeError");
    let r = run(&mut h, &mut i, |i| registry_constructor(i, &[double])).unwrap();
    assert!(matches!(h.at(r).kind, Kind::Registry));
    let r = run(&mut h, &mut i, |i| registry_constructor(i, &[n(1.0)]));
    assert_eq!(error_of(&mut h, r), "TypeError");
}

#[test]
fn iterators_are_searched() {
    let (mut h, mut i) = fresh();
    let even = h.function(Act::Even);
    let note = h.function(Act::Note);
    let c = h.counter(4, "closed");
    assert_eq!(run(&mut h, &mut i, |i| iterator_find(i, c, &[even])), Ok(n(0.0)));
    assert_eq!(h.log, ["closed"]);
    let c = h.counter(4, "closed");
    assert_eq!(run(&mut h, &mut i, |i| iter_some_every(i, c, &[even], true)), Ok(Value::Bool(true)));
    let c = h.counter(4, "closed");
    assert_eq!(run(&mut h, &mut i, |i| iter_some_every(i, c, &[even], false)), Ok(Value::Bool(false)));
    let c = h.counter(4, "closed");
    assert_eq!(run(&mut h, &mut i, |i| iterator_includes(i, c, &[n(2.0)])), Ok(Value::Bool(true)));
    assert_eq!(h.log, ["closed", "closed", "closed", "closed"]);
    h.log.clear();
    let c = h.counter(2, "closed");
    assert_eq!(run(&mut h, &mut i, |i| iterator_for_each(i, c, &[note])), Ok(Value::Undefined));
    assert_eq!(h.log, ["0,0", "1,1"]);
    let c = h.counter(2, "closed");
    let r = run(&mut h, &mut i, |i| iterator_for_each(i, c, &[n(1.0)]));
    assert_eq!(error_of(&mut h, r), "TypeError");
    let c = h.counter(2, "ended");
    let next = h.get(&mut i, c, Key::Name("next")).unwrap();
    let r = run(&mut h, &mut i, |i| wrap_next(i, c, next));
    assert_eq!(value_in(&mut h, &mut i, r), Some(0.0));
    h.log.clear();
    run(&mut h, &mut i, |i| wrap_return(i, c)).unwrap();
    assert_eq!(h.log, ["ended"]);
    run(&mut h, &mut i, |i| iterator_dispose(i, c));
    assert_eq!(h.log, ["ended", "ended"]);
    let r = run(&mut h, &mut i, |i| iterator_constructor(i, Value::Undefined));
    assert_eq!(error_of(&mut h, r), "TypeError");
}

fn said(h: &mut Host, i: &mut Interp, f: impl Fn(&mut Interp) -> Result<Value, Value>) -> String {
    let r = run(h, i, f).unwrap();
    text(i, r)
}

#[test]
fn strings_are_cut() {
    let (mut h, mut i) = fresh();
    let t = s(&mut i, "  abcabc ");
    let abc = s(&mut i, "abcabc");
    let bc = s(&mut i, "bc");
    assert_eq!(said(&mut h, &mut i, |i| nf_char_at(i, abc, &[n(2.0)])), "c");
    assert_eq!(said(&mut h, &mut i, |i| nf_char_at(i, abc, &[n(6.0)])), "");
    assert_eq!(said(&mut h, &mut i, |i| nf_string_slice(i, abc, &[n(-2.0)])), "bc");
    assert_eq!(said(&mut h, &mut i, |i| string_substring(i, abc, &[n(4.0), n(1.0)])), "bca");
    assert_eq!(said(&mut h, &mut i, |i| string_substr(i, abc, &[n(-3.0), n(2.0)])), "ab");
    assert_eq!(said(&mut h, &mut i, |i| string_trim(i, t, true, false)), "abcabc ");
    assert_eq!(said(&mut h, &mut i, |i| string_trim(i, t, true, true)), "abcabc");
    assert_eq!(run(&mut h, &mut i, |i| string_last_index_of(i, abc, &[bc])), Ok(n(4.0)));
    assert_eq!(run(&mut h, &mut i, |i| string_last_index_of(i, abc, &[bc, n(3.0)])), Ok(n(1.0)));
    let face = s(&mut i, "\u{1F600}x");
    assert_eq!(run(&mut h, &mut i, |i| string_code_point_at(i, face, &[n(0.0)])), Ok(n(0x1F600 as f64)));
    assert_eq!(run(&mut h, &mut i, |i| string_code_point_at(i, face, &[n(1.0)])), Ok(n(0xDE00 as f64)));
    assert_eq!(run(&mut h, &mut i, |i| string_code_point_at(i, face, &[n(9.0)])), Ok(Value::Undefined));
    let lone = Value::Str(i.intern(vec![0x61, 0xD800]));
    assert_eq!(run(&mut h, &mut i, |i| string_is_well_formed(i, lone)), Ok(Value::Bool(false)));
    assert_eq!(said(&mut h, &mut i, |i| string_to_well_formed(i, lone)), "a\u{FFFD}");
    assert_eq!(said(&mut h, &mut i, |i| string_concat(i, abc, &[n(1.0), bc], 100)), "abcabc1bc");
    let r = run(&mut h, &mut i, |i| string_concat(i, abc, &[bc], 7));
    assert_eq!(error_of(&mut h, r), "RangeError");
    let quoted = s(&mut i, "a\"b");
    let (a, name) = (units("a"), units("name"));
    assert_eq!(said(&mut h, &mut i, |i| string_html(i, bc, &a, &name, quoted)), "<a name=\"a&quot;b\">bc</a>");
    let it = run(&mut h, &mut i, |i| nf_string_iterator(i, face)).unwrap();
    let mut it = it;
    let first = string_iter_next_value(&mut h, &mut i, &mut it);
    assert_eq!(first, Some("\u{1F600}".to_string()));
    let boxed = h.make(Kind::Text(units("in")));
    assert_eq!(said(&mut h, &mut i, |i| string_this_value(i, boxed)), "in");
    let r = run(&mut h, &mut i, |i| string_this_value(i, n(1.0)));
    assert_eq!(error_of(&mut h, r), "TypeError");
    let number = h.make(Kind::Boxed(n(4.0)));
    assert_eq!(run(&mut h, &mut i, |i| this_number(i, number)), Ok(4f64.to_bits()));
    assert!(run(&mut h, &mut i, |i| this_number(i, boxed)).is_err());
    let r = run(&mut h, &mut i, |i| nf_char_at(i, Value::Null, &[n(2.0)]));
    assert_eq!(error_of(&mut h, r), "TypeError");
}

fn string_iter_next_value(h: &mut Host, i: &mut Interp, it: &mut StringIter) -> Option<String> {
    let start = *it;
    let (r, after) = run(h, i, |i| {
        let mut copy = start;
        let r = string_iter_next(i, &mut copy);
        (r, copy)
    });
    *it = after;
    let r = r.unwrap();
    match h.get(i, r, Key::Name("done")).unwrap() {
        Value::Bool(true) => None,
        _ => {
            let v = h.get(i, r, Key::Name("value")).unwrap();
            Some(text(i, v))
        }
    }
}

#[test]
fn uris_and_numbers_are_read() {
    let (mut h, mut i) = fresh();
    let t = s(&mut i, "a b/\u{e9}");
    assert_eq!(said(&mut h, &mut i, |i| global_encode_uri(i, &[t], true)), "a%20b/%C3%A9");
    assert_eq!(said(&mut h, &mut i, |i| global_encode_uri(i, &[t], false)), "a%20b%2F%C3%A9");
    assert_eq!(said(&mut h, &mut i, |i| global_escape(i, &[t])), "a%20b/%E9");
    let e = s(&mut i, "%u0107%20");
    assert_eq!(said(&mut h, &mut i, |i| global_unescape(i, &[e])), "\u{107} ");
    let lone = Value::Str(i.intern(vec![0xDC00]));
    let r = run(&mut h, &mut i, |i| global_encode_uri(i, &[lone], true));
    assert_eq!(error_of(&mut h, r), "URIError");
    let hex = s(&mut i, " -0x1Fz");
    let r = run(&mut h, &mut i, |i| global_parse_int(i, &[hex])).unwrap().unwrap();
    assert!(r.negative);
    assert_eq!((r.radix, r.digits), (16, vec![1, 15]));
    let word = s(&mut i, "zz");
    assert!(run(&mut h, &mut i, |i| global_parse_int(i, &[word])).unwrap().is_none());
    let code = s(&mut i, "1 + 1");
    assert_eq!(run(&mut h, &mut i, |i| global_eval(i, &[code])), Ok(code));
    assert_eq!(run(&mut h, &mut i, |i| global_eval(i, &[n(2.0)])), Ok(n(2.0)));
    run(&mut h, &mut i, |i| global_print(i, &[n(1.0), word])).unwrap();
    assert_eq!(h.log, ["1"]);
    assert!(run(&mut h, &mut i, |i| global_parse_float(i, &[word])).is_ok());
}

#[test]
fn patterns_are_matched_and_searched() {
    let (mut h, mut i) = fresh();
    let t = s(&mut i, "xabab");
    let rx = h.make(Kind::RegExp { pattern: units("ab"), global: true });
    h.store(rx, Name::Text(units("lastIndex")), data(n(0.0)));
    let handle = match t {
        Value::Str(x) => x,
        _ => 0,
    };
    let mut it = RegExpStringIter { regexp: rx, string: handle, global: true, unicode: false, done: false };
    let mut seen: Vec<bool> = Vec::new();
    for _ in 0..4 {
        let start = it;
        let (r, after) = run(&mut h, &mut i, |i| {
            let mut copy = start;
            let r = regexp_string_iterator_next(i, &mut copy);
            (r, copy)
        });
        it = after;
        let r = r.unwrap();
        seen.push(h.get(&mut i, r, Key::Name("done")) == Ok(Value::Bool(true)));
    }
    assert_eq!(seen, [false, false, true, true]);
    let p = run(&mut h, &mut i, |i| read_program(i, rx)).unwrap();
    h.store(rx, Name::Text(units("lastIndex")), data(n(4.0)));
    h.log.clear();
    assert_eq!(run(&mut h, &mut i, |i| regexp_literal_match_discard(i, rx, handle, &p)), Ok(()));
    // Each match counts, from the start of the string, and the expression keeps its place.
    assert_eq!(h.log, ["match", "match"]);
    assert_eq!(h.get(&mut i, rx, Key::Name("lastIndex")), Ok(n(4.0)));
    assert_eq!(run(&mut h, &mut i, |i| regexp_exec_discard_direct(i, rx, &p, handle, 0)), Ok(true));
    assert_eq!(h.get(&mut i, rx, Key::Name("lastIndex")), Ok(n(3.0)));
    assert_eq!(run(&mut h, &mut i, |i| regexp_exec_discard_direct(i, rx, &p, handle, 4)), Ok(false));
    assert_eq!(h.get(&mut i, rx, Key::Name("lastIndex")), Ok(n(0.0)));
    h.log.clear();
    assert_eq!(run(&mut h, &mut i, |i| regexp_literal_exec_discard(i, rx, handle)), Ok(()));
    assert_eq!(h.log, ["match"]);
    assert_eq!(run(&mut h, &mut i, |i| regexp_literal_replace_discard(i, rx, handle, &p)), Ok(()));
    assert_eq!(h.log, ["match", "match", "match"]);
    assert_eq!(run(&mut h, &mut i, |i| regexp_exec_discard_fast(i, rx, handle)), Some(Ok(true)));
    assert_eq!(h.get(&mut i, rx, Key::Name("lastIndex")), Ok(n(3.0)));
    h.store(rx, Name::Text(units("lastIndex")), data(n(0.5)));
    assert_eq!(run(&mut h, &mut i, |i| regexp_exec_discard_fast(i, rx, handle)), None);
    assert_eq!(run(&mut h, &mut i, |i| regexp_exec_discard_fast(i, n(1.0), handle)), None);
    let matcher = h.function(Act::Says("matched"));
    let own = h.object(&[]);
    h.store(own, Name::Symbol(symbol(WellKnown::Match)), data(matcher));
    h.store(own, Name::Symbol(symbol(WellKnown::Search)), data(matcher));
    assert_eq!(said(&mut h, &mut i, |i| nf_string_match(i, t, &[own])), "matched");
    assert_eq!(said(&mut h, &mut i, |i| string_search(i, t, &[own])), "matched");
}

#[test]
fn typed_arrays_report_their_shape() {
    let (mut h, mut i) = fresh();
    let bytes = h.make(Kind::Typed(3, 4));
    assert_eq!(run(&mut h, &mut i, |i| ta_length_get(i, bytes)), Ok(n(3.0)));
    assert_eq!(run(&mut h, &mut i, |i| ta_byteoffset_get(i, bytes)), Ok(n(0.0)));
    assert_eq!(run(&mut h, &mut i, |i| ta_buffer_get(i, bytes)), Ok(h.object_proto));
    let o = h.object(&[]);
    let r = run(&mut h, &mut i, |i| ta_length_get(i, o));
    assert_eq!(error_of(&mut h, r), "TypeError");
}

#[test]
fn plain_text_orders_without_intl() {
    let (mut h, mut i) = fresh();
    let a = s(&mut i, "a");
    let b = s(&mut i, "b");
    assert_eq!(run(&mut h, &mut i, |i| string_locale_order(i, a, &[b])), Ok(n(-1.0)));
    assert_eq!(run(&mut h, &mut i, |i| string_locale_order(i, b, &[a])), Ok(n(1.0)));
    assert_eq!(run(&mut h, &mut i, |i| string_locale_order(i, a, &[a])), Ok(n(0.0)));
    let r = run(&mut h, &mut i, |i| date_all_default(i, Value::Undefined)).unwrap();
    let hour = h.get(&mut i, r, Key::Name("hour")).unwrap();
    assert_eq!(text(&i, hour), "numeric");
    let year = h.get(&mut i, r, Key::Name("year")).unwrap();
    assert_eq!(text(&i, year), "numeric");
}

#[test]
fn generator_methods_resume_with_their_argument() {
    let (mut h, mut i) = fresh();
    let g = h.make(Kind::Ordinary);
    h.generator = vec![0];
    let r = run(&mut h, &mut i, |i| generator_next(i, g, &[]));
    assert_eq!(value_in(&mut h, &mut i, r), Some(5.0));
    h.generator = vec![2];
    let r = run(&mut h, &mut i, |i| generator_return(i, g, &[n(1.0)])).unwrap();
    assert_eq!(h.get(&mut i, r, Key::Name("value")), Ok(n(5.0)));
    h.generator = vec![3];
    assert_eq!(run(&mut h, &mut i, |i| generator_throw(i, g, &[n(1.0)])), Err(n(5.0)));
    let p = run(&mut h, &mut i, |i| async_generator_next(i, n(1.0), &[]));
    assert!(p.is_object());
    assert_eq!(h.slots.last().map(|x| x.1), Some("rejected"));
    run(&mut h, &mut i, |i| async_generator_throw(i, n(1.0), &[]));
    run(&mut h, &mut i, |i| async_react(i, &[g, n(4.0)], true));
    assert_eq!(h.log, [format!("{:?}", Resume::Next(n(4.0)))]);
    run(&mut h, &mut i, |i| async_react(i, &[g, n(4.0)], false));
    assert_eq!(h.log[1], format!("{:?}", Resume::Throw(n(4.0))));
    run(&mut h, &mut i, |i| async_gen_react(i, &[g, g, n(4.0)], false));
    assert_eq!(h.log[2], format!("{:?}", Resume::Throw(n(4.0))));
    h.generator = vec![2];
    run(&mut h, &mut i, |i| async_gen_return_settled(i, &[g, g, n(4.0)], true));
    assert_eq!(h.log.last().map(|x| x.as_str()), Some("step"));
}

#[test]
fn capabilities_are_captured_once() {
    let (mut h, mut i) = fresh();
    let ctor = h.function(Act::Settles);
    assert_eq!(run(&mut h, &mut i, |i| new_promise_capability(i, ctor)), Ok(ctor));
    let r = run(&mut h, &mut i, |i| new_promise_capability(i, n(1.0)));
    assert_eq!(error_of(&mut h, r), "TypeError");
    let cap = h.object(&[]);
    let f = h.function(Act::Note);
    assert_eq!(run(&mut h, &mut i, |i| capability_executor(i, &[cap, f, f])), Ok(Value::Undefined));
    let r = run(&mut h, &mut i, |i| capability_executor(i, &[cap, f, f]));
    assert_eq!(error_of(&mut h, r), "TypeError");
    assert_eq!(pf_return(&[n(3.0)]), Ok(n(3.0)));
    assert_eq!(pf_throw(&[n(3.0)]), Err(n(3.0)));
}

/// The state of a combinator with so many elements outstanding.
fn combinator(h: &mut Host, slot: &'static str, outstanding: f64) -> (Value, Value) {
    let state = h.object(&[]);
    let list = h.array(&[]);
    if let Value::Num(id) = h.id(state) {
        h.slots.push((id, slot, list));
        h.slots.push((id, "remaining", n(outstanding)));
    }
    (state, list)
}

#[test]
fn combinators_settle_with_their_last_element() {
    let (mut h, mut i) = fresh();
    let done = h.function(Act::Logs("resolved"));
    let (state, list) = combinator(&mut h, "results", 2.0);
    let first = h.object(&[]);
    let second = h.object(&[]);
    run(&mut h, &mut i, |i| promise_all_element(i, &[state, n(1.0), first, done, n(8.0)])).unwrap();
    assert_eq!(h.log.len(), 0);
    // Settled already.
    run(&mut h, &mut i, |i| promise_all_element(i, &[state, n(1.0), first, done, n(9.0)])).unwrap();
    assert_eq!(h.log.len(), 0);
    run(&mut h, &mut i, |i| promise_all_element(i, &[state, n(0.0), second, done, n(7.0)])).unwrap();
    assert_eq!(h.log, ["resolved"]);
    assert_eq!(numbers_in(&mut h, &mut i, list), [7.0, 8.0]);

    let (state, list) = combinator(&mut h, "results", 1.0);
    let first = h.object(&[]);
    run(&mut h, &mut i, |i| promise_settled(i, &[state, n(0.0), first, done, n(8.0)], false)).unwrap();
    assert_eq!(h.log, ["resolved", "resolved"]);
    let entry = h.get(&mut i, list, Key::Index(0)).unwrap();
    let status = h.get(&mut i, entry, Key::Name("status")).unwrap();
    assert_eq!(text(&i, status), "rejected");
    assert_eq!(h.get(&mut i, entry, Key::Name("reason")), Ok(n(8.0)));

    let (state, list) = combinator(&mut h, "errors", 1.0);
    let first = h.object(&[]);
    run(&mut h, &mut i, |i| promise_any_reject(i, &[state, n(0.0), first, done, n(8.0)])).unwrap();
    assert_eq!(h.log, ["resolved", "resolved", "resolved"]);
    assert_eq!(numbers_in(&mut h, &mut i, list), [8.0]);
}

#[test]
fn keyed_combinators_keep_the_keys() {
    let (mut h, mut i) = fresh();
    let done = h.function(Act::Logs("resolved"));
    let (state, values) = combinator(&mut h, "values", 2.0);
    let (a, b) = (s(&mut i, "a"), s(&mut i, "b"));
    let keys = h.array(&[a, b]);
    if let Value::Num(id) = h.id(state) {
        h.slots.push((id, "keys", keys));
    }
    let first = h.object(&[]);
    let second = h.object(&[]);
    run(&mut h, &mut i, |i| promise_keyed_element(i, &[state, n(1.0), second, done, n(8.0)])).unwrap();
    assert_eq!(h.log.len(), 0);
    run(&mut h, &mut i, |i| promise_keyed_settle(i, &[state, n(0.0), first, done, n(7.0)], true)).unwrap();
    assert_eq!(h.log, ["resolved"]);
    assert_eq!(h.get(&mut i, values, Key::Index(1)), Ok(n(8.0)));
    let entry = h.get(&mut i, values, Key::Index(0)).unwrap();
    let status = h.get(&mut i, entry, Key::Name("status")).unwrap();
    assert_eq!(text(&i, status), "fulfilled");

    // Without keys the promise is settled at once.
    h.log.clear();
    let ctor = h.function(Act::Settles);
    let resolve = h.function(Act::Itself);
    h.store(ctor, Name::Text(units("resolve")), data(resolve));
    let empty = h.object(&[]);
    assert_eq!(run(&mut h, &mut i, |i| promise_keyed_combinator(i, ctor, empty, false)), Ok(ctor));
    assert_eq!(h.log, ["CapabilityExecutor/2", "NaN"]);
    // What is no object rejects the promise.
    h.log.clear();
    assert_eq!(run(&mut h, &mut i, |i| promise_keyed_combinator(i, ctor, n(1.0), true)), Ok(ctor));
    assert_eq!(h.log, ["CapabilityExecutor/2", "NaN"]);
}

#[test]
fn finally_passes_the_settlement_on() {
    let (mut h, mut i) = fresh();
    let on_finally = h.function(Act::Logs("finally"));
    let itself = h.function(Act::Itself);
    let ctor = h.object(&[("resolve", itself), ("then", itself)]);
    assert_eq!(run(&mut h, &mut i, |i| pf_then_finally(i, &[on_finally, ctor, n(3.0)])), Ok(ctor));
    assert_eq!(h.log, ["finally", "PassValue/0"]);
    assert_eq!(run(&mut h, &mut i, |i| pf_catch_finally(i, &[on_finally, ctor, n(3.0)])), Ok(ctor));
    assert_eq!(h.log[3], "PassReason/0");
    let bad = h.function(Act::Throws);
    assert_eq!(run(&mut h, &mut i, |i| pf_then_finally(i, &[bad, ctor, n(3.0)])), Err(n(99.0)));
}

#[test]
fn thenable_jobs_reject_what_throws() {
    let (mut h, mut i) = fresh();
    let note = h.function(Act::Note);
    let bad = h.function(Act::Throws);
    let o = h.object(&[]);
    assert_eq!(run(&mut h, &mut i, |i| thenable_job_run(i, &[bad, o, note, note])), Ok(Value::Undefined));
    assert_eq!(h.log, ["99"]);
    assert_eq!(run(&mut h, &mut i, |i| thenable_job_run(i, &[note, o, n(1.0), n(2.0)])), Ok(Value::Undefined));
    assert_eq!(h.log, ["99", "1,2"]);
    let job = run(&mut h, &mut i, |i| make_thenable_job(i, note, o, n(1.0), n(2.0)));
    let bound: Vec<Value> = h.slots.iter().filter(|x| Value::Num(x.0) == h.id(job)).map(|x| x.2).collect();
    assert_eq!(bound, [note, o, n(1.0), n(2.0)]);
    assert_eq!(h.log[2], "ThenableJob/1");
}

#[test]
fn sync_iterators_are_wrapped_for_awaiting() {
    let (mut h, mut i) = fresh();
    let r = run(&mut h, &mut i, |i| from_async_sync_unwrap(i, false, n(4.0)));
    assert_eq!(value_in(&mut h, &mut i, r), Some(4.0));
    let c = h.counter(2, "closed");
    assert_eq!(run(&mut h, &mut i, |i| from_async_sync_reject(i, c, n(6.0))), Err(n(6.0)));
    assert_eq!(h.log, ["closed"]);
    let p = run(&mut h, &mut i, |i| async_dispose_via_return(i, c));
    assert!(p.is_object());
    assert_eq!(h.log, ["closed", "closed"]);
    let coro = FromAsyncCoro::new(n(1.0), n(2.0), n(3.0), n(4.0));
    let (held, bytes) = coro.scan_retained_memory();
    assert_eq!(held, [n(1.0), n(2.0), n(3.0), n(4.0)]);
    assert_eq!(bytes, std::mem::size_of::<FromAsyncCoro>());
}

#[test]
fn a_returned_concat_closes_what_is_open() {
    let (mut h, mut i) = fresh();
    let open = h.counter(2, "open closed");
    let closed = run(&mut h, &mut i, |i| {
        let mut c = lumen::zip::ConcatIter {
            items: Vec::new(),
            methods: Vec::new(),
            index: 0,
            current: open,
            current_next: Value::Undefined,
            done: false,
            running: false,
            started: true,
        };
        let first = concat_return(i, &mut c).is_ok();
        let second = concat_return(i, &mut c).is_ok();
        first && second && c.done
    });
    assert!(closed);
    assert_eq!(h.log, ["open closed"]);
}

/// A host with the library installed.
fn installed() -> (Host, Interp) {
    let (mut h, mut i) = fresh();
    run(&mut h, &mut i, |i| install(i));
    h.log.clear();
    (h, i)
}

/// Calls a function of an object by its name.
fn invoke(h: &mut Host, i: &mut Interp, o: Value, name: &'static str, this: Value, args: &[Value]) -> Result<Value, Value> {
    let f = h.get(i, o, Key::Name(name)).unwrap();
    h.call(i, f, this, args)
}

#[test]
fn installed_own_property_tests_keep_their_order() {
    let (mut h, mut i) = installed();
    let object = h.get(&mut i, h.global, Key::Name("Object")).unwrap();
    let proto = h.object_proto;
    let to_string = h.function(Act::Gives("key", "x"));
    let key = h.object(&[("toString", to_string)]);
    let r = invoke(&mut h, &mut i, object, "hasOwn", object, &[Value::Null, key]);
    let line = format!("static:{}", error_of(&mut h, r));
    h.log.push(line);
    let r = invoke(&mut h, &mut i, proto, "hasOwnProperty", Value::Null, &[key]);
    let line = format!("proto:{}", error_of(&mut h, r));
    h.log.push(line);
    let o = h.make(Kind::Ordinary);
    let getter = h.function(Act::Throws);
    h.store(o, Name::Text(units("x")), Property { get: getter, accessor: true, writable: false, ..data(Value::Undefined) });
    h.store(o, Name::Symbol(7), data(n(2.0)));
    for k in [key, Value::Sym(7)] {
        assert_eq!(invoke(&mut h, &mut i, object, "hasOwn", object, &[o, k]), Ok(Value::Bool(true)));
        h.log.push("true".to_string());
    }
    assert_eq!(h.log.join("|"), "static:TypeError|key|proto:TypeError|key|true|true");
}

#[test]
fn installed_names_do_their_work() {
    let (mut h, mut i) = installed();
    let console = h.get(&mut i, h.global, Key::Name("console")).unwrap();
    let hello = s(&mut i, "Hello from Lumen!");
    invoke(&mut h, &mut i, console, "log", console, &[hello]).unwrap();
    assert_eq!(h.log, ["Hello from Lumen!"]);
    h.log.clear();
    let strings = h.intrinsic("String");
    let padded = s(&mut i, "\u{b}abc\u{b}");
    let r = invoke(&mut h, &mut i, strings, "trim", padded, &[]).unwrap();
    assert_eq!(text(&i, r), "abc");
    let abc = s(&mut i, "abc");
    let r = invoke(&mut h, &mut i, strings, "padStart", abc, &[n(5.0)]).unwrap();
    assert_eq!(text(&i, r), "  abc");
    let r = invoke(&mut h, &mut i, strings, "link", abc, &[abc]).unwrap();
    assert_eq!(text(&i, r), "<a href=\"abc\">abc</a>");
    let r = invoke(&mut h, &mut i, strings, "bold", abc, &[abc]).unwrap();
    assert_eq!(text(&i, r), "<b>abc</b>");
    let arrays = h.array_proto;
    let a = h.numbers(&[1.0, 4.0, 6.0]);
    let even = h.function(Act::Even);
    assert_eq!(invoke(&mut h, &mut i, arrays, "find", a, &[even]), Ok(n(4.0)));
    assert_eq!(invoke(&mut h, &mut i, arrays, "findIndex", a, &[even]), Ok(n(1.0)));
    assert_eq!(invoke(&mut h, &mut i, arrays, "findLast", a, &[even]), Ok(n(6.0)));
    let g = h.global;
    let hex = s(&mut i, "-0x1f");
    assert_eq!(invoke(&mut h, &mut i, g, "parseInt", g, &[hex]), Ok(n(-31.0)));
    let odd = s(&mut i, "a b/\u{107}");
    let e = invoke(&mut h, &mut i, g, "escape", g, &[odd]).unwrap();
    assert_eq!(text(&i, e), "a%20b/%u0107");
    assert_eq!(invoke(&mut h, &mut i, g, "unescape", g, &[e]), Ok(odd));
}

#[test]
fn installed_iterators_check_their_receiver_and_argument() {
    let (mut h, mut i) = installed();
    let proto = h.intrinsic("%IteratorPrototype%");
    let getter = h.function(Act::Logs("next"));
    let it = h.make(Kind::Ordinary);
    h.store(it, Name::Text(units("next")), Property { get: getter, accessor: true, writable: false, ..data(Value::Undefined) });
    let ret = h.function(Act::Logs("return"));
    h.store(it, Name::Text(units("return")), data(ret));
    let r = invoke(&mut h, &mut i, proto, "forEach", it, &[n(1.0)]);
    assert_eq!(error_of(&mut h, r), "TypeError");
    assert_eq!(h.log, ["return"]);
    let helpers = h.intrinsic("%IteratorHelperPrototype%");
    let r = invoke(&mut h, &mut i, helpers, "next", it, &[]);
    assert_eq!(error_of(&mut h, r), "TypeError");
    // A helper made by one built-in is stepped by another.
    let source = h.counter(3, "closed");
    let double = h.function(Act::Double);
    let helper = invoke(&mut h, &mut i, proto, "map", source, &[double]).unwrap();
    assert_eq!(h.at(helper).proto, helpers);
    for want in [Some(0.0), Some(2.0), Some(4.0), None, None] {
        let r = invoke(&mut h, &mut i, helper, "next", helper, &[]);
        assert_eq!(value_in(&mut h, &mut i, r), want);
    }
    let iterator = h.get(&mut i, h.global, Key::Name("Iterator")).unwrap();
    let first = h.counter(2, "first closed");
    let second = h.counter(2, "second closed");
    let inputs = h.array(&[first, second]);
    let zip = invoke(&mut h, &mut i, iterator, "zip", iterator, &[inputs]).unwrap();
    let r = invoke(&mut h, &mut i, zip, "next", zip, &[]).unwrap();
    let pair = h.get(&mut i, r, Key::Name("value")).unwrap();
    assert_eq!(numbers_in(&mut h, &mut i, pair), [0.0, 0.0]);
    let arrays = h.array_proto;
    let a = h.numbers(&[7.0]);
    let values = invoke(&mut h, &mut i, arrays, "values", a, &[]).unwrap();
    for want in [Some(7.0), None, None] {
        let next = h.intrinsic("%ArrayIteratorPrototype%");
        let r = invoke(&mut h, &mut i, next, "next", values, &[]);
        assert_eq!(value_in(&mut h, &mut i, r), want);
    }
}

#[test]
fn installed_collections_give_back_what_was_stored() {
    let (mut h, mut i) = installed();
    let maps = h.intrinsic("Map");
    let m = h.make(Kind::Ordinary);
    h.give_internal(m, Brand::MapData);
    assert_eq!(invoke(&mut h, &mut i, maps, "set", m, &[n(-0.0), n(1.0)]), Ok(m));
    assert_eq!(invoke(&mut h, &mut i, maps, "get", m, &[n(0.0)]), Ok(n(1.0)));
    assert_eq!(invoke(&mut h, &mut i, maps, "has", m, &[n(1.0)]), Ok(Value::Bool(false)));
    let keys = invoke(&mut h, &mut i, maps, "keys", m, &[]).unwrap();
    let iterators = h.intrinsic("%MapIteratorPrototype%");
    let r = invoke(&mut h, &mut i, iterators, "next", keys, &[]);
    assert_eq!(value_in(&mut h, &mut i, r), Some(0.0));
    assert_eq!(invoke(&mut h, &mut i, maps, "delete", m, &[n(0.0)]), Ok(Value::Bool(true)));
    assert_eq!(invoke(&mut h, &mut i, maps, "get", m, &[n(0.0)]), Ok(Value::Undefined));
    let registries = h.intrinsic("FinalizationRegistry");
    let r = h.make(Kind::Ordinary);
    h.give_internal(r, Brand::RegistryData);
    let target = h.make(Kind::Ordinary);
    let token = h.make(Kind::Ordinary);
    invoke(&mut h, &mut i, registries, "register", r, &[target, n(1.0), token]).unwrap();
    assert_eq!(invoke(&mut h, &mut i, registries, "unregister", r, &[token]), Ok(Value::Bool(true)));
    assert_eq!(invoke(&mut h, &mut i, registries, "unregister", r, &[token]), Ok(Value::Bool(false)));
}

#[test]
fn keys_that_are_not_a_number_group_together() {
    let (mut h, mut i) = installed();
    let items = h.numbers(&[1.0, 2.0]);
    // Not a Number in two forms.
    let maps = h.get(&mut i, h.global, Key::Name("Map")).unwrap();
    let f = h.function(Act::OddNaN);
    let m = invoke(&mut h, &mut i, maps, "groupBy", maps, &[items, f]).unwrap();
    let g = h.call_native(&mut i, Builtin::MapGet, m, &[n(f64::NAN)]).unwrap();
    assert_eq!(numbers_in(&mut h, &mut i, g), [1.0, 2.0]);
}

#[test]
fn a_frozen_value_may_be_defined_again() {
    let (mut h, mut i) = installed();
    let t = h.make(Kind::Ordinary);
    h.store(t, Name::Text(units("x")), Property::new_data(n(f64::NAN), false, true, false));
    h.at(t).extensible = false;
    let yes = h.function(Act::Yes);
    let handler = h.object(&[("defineProperty", yes)]);
    let p = h.make(Kind::Proxy { target: t, handler, traps: Traps::Absent });
    let x = s(&mut i, "x");
    let object = h.get(&mut i, h.global, Key::Name("Object")).unwrap();
    let d = h.object(&[("value", n(f64::NAN))]);
    assert_eq!(invoke(&mut h, &mut i, object, "defineProperty", object, &[p, x, d]), Ok(p));
    h.store(t, Name::Text(units("x")), Property::new_data(n(0.0), false, true, false));
    let d = h.object(&[("value", n(-0.0))]);
    let r = invoke(&mut h, &mut i, object, "defineProperty", object, &[p, x, d]);
    assert_eq!(error_of(&mut h, r), "TypeError");
}

#[test]
fn promise_functions_are_called_by_name() {
    let (mut h, mut i) = fresh();
    assert_eq!(run(&mut h, &mut i, |i| call_native(i, Native::PassValue, &[n(3.0)])), Ok(n(3.0)));
    assert_eq!(run(&mut h, &mut i, |i| call_native(i, Native::PassReason, &[n(3.0)])), Err(n(3.0)));
    let r = run(&mut h, &mut i, |i| call_reaction(i, Reaction::Unwrap(false), n(4.0)));
    assert_eq!(value_in(&mut h, &mut i, r), Some(4.0));
}

#[test]
fn string_limits_count_bytes() {
    let (mut h, mut i) = fresh();
    let e = s(&mut i, "\u{e9}");
    let r = run(&mut h, &mut i, |i| string_concat(i, e, &[e], 3));
    assert_eq!(error_of(&mut h, r), "RangeError");
    assert_eq!(said(&mut h, &mut i, |i| string_concat(i, e, &[e], 4)), "\u{e9}\u{e9}");
    let r = run(&mut h, &mut i, |i| string_repeat(i, e, &[n(3.0)], 5));
    assert_eq!(error_of(&mut h, r), "RangeError");
    assert_eq!(said(&mut h, &mut i, |i| string_repeat(i, e, &[n(3.0)], 6)), "\u{e9}\u{e9}\u{e9}");
    let r = run(&mut h, &mut i, |i| nf_string_split(i, e, &[], 1));
    assert_eq!(error_of(&mut h, r), "RangeError");
}

#[test]
fn deferred_namespaces_are_evaluated_before_they_are_looked_at() {
    let (mut h, mut i) = fresh();
    let o = h.object(&[]);
    let x = s(&mut i, "x");
    let waiting = i.begin();
    for f in [0, 1, 2] {
        i.rewind();
        let r = match f {
            0 => object_listing(&mut i, &[o], Listing::Keys),
            1 => object_own_names(&mut i, &[o], false),
            _ => object_get_own_property_descriptor(&mut i, &[o, x]),
        };
        assert!(r.is_err());
        assert!(matches!(i.open_question().unwrap().op, Op::TriggerDeferred(..)));
    }
    i.end(waiting);
}

#[test]
fn a_running_helper_is_not_entered_again() {
    let (mut h, mut i) = installed();
    let proto = h.intrinsic("%IteratorPrototype%");
    let source = h.counter(3, "closed");
    let again = h.function(Act::StepsKept);
    let helper = invoke(&mut h, &mut i, proto, "map", source, &[again]).unwrap();
    h.store(again, Name::Symbol(2), data(helper));
    let r = invoke(&mut h, &mut i, helper, "next", helper, &[]);
    assert_eq!(error_of(&mut h, r), "TypeError");
    assert_eq!(h.log, ["closed"]);
    // It has ended by that.
    let r = invoke(&mut h, &mut i, helper, "next", helper, &[]);
    assert_eq!(value_in(&mut h, &mut i, r), None);
}

#[test]
fn keyed_combinators_take_string_keys_alone() {
    let (mut h, mut i) = fresh();
    let ctor = h.function(Act::Settles);
    let resolve = h.function(Act::Logs("resolve"));
    h.store(ctor, Name::Text(units("resolve")), data(resolve));
    let then = h.function(Act::Logs("then"));
    let proto = h.object_proto;
    h.store(proto, Name::Text(units("then")), data(then));
    let input = h.object(&[("a", n(1.0))]);
    h.store(input, Name::Symbol(7), data(n(2.0)));
    assert_eq!(run(&mut h, &mut i, |i| promise_keyed_combinator(i, ctor, input, false)), Ok(ctor));
    assert_eq!(h.log, ["CapabilityExecutor/2", "resolve", "KeyedElement/1", "then"]);
}

#[test]
fn weak_tests_take_either_weak_collection() {
    let (mut h, mut i) = fresh();
    let k = h.object(&[]);
    for b in [Brand::WeakMapData, Brand::WeakSetData] {
        let c = h.make(Kind::Ordinary);
        h.give_internal(c, b);
        h.internal(c).unwrap().store_entry(k, k);
        for f in [Builtin::WeakMapHas, Builtin::WeakSetHas] {
            assert_eq!(h.call_native(&mut i, f, c, &[k]), Ok(Value::Bool(true)));
        }
        assert_eq!(h.call_native(&mut i, Builtin::WeakSetDelete, c, &[k]), Ok(Value::Bool(true)));
        assert_eq!(h.call_native(&mut i, Builtin::WeakMapDelete, c, &[k]), Ok(Value::Bool(false)));
    }
    let s = h.make(Kind::Ordinary);
    h.give_internal(s, Brand::WeakSetData);
    let r = h.call_native(&mut i, Builtin::WeakMapGet, s, &[k]);
    assert_eq!(error_of(&mut h, r), "TypeError");
    let m = h.make(Kind::Ordinary);
    h.give_internal(m, Brand::MapData);
    let r = h.call_native(&mut i, Builtin::WeakMapHas, m, &[k]);
    assert_eq!(error_of(&mut h, r), "TypeError");
}

#[test]
fn only_primitives_are_boxed() {
    let (mut h, mut i) = fresh();
    let o = h.object(&[]);
    for v in [o, Value::Undefined, Value::Null] {
        assert_eq!(run(&mut h, &mut i, |i| box_primitive(i, v)), v);
    }
    assert!(run(&mut h, &mut i, |i| box_primitive(i, n(1.0))).is_object());
}

#[test]
fn argument_lists_are_limited() {
    let (mut h, mut i) = fresh();
    let sum = h.function(Act::Sum);
    let list = h.numbers(&[1.0, 2.0, 3.0]);
    assert_eq!(run(&mut h, &mut i, |i| nf_function_apply(i, sum, &[Value::Undefined, list], 3)), Ok(n(3.0)));
    let r = run(&mut h, &mut i, |i| nf_function_apply(i, sum, &[Value::Undefined, list], 2));
    assert_eq!(error_of(&mut h, r), "RangeError");
}
