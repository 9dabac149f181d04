//! What each installed function does: the built-in that a function object names, called with a
//! receiver and arguments.
use vstd::prelude::*;
use crate::array;
use crate::array::{
    array_at, array_concat, array_copy_within, array_fill, array_includes, array_index_of,
    array_last_index_of, array_reverse, array_shift, array_slice, array_splice, array_unshift,
    nf_array_pop, nf_array_push,
};
use crate::array_callbacks;
use crate::array_callbacks::{
    array_filter, array_find, array_flat, array_flat_map, array_for_each, array_from,
    array_iterator_made, array_iterator_next, array_join, array_map, array_of_method, array_reduce,
    array_some_every, array_to_locale_string, array_to_reversed, array_to_spliced, array_to_string,
    array_with, make_array_iterator, nf_array_ctor, ElementKind,
};
use crate::builtin::{Builtin, Kind};
use crate::case::{
    case_changed, locale_case_changed, string_change_case, string_change_locale_case,
};
use crate::collections::{
    holds_at, inserted, key_in, law_delete_removes_one, law_get_after_set, law_set_leaves_others,
    lemma_position, lookup, position_of, unique, Slots,
};
use crate::equality::{
    canonical_key, law_canonical_keys_agree, law_same_value_zero_is_equivalence, same, same_zero,
};
use crate::from_async::{
    async_dispose_via_return, disposed, from_async_sync_reject, from_async_sync_unwrap,
};
use crate::generator::{
    async_driven, async_generator_next, async_generator_return, async_generator_throw,
    generator_driven, generator_next, generator_return, generator_throw,
};
use crate::globals::{
    console_log, evaluated, finite_tested, global_eval, global_is_finite, global_is_nan,
    global_parse_float, global_parse_int, global_print, logged, nan_tested, parse_float_called,
    parse_int_called, printed, FloatLiteral, FloatText, IntegerLiteral,
};
use crate::interp::{
    arg, arg_at, law_interned_strings_read_back, Answer, Brand, Interp, Key, Native, Op, Outcome, Reaction, Resume, Value, WellKnown, World,
};
use crate::iter_helper::{chunking_made, helper_made, HelperKind};
use crate::iterator;
use crate::iterator::{
    iter_some_every, iterator_find, iterator_for_each, iterator_includes, iterator_join,
    iterator_reduce, iterator_to_array,
};
use crate::iterator_calls::{
    call_chunking_maker, call_concat, call_concat_maker, call_entries_next, call_from, call_helper,
    call_helper_maker, call_matches_next, call_text_next, call_wrapper, call_zip, call_zip_maker,
    concat_called, concat_object, entries_next, from_called, helper_called, helper_object,
    matches_next, text_next, wrapper_called, zip_called, zip_object,
};
use crate::iterator_objects::{
    iterator_constructed, iterator_constructor, iterator_dispose, iterator_proto_weird_set,
    weirdly_set,
};
use crate::locale::{locale_ordered, string_locale_order};
use crate::num;
use crate::object::{
    accessor_defined, accessor_looked_up, array_tested, assigned, constructed, created,
    define_accessor, descriptor_got, descriptors_got, enumerability, extension_stopped,
    from_entries, get_proto, integrity_tested, json_is_array, levelled, listing,
    locally_stringified, lookup_accessor, nf_object_has_own, object_assign, object_constructor,
    object_create, object_define_properties_method, object_define_property, object_for,
    object_freeze_or_seal, object_from_entries, object_get_own_property_descriptor,
    object_get_own_property_descriptors, object_get_prototype_of, object_group_by, object_grouped,
    object_has_own_property, object_is, object_is_prototype_of, object_listing, object_own_names,
    object_prevent_extensions, object_property_is_enumerable, object_set_prototype_of,
    object_to_locale_string, object_to_string, object_with_properties, own_names, property_put,
    proto_has_own, proto_read, proto_written, prototype_got, prototype_put, prototype_tested,
    set_proto, static_has_own, stringified, test_integrity_level, to_object_arg, Listing,
};
use crate::promise::{
    capability_executor, executor_called, keyed_recorded, keyed_settled, pf_return, pf_throw,
    promise_keyed_element, promise_keyed_settle, thenable_job, thenable_job_run,
};
use crate::proxy::{extensible_of, js_is_extensible};
use crate::set_methods;
use crate::set_methods::{
    collection_ctor, collection_for_each, collection_iter_kind, collection_made, combined,
    disjoint_tested, entry_method, entry_outcome, got_or_inserted, holdable, intersected,
    iterator_made, lemma_entry_changes_last, lemma_holdable_is_answered,
    lemma_insert_changes_last, lemma_map_computed_changes_last, lemma_weak_insert_changes_last,
    lemma_weak_store_changes_last,
    map_computed, map_get_or_insert, map_get_or_insert_computed, map_group_by, map_grouped,
    set_difference, set_intersection, set_is_disjoint_from, set_is_subset_of, set_is_superset_of,
    set_symmetric_difference, set_union, subset_tested, subtracted, superset_tested,
    weak_get_or_insert, weak_store, weakly_got_or_stored, weakly_stored, Changed, EntryKind,
    EntryOp, KeyAction,
};
use crate::slots::{answered, Hidden, Internal};
use crate::sort::{array_sort, array_to_sorted, sorted_copy, sorted_in_place};
use crate::states::{State, StateView};
use crate::string_methods;
use crate::string_methods::{
    nf_char_at, nf_char_code_at, nf_string_iterator, nf_string_slice, string_at,
    string_code_point_at, string_concat, string_constructor, string_from_char_code,
    string_from_code_point, string_html, string_index_of, string_is_well_formed, string_iterated,
    string_last_index_of, string_normalize, string_pad, string_raw, string_repeat, string_substr,
    string_substring, string_test, string_this_value, string_to_locale_string,
    string_to_well_formed, string_trim, SubstringTest,
};
use crate::string_patterns;
use crate::string_patterns::{
    nf_string_match, nf_string_replace, nf_string_split, string_match_all, string_replace_all,
    string_search,
};
use crate::uri::{
    decode_called, encode_called, escape_called, escaped, global_decode_uri, global_encode_uri,
    global_escape, global_unescape, law_unescape_undoes_escape, unescape_called, unescaped,
};
use crate::weak_refs::{
    branded, cells_without, dereferenced, goes_by, law_unregistered_tokens_are_gone, registration, registry_constructor, registry_made,
    registry_register, registry_unregister, unregistration, weak_ref_constructor, weak_ref_deref,
    weak_ref_made, Cell,
};
use crate::zip::{concat_made, zip_made};

verus! {

/// How much one operation may go through.
#[derive(Clone, Copy, PartialEq, Eq, Structural, Debug)]
pub struct Limits {
    /// The elements of an array operation.
    pub elements: u64,
    /// The bytes of a string, as UTF-8.
    pub text: usize,
}

/// A boolean result as a value.
pub open spec fn truth(o: Outcome<bool>) -> Outcome<Value> {
    (
        o.0,
        match o.1 {
            Ok(b) => Ok(Value::Bool(b)),
            Err(e) => Err(e),
        },
    )
}

fn as_value(r: Result<bool, Value>) -> (v: Result<Value, Value>)
    ensures
        v == match r {
            Ok(b) => Ok::<Value, Value>(Value::Bool(b)),
            Err(e) => Err::<Value, Value>(e),
        },
{
    match r {
        Ok(b) => Ok(Value::Bool(b)),
        Err(e) => Err(e),
    }
}

/// An answer that counts as true or false.
pub open spec fn as_boolean(o: Outcome<Value>) -> Outcome<Value> {
    (
        o.0,
        match o.1 {
            Ok(v) => Ok(Value::Bool(v == Value::Bool(true))),
            Err(e) => Err(e),
        },
    )
}

fn as_truth(r: Result<Value, Value>) -> (v: Result<Value, Value>)
    ensures
        v == match r {
            Ok(v) => Ok::<Value, Value>(Value::Bool(v == Value::Bool(true))),
            Err(e) => Err::<Value, Value>(e),
        },
{
    match r {
        Ok(Value::Bool(b)) => Ok(Value::Bool(b)),
        Ok(_) => Ok(Value::Bool(false)),
        Err(e) => Err(e),
    }
}

/// A result that is never a throw.
pub open spec fn given(o: (World, Value)) -> Outcome<Value> {
    (o.0, Ok(o.1))
}

/// A result that leaves internal data alone.
pub open spec fn untouched(own: Hidden, o: Outcome<Value>) -> Changed {
    (o.0, own, o.1)
}

/// `Object.isExtensible`: a value that is no object is not extensible.
pub open spec fn extensibility(w: World, v: Value) -> Outcome<bool> {
    if v.object() {
        extensible_of(w, v)
    } else {
        (w, Ok(false))
    }
}

fn test_extensible(i: &mut Interp, v: Value) -> (r: Result<bool, Value>)
    ensures
        (final(i)@, r) == extensibility(old(i)@, v),
{
    if v.is_object() {
        js_is_extensible(i, v)
    } else {
        Ok(false)
    }
}

/// A fresh array iterator.
pub open spec fn array_iterator_object(w: World, this: Value, kind: ElementKind) -> Outcome<Value> {
    let (w, it) = array_iterator_made(w, this, kind);
    match it {
        Err(e) => (w, Err(e)),
        Ok(it) => given(w.tell(Op::NewIterator("%ArrayIteratorPrototype%"), StateView::Array(it))),
    }
}

fn make_array_iterator_object(i: &mut Interp, this: Value, kind: ElementKind) -> (r: Result<
    Value,
    Value,
>)
    ensures
        (final(i)@, r) == array_iterator_object(old(i)@, this, kind),
{
    let it = make_array_iterator(i, this, kind)?;
    Ok(i.tell(Op::NewIterator("%ArrayIteratorPrototype%"), State::Array(it)))
}

/// A fresh String Iterator.
pub open spec fn string_iterator_object(w: World, this: Value) -> Outcome<Value> {
    let (w, it) = string_iterated(w, this);
    match it {
        Err(e) => (w, Err(e)),
        Ok(it) => given(w.tell(Op::NewIterator("%StringIteratorPrototype%"), StateView::Text(it))),
    }
}

fn make_string_iterator_object(i: &mut Interp, this: Value) -> (r: Result<Value, Value>)
    ensures
        (final(i)@, r) == string_iterator_object(old(i)@, this),
{
    let it = nf_string_iterator(i, this)?;
    Ok(i.tell(Op::NewIterator("%StringIteratorPrototype%"), State::Text(it)))
}

/// A fresh Map or Set iterator.
pub open spec fn entries_object(w: World, this: Value, kind: EntryKind, brand: Brand) -> Outcome<Value> {
    let (w, it) = iterator_made(w, this, kind, brand);
    match it {
        Err(e) => (w, Err(e)),
        Ok(it) => given(
            w.tell(
                if brand == Brand::SetData {
                    Op::NewIterator("%SetIteratorPrototype%")
                } else {
                    Op::NewIterator("%MapIteratorPrototype%")
                },
                StateView::Entries(it),
            ),
        ),
    }
}

fn make_entries_object(i: &mut Interp, this: Value, kind: EntryKind, brand: Brand) -> (r: Result<
    Value,
    Value,
>)
    ensures
        (final(i)@, r) == entries_object(old(i)@, this, kind, brand),
{
    let it = collection_iter_kind(i, this, kind, brand)?;
    let op = if brand == Brand::SetData {
        Op::NewIterator("%SetIteratorPrototype%")
    } else {
        Op::NewIterator("%MapIteratorPrototype%")
    };
    Ok(i.tell(op, State::Entries(it)))
}

/// `Array.fromAsync`: a promise, and the machine that settles it.
pub open spec fn from_async_started(w: World, this: Value, args: Seq<Value>) -> Outcome<Value> {
    let (w, p) = w.plain(Op::NewPromise, Seq::empty());
    let (w, _) = w.plain(
        Op::StartFromAsync(p),
        seq![this, arg_at(args, 0), arg_at(args, 1), arg_at(args, 2)],
    );
    (w, Ok(p))
}

/// `Array.fromAsync`.
pub fn array_from_async(i: &mut Interp, this: Value, args: &[Value]) -> (r: Result<Value, Value>)
    ensures
        (final(i)@, r) == from_async_started(old(i)@, this, args@),
{
    let p = i.perform(Op::NewPromise);
    let list = vec![this, arg(args, 0), arg(args, 1), arg(args, 2)];
    assert(list@ =~= seq![this, arg_at(args@, 0), arg_at(args@, 1), arg_at(args@, 2)]);
    let _ = i.ask_plain(Op::StartFromAsync(p), list);
    Ok(p)
}

/// `get Iterator.prototype.constructor`: what the global name stands for.
pub open spec fn iterator_constructor_read(w: World) -> Outcome<Value> {
    let (w, g) = w.plain(Op::GlobalObject, Seq::empty());
    let (w, p) = w.property(Op::StoredProperty(g, Key::Name("Iterator")));
    match p {
        Ok(Some(p)) => (w, Ok(p.value)),
        _ => (w, Ok(Value::Undefined)),
    }
}

fn read_iterator_constructor(i: &mut Interp) -> (r: Result<Value, Value>)
    ensures
        (final(i)@, r) == iterator_constructor_read(old(i)@),
{
    let g = i.perform(Op::GlobalObject);
    match i.ask_property(Op::StoredProperty(g, Key::Name("Iterator"))) {
        Ok(Some(p)) => Ok(p.value),
        _ => Ok(Value::Undefined),
    }
}

/// "Iterator".
pub open spec fn iterator_tag() -> Seq<u16> {
    seq![0x49u16, 0x74, 0x65, 0x72, 0x61, 0x74, 0x6f, 0x72]
}

fn read_iterator_tag(i: &mut Interp) -> (r: Result<Value, Value>)
    ensures
        (final(i)@, r) == old(i)@.text_value(iterator_tag()),
{
    let t: Vec<u16> = vec![0x49u16, 0x74, 0x65, 0x72, 0x61, 0x74, 0x6f, 0x72];
    assert(t@ =~= iterator_tag());
    let s: u64 = i.intern(t);
    Ok(Value::Str(s))
}

/// Digits as Numbers.
pub open spec fn digit_values(d: Seq<u32>) -> Seq<Value> {
    d.map_values(|x: u32| Value::Num(num::number(x as int)))
}

fn list_digits(d: &Vec<u32>) -> (r: Vec<Value>)
    ensures
        r@ == digit_values(d@),
{
    let mut out: Vec<Value> = Vec::new();
    let mut k: usize = 0;
    while k < d.len()
        invariant
            k <= d@.len(),
            out@ == digit_values(d@.take(k as int)),
        decreases d@.len() - k,
    {
        out.push(Value::Num(num::of_u64(d[k] as u64)));
        assert(digit_values(d@.take(k + 1)) =~= digit_values(d@.take(k as int)).push(
            Value::Num(num::number(d@[k as int] as int)),
        ));
        k += 1;
    }
    assert(d@.take(k as int) =~= d@);
    assert(out@ =~= digit_values(d@));
    out
}

/// `parseInt`: the Number that the digits stand for, or NaN where there are none.
pub open spec fn integer_parsed(w: World, args: Seq<Value>) -> Outcome<Value> {
    let (w, l) = parse_int_called(w, args);
    match l {
        Err(e) => (w, Err(e)),
        Ok(None) => (w, Ok(Value::Num(num::NAN))),
        Ok(Some(l)) => given(
            w.plain(Op::IntegerNumber(l.radix, l.negative), digit_values(l.digits)),
        ),
    }
}

fn call_parse_int(i: &mut Interp, args: &[Value]) -> (r: Result<Value, Value>)
    ensures
        (final(i)@, r) == integer_parsed(old(i)@, args@),
{
    let l: Option<IntegerLiteral> = global_parse_int(i, args)?;
    match l {
        None => Ok(Value::Num(num::NAN)),
        Some(l) => {
            let digits = list_digits(&l.digits);
            Ok(i.ask_plain(Op::IntegerNumber(l.radix, l.negative), digits))
        },
    }
}

/// `parseFloat`: the Number that the literal stands for.
pub open spec fn float_parsed(w: World, args: Seq<Value>) -> Outcome<Value> {
    let (w, l) = parse_float_called(w, args);
    match l {
        Err(e) => (w, Err(e)),
        Ok(FloatText::NotANumber) => (w, Ok(Value::Num(num::NAN))),
        Ok(FloatText::Infinity { negative }) => (
            w,
            Ok(
                Value::Num(
                    if negative {
                        num::NEG_INFINITY
                    } else {
                        num::INFINITY
                    },
                ),
            ),
        ),
        Ok(FloatText::Decimal(u)) => {
            let (w, s) = w.intern(u);
            given(w.plain(Op::DecimalNumber(Value::Str(s)), Seq::empty()))
        },
    }
}

fn call_parse_float(i: &mut Interp, args: &[Value]) -> (r: Result<Value, Value>)
    ensures
        (final(i)@, r) == float_parsed(old(i)@, args@),
{
    let l: FloatLiteral = global_parse_float(i, args)?;
    match l {
        FloatLiteral::NotANumber => Ok(Value::Num(num::NAN)),
        FloatLiteral::Infinity { negative } => Ok(
            Value::Num(
                if negative {
                    num::NEG_INFINITY
                } else {
                    num::INFINITY
                },
            ),
        ),
        FloatLiteral::Decimal(u) => {
            let s: u64 = i.intern(u);
            Ok(i.perform(Op::DecimalNumber(Value::Str(s))))
        },
    }
}

/// `register`, on the cells of the receiver.
pub open spec fn registered(w: World, own: Hidden, this: Value, args: Seq<Value>) -> Changed {
    let (w, c) = registration(w, this, args);
    match c {
        Err(e) => (w, own, Err(e)),
        Ok(c) => (w, Hidden { cells: own.cells.push(c), ..own }, Ok(Value::Undefined)),
    }
}

/// `unregister`, on the cells of the receiver: whether any of them went by the token.
pub open spec fn unregistered(w: World, own: Hidden, this: Value, args: Seq<Value>) -> Changed {
    let (w, token) = unregistration(w, this, args);
    match token {
        Err(e) => (w, own, Err(e)),
        Ok(token) => {
            let rest = cells_without(own.cells, token);
            (
                w,
                Hidden { cells: rest, ..own },
                Ok(Value::Bool(rest.len() != own.cells.len())),
            )
        },
    }
}

// The groups

/// `Object` and its prototype.
pub open spec fn object_outcome(w: World, b: Builtin, this: Value, args: Seq<Value>) -> Outcome<
    Value,
> {
    match b {
        Builtin::ObjectHasOwnProperty => proto_has_own(w, this, args),
        Builtin::ObjectDefineGetter => accessor_defined(w, this, args, true),
        Builtin::ObjectDefineSetter => accessor_defined(w, this, args, false),
        Builtin::ObjectLookupGetter => accessor_looked_up(w, this, args, true),
        Builtin::ObjectLookupSetter => accessor_looked_up(w, this, args, false),
        Builtin::ObjectIsPrototypeOf => prototype_tested(w, this, args),
        Builtin::ObjectPropertyIsEnumerable => enumerability(w, this, args),
        Builtin::ObjectToText => stringified(w, this),
        Builtin::ObjectValueOf => object_for(w, this, "Object.prototype.valueOf called on null or undefined"),
        Builtin::ObjectToLocaleText => locally_stringified(w, this),
        Builtin::ObjectHasOwn => static_has_own(w, args),
        Builtin::ObjectGroupBy => object_grouped(w, args),
        Builtin::ObjectKeys => listing(w, args, Listing::Keys),
        Builtin::ObjectOwnNames => own_names(w, args, false),
        Builtin::ObjectOwnSymbols => own_names(w, args, true),
        Builtin::ObjectGetPrototypeOf => prototype_got(w, args),
        Builtin::ObjectSetPrototypeOf => prototype_put(w, args),
        Builtin::ObjectCreate => created(w, args),
        Builtin::ObjectDefineProperty => property_put(w, args),
        Builtin::ObjectOwnDescriptor => descriptor_got(w, args),
        Builtin::ObjectOwnDescriptors => descriptors_got(w, args),
        Builtin::ObjectFreeze => levelled(w, args, true),
        Builtin::ObjectPreventExtensions => extension_stopped(w, args),
        Builtin::ObjectIsExtensible => truth(extensibility(w, arg_at(args, 0))),
        Builtin::ObjectAssign => assigned(w, args),
        Builtin::ObjectSameValue => (w, Ok(Value::Bool(same(arg_at(args, 0), arg_at(args, 1))))),
        Builtin::ObjectValues => listing(w, args, Listing::Values),
        Builtin::ObjectEntries => listing(w, args, Listing::Entries),
        Builtin::ObjectFromEntries => from_entries(w, args),
        Builtin::ObjectDefineProperties => object_with_properties(w, args),
        Builtin::ObjectSeal => levelled(w, args, false),
        Builtin::ObjectIsSealed => truth(integrity_tested(w, arg_at(args, 0), false)),
        Builtin::ObjectIsFrozen => truth(integrity_tested(w, arg_at(args, 0), true)),
        Builtin::ObjectConstruct => constructed(w, args),
        Builtin::ObjectReadProto => proto_read(w, this),
        Builtin::ObjectWriteProto => proto_written(w, this, args),
        _ => (w, Ok(Value::Undefined)),
    }
}

fn call_object_builtin(i: &mut Interp, b: Builtin, this: Value, args: &[Value]) -> (r: Result<
    Value,
    Value,
>)
    ensures
        (final(i)@, r) == object_outcome(old(i)@, b, this, args@),
{
    match b {
        Builtin::ObjectHasOwnProperty => object_has_own_property(i, this, args),
        Builtin::ObjectDefineGetter => define_accessor(i, this, args, true),
        Builtin::ObjectDefineSetter => define_accessor(i, this, args, false),
        Builtin::ObjectLookupGetter => lookup_accessor(i, this, args, true),
        Builtin::ObjectLookupSetter => lookup_accessor(i, this, args, false),
        Builtin::ObjectIsPrototypeOf => object_is_prototype_of(i, this, args),
        Builtin::ObjectPropertyIsEnumerable => object_property_is_enumerable(i, this, args),
        Builtin::ObjectToText => object_to_string(i, this),
        Builtin::ObjectValueOf => to_object_arg(i, this, "Object.prototype.valueOf called on null or undefined"),
        Builtin::ObjectToLocaleText => object_to_locale_string(i, this),
        Builtin::ObjectHasOwn => nf_object_has_own(i, args),
        Builtin::ObjectGroupBy => object_group_by(i, args),
        Builtin::ObjectKeys => object_listing(i, args, Listing::Keys),
        Builtin::ObjectOwnNames => object_own_names(i, args, false),
        Builtin::ObjectOwnSymbols => object_own_names(i, args, true),
        Builtin::ObjectGetPrototypeOf => object_get_prototype_of(i, args),
        Builtin::ObjectSetPrototypeOf => object_set_prototype_of(i, args),
        Builtin::ObjectCreate => object_create(i, args),
        Builtin::ObjectDefineProperty => object_define_property(i, args),
        Builtin::ObjectOwnDescriptor => object_get_own_property_descriptor(i, args),
        Builtin::ObjectOwnDescriptors => object_get_own_property_descriptors(i, args),
        Builtin::ObjectFreeze => object_freeze_or_seal(i, args, true),
        Builtin::ObjectPreventExtensions => object_prevent_extensions(i, args),
        Builtin::ObjectIsExtensible => as_value(test_extensible(i, arg(args, 0))),
        Builtin::ObjectAssign => object_assign(i, args),
        Builtin::ObjectSameValue => Ok(object_is(args)),
        Builtin::ObjectValues => object_listing(i, args, Listing::Values),
        Builtin::ObjectEntries => object_listing(i, args, Listing::Entries),
        Builtin::ObjectFromEntries => object_from_entries(i, args),
        Builtin::ObjectDefineProperties => object_define_properties_method(i, args),
        Builtin::ObjectSeal => object_freeze_or_seal(i, args, false),
        Builtin::ObjectIsSealed => as_value(test_integrity_level(i, arg(args, 0), false)),
        Builtin::ObjectIsFrozen => as_value(test_integrity_level(i, arg(args, 0), true)),
        Builtin::ObjectConstruct => object_constructor(i, args),
        Builtin::ObjectReadProto => get_proto(i, this),
        Builtin::ObjectWriteProto => set_proto(i, this, args),
        _ => Ok(Value::Undefined),
    }
}

/// `Array`, its prototype and its iterators.
pub open spec fn array_outcome(w: World, b: Builtin, this: Value, args: Seq<Value>, limits: Limits) -> Outcome<
    Value,
> {
    match b {
        Builtin::ArrayPush => array::pushed(w, this, args),
        Builtin::ArrayPop => array::popped(w, this),
        Builtin::ArrayShift => array::shifted(w, this, limits.elements),
        Builtin::ArrayUnshift => array::unshifted(w, this, args),
        Builtin::ArraySlice => array::sliced(w, this, args),
        Builtin::ArrayIndexOf => array::index_found(w, this, args),
        Builtin::ArrayIncludes => array::inclusion(w, this, args),
        Builtin::ArrayJoin => array_callbacks::joined(w, this, args, limits.elements),
        Builtin::ArrayConcat => array::concatenated(w, this, args),
        Builtin::ArrayForEach => array_callbacks::each(w, this, args),
        Builtin::ArrayMapEach => array_callbacks::mapped(w, this, args),
        Builtin::ArrayFilter => array_callbacks::filtered(w, this, args),
        Builtin::ArrayReduce => array_callbacks::reduced(w, this, args, false),
        Builtin::ArrayReverse => array::reversed(w, this),
        Builtin::ArrayToText => array_callbacks::array_stringified(w, this),
        Builtin::ArrayToLocaleText => array_callbacks::localized(w, this, args, limits.elements),
        Builtin::ArrayAt => array::element_at(w, this, args, limits.elements),
        Builtin::ArrayFind => array_callbacks::found(w, this, args, true, false),
        Builtin::ArrayFindIndex => array_callbacks::found(w, this, args, false, false),
        Builtin::ArrayFindLast => array_callbacks::found(w, this, args, true, true),
        Builtin::ArrayFindLastIndex => array_callbacks::found(w, this, args, false, true),
        Builtin::ArrayAnyOf => array_callbacks::tested(w, this, args, false),
        Builtin::ArrayAllOf => array_callbacks::tested(w, this, args, true),
        Builtin::ArrayFill => array::filled(w, this, args, limits.elements),
        Builtin::ArrayLastIndexOf => array::last_index_found(w, this, args),
        Builtin::ArrayFlat => array_callbacks::flattened(w, this, args),
        Builtin::ArrayFlatMap => array_callbacks::flat_mapped(w, this, args),
        Builtin::ArraySplice => array::spliced(w, this, args),
        Builtin::ArraySort => sorted_in_place(w, this, args, limits.elements),
        Builtin::ArrayToReversed => array_callbacks::reversed_copy(w, this, limits.elements),
        Builtin::ArrayToSorted => sorted_copy(w, this, args, limits.elements),
        Builtin::ArrayWith => array_callbacks::replaced_copy(w, this, args, limits.elements),
        Builtin::ArrayToSpliced => array_callbacks::spliced_copy(w, this, args, limits.elements),
        Builtin::ArrayReduceRight => array_callbacks::reduced(w, this, args, true),
        Builtin::ArrayCopyWithin => array::moved_within(w, this, args),
        Builtin::ArrayValues => array_iterator_object(w, this, ElementKind::Values),
        Builtin::ArrayKeys => array_iterator_object(w, this, ElementKind::Keys),
        Builtin::ArrayEntries => array_iterator_object(w, this, ElementKind::Entries),
        Builtin::ArrayIsArray => truth(array_tested(w, arg_at(args, 0))),
        Builtin::ArrayOfElements => array_callbacks::made_of(w, this, args),
        Builtin::ArrayFromItems => array_callbacks::made_from(w, this, args),
        Builtin::ArrayFromAsync => from_async_started(w, this, args),
        Builtin::ArrayConstruct => array_callbacks::array_constructed(w, args),
        Builtin::ArrayNext => array_callbacks::array_iterator_stepped(w, this),
        _ => (w, Ok(Value::Undefined)),
    }
}

fn call_array_builtin(i: &mut Interp, b: Builtin, this: Value, args: &[Value], limits: Limits) -> (r: Result<
    Value,
    Value,
>)
    ensures
        (final(i)@, r) == array_outcome(old(i)@, b, this, args@, limits),
{
    match b {
        Builtin::ArrayPush => nf_array_push(i, this, args),
        Builtin::ArrayPop => nf_array_pop(i, this),
        Builtin::ArrayShift => array_shift(i, this, limits.elements),
        Builtin::ArrayUnshift => array_unshift(i, this, args),
        Builtin::ArraySlice => array_slice(i, this, args),
        Builtin::ArrayIndexOf => array_index_of(i, this, args),
        Builtin::ArrayIncludes => array_includes(i, this, args),
        Builtin::ArrayJoin => array_join(i, this, args, limits.elements),
        Builtin::ArrayConcat => array_concat(i, this, args),
        Builtin::ArrayForEach => array_for_each(i, this, args),
        Builtin::ArrayMapEach => array_map(i, this, args),
        Builtin::ArrayFilter => array_filter(i, this, args),
        Builtin::ArrayReduce => array_reduce(i, this, args, false),
        Builtin::ArrayReverse => array_reverse(i, this),
        Builtin::ArrayToText => array_to_string(i, this),
        Builtin::ArrayToLocaleText => array_to_locale_string(i, this, args, limits.elements),
        Builtin::ArrayAt => array_at(i, this, args, limits.elements),
        Builtin::ArrayFind => array_find(i, this, args, true, false),
        Builtin::ArrayFindIndex => array_find(i, this, args, false, false),
        Builtin::ArrayFindLast => array_find(i, this, args, true, true),
        Builtin::ArrayFindLastIndex => array_find(i, this, args, false, true),
        Builtin::ArrayAnyOf => array_some_every(i, this, args, false),
        Builtin::ArrayAllOf => array_some_every(i, this, args, true),
        Builtin::ArrayFill => array_fill(i, this, args, limits.elements),
        Builtin::ArrayLastIndexOf => array_last_index_of(i, this, args),
        Builtin::ArrayFlat => array_flat(i, this, args),
        Builtin::ArrayFlatMap => array_flat_map(i, this, args),
        Builtin::ArraySplice => array_splice(i, this, args),
        Builtin::ArraySort => array_sort(i, this, args, limits.elements),
        Builtin::ArrayToReversed => array_to_reversed(i, this, limits.elements),
        Builtin::ArrayToSorted => array_to_sorted(i, this, args, limits.elements),
        Builtin::ArrayWith => array_with(i, this, args, limits.elements),
        Builtin::ArrayToSpliced => array_to_spliced(i, this, args, limits.elements),
        Builtin::ArrayReduceRight => array_reduce(i, this, args, true),
        Builtin::ArrayCopyWithin => array_copy_within(i, this, args),
        Builtin::ArrayValues => make_array_iterator_object(i, this, ElementKind::Values),
        Builtin::ArrayKeys => make_array_iterator_object(i, this, ElementKind::Keys),
        Builtin::ArrayEntries => make_array_iterator_object(i, this, ElementKind::Entries),
        Builtin::ArrayIsArray => as_value(json_is_array(i, arg(args, 0))),
        Builtin::ArrayOfElements => array_of_method(i, this, args),
        Builtin::ArrayFromItems => array_from(i, this, args),
        Builtin::ArrayFromAsync => array_from_async(i, this, args),
        Builtin::ArrayConstruct => nf_array_ctor(i, args),
        Builtin::ArrayNext => array_iterator_next(i, this),
        _ => Ok(Value::Undefined),
    }
}

/// `Iterator`, its prototype, and the iterators that it hands out.
pub open spec fn iterator_outcome(w: World, b: Builtin, this: Value, args: Seq<Value>) -> Outcome<
    Value,
> {
    match b {
        Builtin::IteratorMapEach => helper_object(helper_made(w, this, HelperKind::Mapping, arg_at(args, 0))),
        Builtin::IteratorFilter => helper_object(helper_made(w, this, HelperKind::Filter, arg_at(args, 0))),
        Builtin::IteratorTake => helper_object(helper_made(w, this, HelperKind::Take, arg_at(args, 0))),
        Builtin::IteratorDrop => helper_object(helper_made(w, this, HelperKind::Drop, arg_at(args, 0))),
        Builtin::IteratorChunks => helper_object(chunking_made(w, this, arg_at(args, 0), None)),
        Builtin::IteratorWindows => helper_object(chunking_made(w, this, arg_at(args, 0), Some(arg_at(args, 1)))),
        Builtin::IteratorIncludes => iterator::included(w, this, args),
        Builtin::IteratorJoin => iterator::joined(w, this, args),
        Builtin::IteratorFlatMap => helper_object(helper_made(w, this, HelperKind::FlatMap, arg_at(args, 0))),
        Builtin::IteratorToArray => iterator::to_array(w, this),
        Builtin::IteratorForEach => iterator::for_each(w, this, args),
        Builtin::IteratorReduce => iterator::reduced(w, this, args),
        Builtin::IteratorAnyOf => iterator::some_every(w, this, args, true),
        Builtin::IteratorAllOf => iterator::some_every(w, this, args, false),
        Builtin::IteratorFind => iterator::found(w, this, args),
        Builtin::IteratorFromValue => from_called(w, args),
        Builtin::IteratorZip => zip_object(zip_made(w, args, false)),
        Builtin::IteratorZipKeyed => zip_object(zip_made(w, args, true)),
        Builtin::IteratorConcat => concat_object(concat_made(w, args)),
        Builtin::IteratorWrapNext => wrapper_called(w, this, false),
        Builtin::IteratorWrapReturn => wrapper_called(w, this, true),
        Builtin::IteratorHelperNext => helper_called(w, this, false),
        Builtin::IteratorHelperReturn => helper_called(w, this, true),
        Builtin::IteratorZipNext => zip_called(w, this, false),
        Builtin::IteratorZipReturn => zip_called(w, this, true),
        Builtin::IteratorConcatNext => concat_called(w, this, false),
        Builtin::IteratorConcatReturn => concat_called(w, this, true),
        Builtin::IteratorConstruct => iterator_constructed(w, this),
        Builtin::IteratorReadConstructor => iterator_constructor_read(w),
        Builtin::IteratorWriteConstructor => weirdly_set(w, this, arg_at(args, 0), Key::Name("constructor")),
        Builtin::IteratorReadTag => w.text_value(iterator_tag()),
        Builtin::IteratorWriteTag => weirdly_set(
            w,
            this,
            arg_at(args, 0),
            Key::Symbol(WellKnown::ToStringTag),
        ),
        Builtin::IteratorDispose => (w.plain(Op::Close(this), Seq::empty()).0, Ok(Value::Undefined)),
        Builtin::IteratorAsyncDispose => given(disposed(w, this)),
        _ => (w, Ok(Value::Undefined)),
    }
}

fn call_iterator_builtin(i: &mut Interp, b: Builtin, this: Value, args: &[Value]) -> (r: Result<
    Value,
    Value,
>)
    ensures
        (final(i)@, r) == iterator_outcome(old(i)@, b, this, args@),
{
    match b {
        Builtin::IteratorMapEach => call_helper_maker(i, this, HelperKind::Mapping, arg(args, 0)),
        Builtin::IteratorFilter => call_helper_maker(i, this, HelperKind::Filter, arg(args, 0)),
        Builtin::IteratorTake => call_helper_maker(i, this, HelperKind::Take, arg(args, 0)),
        Builtin::IteratorDrop => call_helper_maker(i, this, HelperKind::Drop, arg(args, 0)),
        Builtin::IteratorChunks => call_chunking_maker(i, this, arg(args, 0), None),
        Builtin::IteratorWindows => call_chunking_maker(i, this, arg(args, 0), Some(arg(args, 1))),
        Builtin::IteratorIncludes => iterator_includes(i, this, args),
        Builtin::IteratorJoin => iterator_join(i, this, args),
        Builtin::IteratorFlatMap => call_helper_maker(i, this, HelperKind::FlatMap, arg(args, 0)),
        Builtin::IteratorToArray => iterator_to_array(i, this),
        Builtin::IteratorForEach => iterator_for_each(i, this, args),
        Builtin::IteratorReduce => iterator_reduce(i, this, args),
        Builtin::IteratorAnyOf => iter_some_every(i, this, args, true),
        Builtin::IteratorAllOf => iter_some_every(i, this, args, false),
        Builtin::IteratorFind => iterator_find(i, this, args),
        Builtin::IteratorFromValue => call_from(i, args),
        Builtin::IteratorZip => call_zip_maker(i, args, false),
        Builtin::IteratorZipKeyed => call_zip_maker(i, args, true),
        Builtin::IteratorConcat => call_concat_maker(i, args),
        Builtin::IteratorWrapNext => call_wrapper(i, this, false),
        Builtin::IteratorWrapReturn => call_wrapper(i, this, true),
        Builtin::IteratorHelperNext => call_helper(i, this, false),
        Builtin::IteratorHelperReturn => call_helper(i, this, true),
        Builtin::IteratorZipNext => call_zip(i, this, false),
        Builtin::IteratorZipReturn => call_zip(i, this, true),
        Builtin::IteratorConcatNext => call_concat(i, this, false),
        Builtin::IteratorConcatReturn => call_concat(i, this, true),
        Builtin::IteratorConstruct => iterator_constructor(i, this),
        Builtin::IteratorReadConstructor => read_iterator_constructor(i),
        Builtin::IteratorWriteConstructor => iterator_proto_weird_set(i, this, arg(args, 0), Key::Name("constructor")),
        Builtin::IteratorReadTag => read_iterator_tag(i),
        Builtin::IteratorWriteTag => iterator_proto_weird_set(
            i,
            this,
            arg(args, 0),
            Key::Symbol(WellKnown::ToStringTag),
        ),
        Builtin::IteratorDispose => Ok(iterator_dispose(i, this)),
        Builtin::IteratorAsyncDispose => Ok(async_dispose_via_return(i, this)),
        _ => Ok(Value::Undefined),
    }
}

/// `String`, its prototype and its iterators.
pub open spec fn string_outcome(w: World, b: Builtin, this: Value, args: Seq<Value>, limits: Limits) -> Outcome<
    Value,
> {
    match b {
        Builtin::StringThisValue => string_methods::string_value(w, this),
        Builtin::StringCharAt => string_methods::char_text(w, this, args),
        Builtin::StringCharCodeAt => string_methods::char_code(w, this, args),
        Builtin::StringIndexOf => string_methods::searched(w, this, args),
        Builtin::StringLastIndexOf => string_methods::searched_back(w, this, args),
        Builtin::StringToLocaleLowerCase => locale_case_changed(w, this, args, false),
        Builtin::StringToLocaleUpperCase => locale_case_changed(w, this, args, true),
        Builtin::StringNormalize => string_methods::normalized(w, this, args),
        Builtin::StringIncludes => string_methods::substring_tested(w, this, args, SubstringTest::Includes),
        Builtin::StringStartsWith => string_methods::substring_tested(w, this, args, SubstringTest::StartsWith),
        Builtin::StringEndsWith => string_methods::substring_tested(w, this, args, SubstringTest::EndsWith),
        Builtin::StringSlice => string_methods::sliced(w, this, args),
        Builtin::StringSubstring => string_methods::substring(w, this, args),
        Builtin::StringSubstr => string_methods::substr(w, this, args),
        Builtin::StringAnchor => string_methods::html_wrapped(w, this, seq![0x61u16], seq![0x6eu16, 0x61, 0x6d, 0x65], arg_at(args, 0)),
        Builtin::StringLink => string_methods::html_wrapped(w, this, seq![0x61u16], seq![0x68u16, 0x72, 0x65, 0x66], arg_at(args, 0)),
        Builtin::StringFontColor => string_methods::html_wrapped(w, this, seq![0x66u16, 0x6f, 0x6e, 0x74], seq![0x63u16, 0x6f, 0x6c, 0x6f, 0x72], arg_at(args, 0)),
        Builtin::StringFontSize => string_methods::html_wrapped(w, this, seq![0x66u16, 0x6f, 0x6e, 0x74], seq![0x73u16, 0x69, 0x7a, 0x65], arg_at(args, 0)),
        Builtin::StringBig => string_methods::html_wrapped(w, this, seq![0x62u16, 0x69, 0x67], Seq::empty(), Value::Undefined),
        Builtin::StringBlink => string_methods::html_wrapped(w, this, seq![0x62u16, 0x6c, 0x69, 0x6e, 0x6b], Seq::empty(), Value::Undefined),
        Builtin::StringBold => string_methods::html_wrapped(w, this, seq![0x62u16], Seq::empty(), Value::Undefined),
        Builtin::StringFixed => string_methods::html_wrapped(w, this, seq![0x74u16, 0x74], Seq::empty(), Value::Undefined),
        Builtin::StringItalics => string_methods::html_wrapped(w, this, seq![0x69u16], Seq::empty(), Value::Undefined),
        Builtin::StringSmall => string_methods::html_wrapped(w, this, seq![0x73u16, 0x6d, 0x61, 0x6c, 0x6c], Seq::empty(), Value::Undefined),
        Builtin::StringStrike => string_methods::html_wrapped(w, this, seq![0x73u16, 0x74, 0x72, 0x69, 0x6b, 0x65], Seq::empty(), Value::Undefined),
        Builtin::StringSub => string_methods::html_wrapped(w, this, seq![0x73u16, 0x75, 0x62], Seq::empty(), Value::Undefined),
        Builtin::StringSup => string_methods::html_wrapped(w, this, seq![0x73u16, 0x75, 0x70], Seq::empty(), Value::Undefined),
        Builtin::StringToUpperCase => case_changed(w, this, true),
        Builtin::StringToLowerCase => case_changed(w, this, false),
        Builtin::StringIsWellFormed => string_methods::formed(w, this),
        Builtin::StringToWellFormed => string_methods::well_formed_result(w, this),
        Builtin::StringTrim => string_methods::trim_result(w, this, true, true),
        Builtin::StringLocaleOrder => locale_ordered(w, this, args),
        Builtin::StringToLocaleText => string_methods::same_text_value(w, this),
        Builtin::StringConcat => string_methods::concatenated(w, this, args, limits.text),
        Builtin::StringRepeat => string_methods::repeat_result(w, this, args, limits.text),
        Builtin::StringSplit => string_patterns::split_string(w, this, args, limits.elements),
        Builtin::StringAt => string_methods::unit_text_at(w, this, args),
        Builtin::StringCodePointAt => string_methods::code_point_read(w, this, args),
        Builtin::StringTrimStart => string_methods::trim_result(w, this, true, false),
        Builtin::StringTrimEnd => string_methods::trim_result(w, this, false, true),
        Builtin::StringPadStart => string_methods::pad_result(w, this, args, true),
        Builtin::StringPadEnd => string_methods::pad_result(w, this, args, false),
        Builtin::StringMatch => string_patterns::matched(w, this, args),
        Builtin::StringSearch => string_patterns::sought(w, this, args),
        Builtin::StringMatchAll => string_patterns::all_matched(w, this, args),
        Builtin::StringReplace => string_patterns::replaced(w, this, args),
        Builtin::StringReplaceAll => string_patterns::replaced_everywhere(w, this, args),
        Builtin::StringFromCharCode => string_methods::char_codes_from(w, args, 0, Seq::empty()),
        Builtin::StringRaw => string_methods::raw_text(w, args),
        Builtin::StringFromCodePoint => string_methods::code_points_from(w, args, 0, Seq::empty()),
        Builtin::StringConstruct => string_methods::string_constructed(w, args),
        Builtin::StringIterate => string_iterator_object(w, this),
        Builtin::StringNext => text_next(w, this),
        Builtin::StringMatchesNext => matches_next(w, this),
        _ => (w, Ok(Value::Undefined)),
    }
}

fn call_string_builtin(i: &mut Interp, b: Builtin, this: Value, args: &[Value], limits: Limits) -> (r: Result<
    Value,
    Value,
>)
    ensures
        (final(i)@, r) == string_outcome(old(i)@, b, this, args@, limits),
{
    match b {
        Builtin::StringThisValue => string_this_value(i, this),
        Builtin::StringCharAt => nf_char_at(i, this, args),
        Builtin::StringCharCodeAt => nf_char_code_at(i, this, args),
        Builtin::StringIndexOf => string_index_of(i, this, args),
        Builtin::StringLastIndexOf => string_last_index_of(i, this, args),
        Builtin::StringToLocaleLowerCase => string_change_locale_case(i, this, args, false),
        Builtin::StringToLocaleUpperCase => string_change_locale_case(i, this, args, true),
        Builtin::StringNormalize => string_normalize(i, this, args),
        Builtin::StringIncludes => string_test(i, this, args, SubstringTest::Includes),
        Builtin::StringStartsWith => string_test(i, this, args, SubstringTest::StartsWith),
        Builtin::StringEndsWith => string_test(i, this, args, SubstringTest::EndsWith),
        Builtin::StringSlice => nf_string_slice(i, this, args),
        Builtin::StringSubstring => string_substring(i, this, args),
        Builtin::StringSubstr => string_substr(i, this, args),
        Builtin::StringAnchor => {
            let tag: Vec<u16> = vec![0x61u16];
            let attr: Vec<u16> = vec![0x6eu16, 0x61, 0x6d, 0x65];
            assert(tag@ =~= seq![0x61u16]);
            assert(attr@ =~= seq![0x6eu16, 0x61, 0x6d, 0x65]);
            string_html(i, this, &tag, &attr, arg(args, 0))
        },
        Builtin::StringLink => {
            let tag: Vec<u16> = vec![0x61u16];
            let attr: Vec<u16> = vec![0x68u16, 0x72, 0x65, 0x66];
            assert(tag@ =~= seq![0x61u16]);
            assert(attr@ =~= seq![0x68u16, 0x72, 0x65, 0x66]);
            string_html(i, this, &tag, &attr, arg(args, 0))
        },
        Builtin::StringFontColor => {
            let tag: Vec<u16> = vec![0x66u16, 0x6f, 0x6e, 0x74];
            let attr: Vec<u16> = vec![0x63u16, 0x6f, 0x6c, 0x6f, 0x72];
            assert(tag@ =~= seq![0x66u16, 0x6f, 0x6e, 0x74]);
            assert(attr@ =~= seq![0x63u16, 0x6f, 0x6c, 0x6f, 0x72]);
            string_html(i, this, &tag, &attr, arg(args, 0))
        },
        Builtin::StringFontSize => {
            let tag: Vec<u16> = vec![0x66u16, 0x6f, 0x6e, 0x74];
            let attr: Vec<u16> = vec![0x73u16, 0x69, 0x7a, 0x65];
            assert(tag@ =~= seq![0x66u16, 0x6f, 0x6e, 0x74]);
            assert(attr@ =~= seq![0x73u16, 0x69, 0x7a, 0x65]);
            string_html(i, this, &tag, &attr, arg(args, 0))
        },
        Builtin::StringBig => {
            let tag: Vec<u16> = vec![0x62u16, 0x69, 0x67];
            let attr: Vec<u16> = Vec::new();
            assert(tag@ =~= seq![0x62u16, 0x69, 0x67]);
            assert(attr@ =~= Seq::<u16>::empty());
            string_html(i, this, &tag, &attr, Value::Undefined)
        },
        Builtin::StringBlink => {
            let tag: Vec<u16> = vec![0x62u16, 0x6c, 0x69, 0x6e, 0x6b];
            let attr: Vec<u16> = Vec::new();
            assert(tag@ =~= seq![0x62u16, 0x6c, 0x69, 0x6e, 0x6b]);
            assert(attr@ =~= Seq::<u16>::empty());
            string_html(i, this, &tag, &attr, Value::Undefined)
        },
        Builtin::StringBold => {
            let tag: Vec<u16> = vec![0x62u16];
            let attr: Vec<u16> = Vec::new();
            assert(tag@ =~= seq![0x62u16]);
            assert(attr@ =~= Seq::<u16>::empty());
            string_html(i, this, &tag, &attr, Value::Undefined)
        },
        Builtin::StringFixed => {
            let tag: Vec<u16> = vec![0x74u16, 0x74];
            let attr: Vec<u16> = Vec::new();
            assert(tag@ =~= seq![0x74u16, 0x74]);
            assert(attr@ =~= Seq::<u16>::empty());
            string_html(i, this, &tag, &attr, Value::Undefined)
        },
        Builtin::StringItalics => {
            let tag: Vec<u16> = vec![0x69u16];
            let attr: Vec<u16> = Vec::new();
            assert(tag@ =~= seq![0x69u16]);
            assert(attr@ =~= Seq::<u16>::empty());
            string_html(i, this, &tag, &attr, Value::Undefined)
        },
        Builtin::StringSmall => {
            let tag: Vec<u16> = vec![0x73u16, 0x6d, 0x61, 0x6c, 0x6c];
            let attr: Vec<u16> = Vec::new();
            assert(tag@ =~= seq![0x73u16, 0x6d, 0x61, 0x6c, 0x6c]);
            assert(attr@ =~= Seq::<u16>::empty());
            string_html(i, this, &tag, &attr, Value::Undefined)
        },
        Builtin::StringStrike => {
            let tag: Vec<u16> = vec![0x73u16, 0x74, 0x72, 0x69, 0x6b, 0x65];
            let attr: Vec<u16> = Vec::new();
            assert(tag@ =~= seq![0x73u16, 0x74, 0x72, 0x69, 0x6b, 0x65]);
            assert(attr@ =~= Seq::<u16>::empty());
            string_html(i, this, &tag, &attr, Value::Undefined)
        },
        Builtin::StringSub => {
            let tag: Vec<u16> = vec![0x73u16, 0x75, 0x62];
            let attr: Vec<u16> = Vec::new();
            assert(tag@ =~= seq![0x73u16, 0x75, 0x62]);
            assert(attr@ =~= Seq::<u16>::empty());
            string_html(i, this, &tag, &attr, Value::Undefined)
        },
        Builtin::StringSup => {
            let tag: Vec<u16> = vec![0x73u16, 0x75, 0x70];
            let attr: Vec<u16> = Vec::new();
            assert(tag@ =~= seq![0x73u16, 0x75, 0x70]);
            assert(attr@ =~= Seq::<u16>::empty());
            string_html(i, this, &tag, &attr, Value::Undefined)
        },
        Builtin::StringToUpperCase => string_change_case(i, this, true),
        Builtin::StringToLowerCase => string_change_case(i, this, false),
        Builtin::StringIsWellFormed => string_is_well_formed(i, this),
        Builtin::StringToWellFormed => string_to_well_formed(i, this),
        Builtin::StringTrim => string_trim(i, this, true, true),
        Builtin::StringLocaleOrder => string_locale_order(i, this, args),
        Builtin::StringToLocaleText => string_to_locale_string(i, this),
        Builtin::StringConcat => string_concat(i, this, args, limits.text),
        Builtin::StringRepeat => string_repeat(i, this, args, limits.text),
        Builtin::StringSplit => nf_string_split(i, this, args, limits.elements),
        Builtin::StringAt => string_at(i, this, args),
        Builtin::StringCodePointAt => string_code_point_at(i, this, args),
        Builtin::StringTrimStart => string_trim(i, this, true, false),
        Builtin::StringTrimEnd => string_trim(i, this, false, true),
        Builtin::StringPadStart => string_pad(i, this, args, true),
        Builtin::StringPadEnd => string_pad(i, this, args, false),
        Builtin::StringMatch => nf_string_match(i, this, args),
        Builtin::StringSearch => string_search(i, this, args),
        Builtin::StringMatchAll => string_match_all(i, this, args),
        Builtin::StringReplace => nf_string_replace(i, this, args),
        Builtin::StringReplaceAll => string_replace_all(i, this, args),
        Builtin::StringFromCharCode => string_from_char_code(i, args),
        Builtin::StringRaw => string_raw(i, args),
        Builtin::StringFromCodePoint => string_from_code_point(i, args),
        Builtin::StringConstruct => string_constructor(i, args),
        Builtin::StringIterate => make_string_iterator_object(i, this),
        Builtin::StringNext => call_text_next(i, this),
        Builtin::StringMatchesNext => call_matches_next(i, this),
        _ => Ok(Value::Undefined),
    }
}

/// Generators and async generators.
pub open spec fn generator_outcome(w: World, b: Builtin, this: Value, args: Seq<Value>) -> Outcome<
    Value,
> {
    match b {
        Builtin::GeneratorNext => generator_driven(w, this, Resume::Next(arg_at(args, 0))),
        Builtin::GeneratorReturn => generator_driven(w, this, Resume::Return(arg_at(args, 0))),
        Builtin::GeneratorThrow => generator_driven(w, this, Resume::Throw(arg_at(args, 0))),
        Builtin::GeneratorAsyncNext => given(async_driven(w, this, Resume::Next(arg_at(args, 0)))),
        Builtin::GeneratorAsyncReturn => given(async_driven(w, this, Resume::Return(arg_at(args, 0)))),
        Builtin::GeneratorAsyncThrow => given(async_driven(w, this, Resume::Throw(arg_at(args, 0)))),
        _ => (w, Ok(Value::Undefined)),
    }
}

fn call_generator_builtin(i: &mut Interp, b: Builtin, this: Value, args: &[Value]) -> (r: Result<
    Value,
    Value,
>)
    ensures
        (final(i)@, r) == generator_outcome(old(i)@, b, this, args@),
{
    match b {
        Builtin::GeneratorNext => generator_next(i, this, args),
        Builtin::GeneratorReturn => generator_return(i, this, args),
        Builtin::GeneratorThrow => generator_throw(i, this, args),
        Builtin::GeneratorAsyncNext => Ok(async_generator_next(i, this, args)),
        Builtin::GeneratorAsyncReturn => Ok(async_generator_return(i, this, args)),
        Builtin::GeneratorAsyncThrow => Ok(async_generator_throw(i, this, args)),
        _ => Ok(Value::Undefined),
    }
}

/// The global functions and the console.
pub open spec fn global_outcome(w: World, b: Builtin, this: Value, args: Seq<Value>) -> Outcome<
    Value,
> {
    match b {
        Builtin::ConsoleLog => logged(w, args),
        Builtin::Print => printed(w, args),
        Builtin::ParseInt => integer_parsed(w, args),
        Builtin::ParseFloat => float_parsed(w, args),
        Builtin::IsNaN => nan_tested(w, args),
        Builtin::IsFinite => finite_tested(w, args),
        Builtin::Escape => escape_called(w, args),
        Builtin::Unescape => unescape_called(w, args),
        Builtin::EncodeUriComponent => encode_called(w, args, false),
        Builtin::EncodeUri => encode_called(w, args, true),
        Builtin::DecodeUriComponent => decode_called(w, args, false),
        Builtin::DecodeUri => decode_called(w, args, true),
        Builtin::Eval => evaluated(w, args),
        Builtin::ReturnThis => (w, Ok(this)),
        Builtin::HasInstance => as_boolean(w.value(Op::HasInstance(this, arg_at(args, 0)), Seq::empty())),
        _ => (w, Ok(Value::Undefined)),
    }
}

fn call_global_builtin(i: &mut Interp, b: Builtin, this: Value, args: &[Value]) -> (r: Result<
    Value,
    Value,
>)
    ensures
        (final(i)@, r) == global_outcome(old(i)@, b, this, args@),
{
    match b {
        Builtin::ConsoleLog => console_log(i, args),
        Builtin::Print => global_print(i, args),
        Builtin::ParseInt => call_parse_int(i, args),
        Builtin::ParseFloat => call_parse_float(i, args),
        Builtin::IsNaN => global_is_nan(i, args),
        Builtin::IsFinite => global_is_finite(i, args),
        Builtin::Escape => global_escape(i, args),
        Builtin::Unescape => global_unescape(i, args),
        Builtin::EncodeUriComponent => global_encode_uri(i, args, false),
        Builtin::EncodeUri => global_encode_uri(i, args, true),
        Builtin::DecodeUriComponent => global_decode_uri(i, args, false),
        Builtin::DecodeUri => global_decode_uri(i, args, true),
        Builtin::Eval => global_eval(i, args),
        Builtin::ReturnThis => Ok(this),
        Builtin::HasInstance => as_truth(i.value_of(Op::HasInstance(this, arg(args, 0)))),
        _ => Ok(Value::Undefined),
    }
}

/// The collections, weak references and registries.
pub open spec fn collection_outcome(w: World, own: Hidden, b: Builtin, this: Value, args: Seq<Value>) -> Changed {
    match b {
        Builtin::MapStore => entry_outcome(w, own, this, args, Brand::MapData, EntryOp::Store),
        Builtin::MapGet => entry_outcome(w, own, this, args, Brand::MapData, EntryOp::Get),
        Builtin::MapHas => entry_outcome(w, own, this, args, Brand::MapData, EntryOp::Has),
        Builtin::MapDelete => entry_outcome(w, own, this, args, Brand::MapData, EntryOp::Delete),
        Builtin::MapClear => entry_outcome(w, own, this, args, Brand::MapData, EntryOp::Clear),
        Builtin::MapForEach => untouched(own, set_methods::for_each(w, this, args, Brand::MapData)),
        Builtin::MapValues => untouched(own, entries_object(w, this, EntryKind::Values, Brand::MapData)),
        Builtin::MapEntries => untouched(own, entries_object(w, this, EntryKind::Entries, Brand::MapData)),
        Builtin::MapKeys => untouched(own, entries_object(w, this, EntryKind::Keys, Brand::MapData)),
        Builtin::SetAdd => entry_outcome(w, own, this, args, Brand::SetData, EntryOp::Store),
        Builtin::SetHas => entry_outcome(w, own, this, args, Brand::SetData, EntryOp::Has),
        Builtin::SetDelete => entry_outcome(w, own, this, args, Brand::SetData, EntryOp::Delete),
        Builtin::SetClear => entry_outcome(w, own, this, args, Brand::SetData, EntryOp::Clear),
        Builtin::SetForEach => untouched(own, set_methods::for_each(w, this, args, Brand::SetData)),
        Builtin::SetValues => untouched(own, entries_object(w, this, EntryKind::Values, Brand::SetData)),
        Builtin::SetEntries => untouched(own, entries_object(w, this, EntryKind::Entries, Brand::SetData)),
        Builtin::MapGroupBy => untouched(own, map_grouped(w, args)),
        Builtin::MapGetOrInsert => got_or_inserted(w, own, this, args),
        Builtin::MapGetOrInsertComputed => map_computed(w, own, this, args),
        Builtin::Union => untouched(own, combined(w, this, arg_at(args, 0), KeyAction::Add)),
        Builtin::Intersection => untouched(own, intersected(w, this, arg_at(args, 0))),
        Builtin::Difference => untouched(own, subtracted(w, this, arg_at(args, 0))),
        Builtin::SymmetricDifference => untouched(own, combined(w, this, arg_at(args, 0), KeyAction::Toggle)),
        Builtin::IsSubsetOf => untouched(own, subset_tested(w, this, arg_at(args, 0))),
        Builtin::IsSupersetOf => untouched(own, superset_tested(w, this, arg_at(args, 0))),
        Builtin::IsDisjointFrom => untouched(own, disjoint_tested(w, this, arg_at(args, 0))),
        Builtin::WeakMapStore => weakly_stored(w, own, this, args, false),
        Builtin::WeakMapGet => entry_outcome(w, own, this, args, Brand::WeakMapData, EntryOp::Get),
        Builtin::WeakMapGetOrInsert => weakly_got_or_stored(w, own, this, args, false),
        Builtin::WeakMapGetOrInsertComputed => weakly_got_or_stored(w, own, this, args, true),
        Builtin::WeakMapHas => entry_outcome(w, own, this, args, Brand::WeakData, EntryOp::Has),
        Builtin::WeakMapDelete => entry_outcome(w, own, this, args, Brand::WeakData, EntryOp::Delete),
        Builtin::WeakSetAdd => weakly_stored(w, own, this, args, true),
        Builtin::WeakSetHas => entry_outcome(w, own, this, args, Brand::WeakData, EntryOp::Has),
        Builtin::WeakSetDelete => entry_outcome(w, own, this, args, Brand::WeakData, EntryOp::Delete),
        Builtin::Deref => untouched(own, dereferenced(w, this)),
        Builtin::Register => registered(w, own, this, args),
        Builtin::Unregister => unregistered(w, own, this, args),
        Builtin::MapConstruct => untouched(own, collection_made(w, args, Brand::MapData, false)),
        Builtin::SetConstruct => untouched(own, collection_made(w, args, Brand::SetData, true)),
        Builtin::WeakMapConstruct => untouched(own, collection_made(w, args, Brand::WeakMapData, false)),
        Builtin::WeakSetConstruct => untouched(own, collection_made(w, args, Brand::WeakSetData, true)),
        Builtin::WeakRefConstruct => untouched(own, weak_ref_made(w, args)),
        Builtin::RegistryConstruct => untouched(own, registry_made(w, args)),
        Builtin::MapSize => entry_outcome(w, own, this, args, Brand::MapData, EntryOp::Size),
        Builtin::SetSize => entry_outcome(w, own, this, args, Brand::SetData, EntryOp::Size),
        Builtin::EntriesNext => untouched(own, entries_next(w, this)),
        _ => (w, own, Ok(Value::Undefined)),
    }
}

fn call_collection_builtin(
    i: &mut Interp,
    own: &mut Internal,
    b: Builtin,
    this: Value,
    args: &[Value],
) -> (r: Result<Value, Value>)
    requires
        old(own).wf(),
    ensures
        final(own).wf(),
        (final(i)@, final(own)@, r) == collection_outcome(old(i)@, old(own)@, b, this, args@),
{
    match b {
        Builtin::MapStore => entry_method(i, own, this, args, Brand::MapData, EntryOp::Store),
        Builtin::MapGet => entry_method(i, own, this, args, Brand::MapData, EntryOp::Get),
        Builtin::MapHas => entry_method(i, own, this, args, Brand::MapData, EntryOp::Has),
        Builtin::MapDelete => entry_method(i, own, this, args, Brand::MapData, EntryOp::Delete),
        Builtin::MapClear => entry_method(i, own, this, args, Brand::MapData, EntryOp::Clear),
        Builtin::MapForEach => collection_for_each(i, this, args, Brand::MapData),
        Builtin::MapValues => make_entries_object(i, this, EntryKind::Values, Brand::MapData),
        Builtin::MapEntries => make_entries_object(i, this, EntryKind::Entries, Brand::MapData),
        Builtin::MapKeys => make_entries_object(i, this, EntryKind::Keys, Brand::MapData),
        Builtin::SetAdd => entry_method(i, own, this, args, Brand::SetData, EntryOp::Store),
        Builtin::SetHas => entry_method(i, own, this, args, Brand::SetData, EntryOp::Has),
        Builtin::SetDelete => entry_method(i, own, this, args, Brand::SetData, EntryOp::Delete),
        Builtin::SetClear => entry_method(i, own, this, args, Brand::SetData, EntryOp::Clear),
        Builtin::SetForEach => collection_for_each(i, this, args, Brand::SetData),
        Builtin::SetValues => make_entries_object(i, this, EntryKind::Values, Brand::SetData),
        Builtin::SetEntries => make_entries_object(i, this, EntryKind::Entries, Brand::SetData),
        Builtin::MapGroupBy => map_group_by(i, args),
        Builtin::MapGetOrInsert => map_get_or_insert(i, own, this, args),
        Builtin::MapGetOrInsertComputed => map_get_or_insert_computed(i, own, this, args),
        Builtin::Union => set_union(i, this, args),
        Builtin::Intersection => set_intersection(i, this, args),
        Builtin::Difference => set_difference(i, this, args),
        Builtin::SymmetricDifference => set_symmetric_difference(i, this, args),
        Builtin::IsSubsetOf => set_is_subset_of(i, this, args),
        Builtin::IsSupersetOf => set_is_superset_of(i, this, args),
        Builtin::IsDisjointFrom => set_is_disjoint_from(i, this, args),
        Builtin::WeakMapStore => weak_store(i, own, this, args, false),
        Builtin::WeakMapGet => entry_method(i, own, this, args, Brand::WeakMapData, EntryOp::Get),
        Builtin::WeakMapGetOrInsert => weak_get_or_insert(i, own, this, args, false),
        Builtin::WeakMapGetOrInsertComputed => weak_get_or_insert(i, own, this, args, true),
        Builtin::WeakMapHas => entry_method(i, own, this, args, Brand::WeakData, EntryOp::Has),
        Builtin::WeakMapDelete => entry_method(i, own, this, args, Brand::WeakData, EntryOp::Delete),
        Builtin::WeakSetAdd => weak_store(i, own, this, args, true),
        Builtin::WeakSetHas => entry_method(i, own, this, args, Brand::WeakData, EntryOp::Has),
        Builtin::WeakSetDelete => entry_method(i, own, this, args, Brand::WeakData, EntryOp::Delete),
        Builtin::Deref => weak_ref_deref(i, this),
        Builtin::Register => registry_register(i, &mut own.registry, this, args),
        Builtin::Unregister => registry_unregister(i, &mut own.registry, this, args),
        Builtin::MapConstruct => collection_ctor(i, args, Brand::MapData, false),
        Builtin::SetConstruct => collection_ctor(i, args, Brand::SetData, true),
        Builtin::WeakMapConstruct => collection_ctor(i, args, Brand::WeakMapData, false),
        Builtin::WeakSetConstruct => collection_ctor(i, args, Brand::WeakSetData, true),
        Builtin::WeakRefConstruct => weak_ref_constructor(i, args),
        Builtin::RegistryConstruct => registry_constructor(i, args),
        Builtin::MapSize => entry_method(i, own, this, args, Brand::MapData, EntryOp::Size),
        Builtin::SetSize => entry_method(i, own, this, args, Brand::SetData, EntryOp::Size),
        Builtin::EntriesNext => call_entries_next(i, this),
        _ => Ok(Value::Undefined),
    }
}

// Calling

/// What a built-in does: the questions it asks, what becomes of the internal data of its receiver,
/// and what it returns or throws.
pub open spec fn builtin_outcome(
    w: World,
    own: Hidden,
    b: Builtin,
    this: Value,
    args: Seq<Value>,
    limits: Limits,
) -> Changed {
    match b.kind() {
        Kind::Object => untouched(own, object_outcome(w, b, this, args)),
        Kind::Array => untouched(own, array_outcome(w, b, this, args, limits)),
        Kind::Iterator => untouched(own, iterator_outcome(w, b, this, args)),
        Kind::Text => untouched(own, string_outcome(w, b, this, args, limits)),
        Kind::Collection => collection_outcome(w, own, b, this, args),
        Kind::Generator => untouched(own, generator_outcome(w, b, this, args)),
        Kind::Global => untouched(own, global_outcome(w, b, this, args)),
    }
}

/// Calls a built-in. `own` is the internal data of the receiver, empty where it has none.
pub fn call_builtin(
    i: &mut Interp,
    own: &mut Internal,
    b: Builtin,
    this: Value,
    args: &[Value],
    limits: Limits,
) -> (r: Result<Value, Value>)
    requires
        old(own).wf(),
    ensures
        final(own).wf(),
        (final(i)@, final(own)@, r) == builtin_outcome(
            old(i)@,
            old(own)@,
            b,
            this,
            args@,
            limits,
        ),
{
    match b.kind_of() {
        Kind::Object => call_object_builtin(i, b, this, args),
        Kind::Array => call_array_builtin(i, b, this, args, limits),
        Kind::Iterator => call_iterator_builtin(i, b, this, args),
        Kind::Text => call_string_builtin(i, b, this, args, limits),
        Kind::Collection => call_collection_builtin(i, own, b, this, args),
        Kind::Generator => call_generator_builtin(i, b, this, args),
        Kind::Global => call_global_builtin(i, b, this, args),
    }
}

/// What an anonymous function of the promise machinery does with its bound values and arguments.
pub open spec fn native_outcome(w: World, n: Native, args: Seq<Value>) -> Outcome<Value> {
    match n {
        Native::CapabilityExecutor => executor_called(w, args),
        Native::PassValue => (w, Ok(arg_at(args, 0))),
        Native::PassReason => (w, Err(arg_at(args, 0))),
        Native::KeyedElement => keyed_recorded(w, args, arg_at(args, 4)),
        Native::KeyedFulfilled => keyed_settled(w, args, true),
        Native::KeyedRejected => keyed_settled(w, args, false),
        Native::ThenableJob => (thenable_job(w, args), Ok(Value::Undefined)),
    }
}

/// Calls an anonymous function of the promise machinery; its bound values come first in `args`.
pub fn call_native(i: &mut Interp, n: Native, args: &[Value]) -> (r: Result<Value, Value>)
    ensures
        (final(i)@, r) == native_outcome(old(i)@, n, args@),
{
    match n {
        Native::CapabilityExecutor => capability_executor(i, args),
        Native::PassValue => pf_return(args),
        Native::PassReason => pf_throw(args),
        Native::KeyedElement => promise_keyed_element(i, args),
        Native::KeyedFulfilled => promise_keyed_settle(i, args, true),
        Native::KeyedRejected => promise_keyed_settle(i, args, false),
        Native::ThenableJob => thenable_job_run(i, args),
    }
}

/// What a native reaction does with the value or reason that a promise was settled with.
pub open spec fn reaction_outcome(w: World, r: Reaction, v: Value) -> Outcome<Value> {
    match r {
        Reaction::Absent => (w, Ok(v)),
        Reaction::SettleUndefined(p) => (
            w.plain(Op::ResolvePromise(p, Value::Undefined), Seq::empty()).0,
            Ok(Value::Undefined),
        ),
        Reaction::SettleReject(p) => (
            w.plain(Op::RejectPromise(p, v), Seq::empty()).0,
            Ok(Value::Undefined),
        ),
        Reaction::Unwrap(done) => w.iter_result(v, done),
        Reaction::CloseAndReject(it) => w.close_and_throw(it, v),
    }
}

/// Runs a native reaction.
pub fn call_reaction(i: &mut Interp, r: Reaction, v: Value) -> (res: Result<Value, Value>)
    ensures
        (final(i)@, res) == reaction_outcome(old(i)@, r, v),
{
    match r {
        Reaction::Absent => Ok(v),
        Reaction::SettleUndefined(p) => {
            let _ = i.perform(Op::ResolvePromise(p, Value::Undefined));
            Ok(Value::Undefined)
        },
        Reaction::SettleReject(p) => {
            let _ = i.perform(Op::RejectPromise(p, v));
            Ok(Value::Undefined)
        },
        Reaction::Unwrap(done) => from_async_sync_unwrap(i, done, v),
        Reaction::CloseAndReject(it) => from_async_sync_reject(i, it, v),
    }
}

// Laws of installed functions

/// What `get` gives back of what `set` stored: the value, under the same key, whatever was asked
/// meanwhile; `has` finds the key; other keys are as they were; and once the key is deleted it is
/// gone. Questions about the Map, which methods ask while other code may run, are answered alike.
pub proof fn law_a_map_gives_back_what_it_was_given(
    w: World,
    w2: World,
    own: Hidden,
    this: Value,
    k: Value,
    v: Value,
    other: Value,
    limits: Limits,
)
    requires
        own.brand == Some(Brand::MapData),
        unique(own.entries),
        this.object(),
    ensures
        ({
            let (w1, after, r) = builtin_outcome(
                w,
                own,
                Builtin::MapStore,
                this,
                seq![k, v],
                limits,
            );
            let got = builtin_outcome(w2, after, Builtin::MapGet, this, seq![k], limits);
            let has = builtin_outcome(w2, after, Builtin::MapHas, this, seq![k], limits);
            let was = builtin_outcome(w2, own, Builtin::MapGet, this, seq![other], limits);
            let is = builtin_outcome(w2, after, Builtin::MapGet, this, seq![other], limits);
            let gone = builtin_outcome(w2, after, Builtin::MapDelete, this, seq![k], limits);
            let lost = builtin_outcome(w2, gone.1, Builtin::MapGet, this, seq![k], limits);
            &&& w1 == w && r == Ok::<Value, Value>(this)
            &&& unique(after.entries) && after.brand == own.brand
            &&& got == (w2, after, Ok::<Value, Value>(v))
            &&& has == (w2, after, Ok::<Value, Value>(Value::Bool(true)))
            &&& !same_zero(k, other) ==> is.2 == was.2
            &&& gone.2 == Ok::<Value, Value>(Value::Bool(true))
            &&& lost.2 == Ok::<Value, Value>(Value::Undefined)
            &&& answered(after, Op::EntryValue(this, k)) == Some(Answer::List(seq![v]))
            &&& answered(after, Op::HoldsKey(this, k)) == Some(Answer::Value(Value::Bool(true)))
        }),
{
    let c = canonical_key(k);
    let s = inserted(own.entries, c, v);
    law_get_after_set(own.entries, c, v);
    law_canonical_keys_agree(k, other);
    law_canonical_keys_agree(k, c);
    law_canonical_keys_agree(c, canonical_key(other));
    law_canonical_keys_agree(c, k);
    if !same_zero(k, other) {
        law_set_leaves_others(own.entries, c, v, canonical_key(other));
    }
    law_delete_removes_one(s, c, c);
    lemma_same_lookup(s, c, k);
}

/// A key and its canonical form stand for the same entry.
proof fn lemma_same_lookup(s: Slots, c: Value, k: Value)
    requires
        unique(s),
        same_zero(c, k),
    ensures
        lookup(s, c) == lookup(s, k),
{
    law_same_value_zero_is_equivalence(c, k, c);
    if let Some(p) = position_of(s, c) {
        assert(holds_at(s, c, p));
        law_same_value_zero_is_equivalence(key_in(s[p]), c, k);
        lemma_position(s, k, p);
    }
    if let Some(p) = position_of(s, k) {
        assert(holds_at(s, k, p));
        law_same_value_zero_is_equivalence(key_in(s[p]), k, c);
        lemma_position(s, c, p);
    }
}

/// A Set has what was added to it, and no longer what was deleted from it.
pub proof fn law_a_set_has_what_was_added(
    w: World,
    w2: World,
    own: Hidden,
    this: Value,
    k: Value,
    limits: Limits,
)
    requires
        own.brand == Some(Brand::SetData),
        unique(own.entries),
        this.object(),
    ensures
        ({
            let (w1, after, r) = builtin_outcome(w, own, Builtin::SetAdd, this, seq![k], limits);
            let has = builtin_outcome(w2, after, Builtin::SetHas, this, seq![k], limits);
            let gone = builtin_outcome(w2, after, Builtin::SetDelete, this, seq![k], limits);
            let lost = builtin_outcome(w2, gone.1, Builtin::SetHas, this, seq![k], limits);
            &&& w1 == w && r == Ok::<Value, Value>(this)
            &&& unique(after.entries) && after.brand == own.brand
            &&& has == (w2, after, Ok::<Value, Value>(Value::Bool(true)))
            &&& gone.2 == Ok::<Value, Value>(Value::Bool(true))
            &&& lost.2 == Ok::<Value, Value>(Value::Bool(false))
        }),
{
    let c = canonical_key(k);
    law_get_after_set(own.entries, c, c);
    law_delete_removes_one(inserted(own.entries, c, c), c, c);
}

/// A WeakMap gives back what was stored under an object.
pub proof fn law_a_weak_map_gives_back_what_it_was_given(
    w: World,
    w2: World,
    own: Hidden,
    this: Value,
    k: Value,
    v: Value,
    limits: Limits,
)
    requires
        own.brand == Some(Brand::WeakMapData),
        this.object(),
        k.object(),
    ensures
        ({
            let (w1, after, r) = builtin_outcome(
                w,
                own,
                Builtin::WeakMapStore,
                this,
                seq![k, v],
                limits,
            );
            let got = builtin_outcome(w2, after, Builtin::WeakMapGet, this, seq![k], limits);
            let gone = builtin_outcome(w2, after, Builtin::WeakMapDelete, this, seq![k], limits);
            let lost = builtin_outcome(w2, gone.1, Builtin::WeakMapHas, this, seq![k], limits);
            &&& w1 == w && r == Ok::<Value, Value>(this)
            &&& got == (w2, after, Ok::<Value, Value>(v))
            &&& gone.2 == Ok::<Value, Value>(Value::Bool(true))
            &&& lost.2 == Ok::<Value, Value>(Value::Bool(false))
        }),
{
}

/// A token that an object was registered under is unregistered once: the first call reports a
/// removal, a second one does not.
pub proof fn law_a_token_is_unregistered_once(
    w: World,
    own: Hidden,
    this: Value,
    token: Value,
    limits: Limits,
)
    requires
        token.object(),
        exists|j: int| 0 <= j < own.cells.len() && goes_by(#[trigger] own.cells[j], token),
        builtin_outcome(w, own, Builtin::Unregister, this, seq![token], limits).2 is Ok,
    ensures
        ({
            let (w1, after, r) = builtin_outcome(
                w,
                own,
                Builtin::Unregister,
                this,
                seq![token],
                limits,
            );
            let (_, last, again) = builtin_outcome(
                w1,
                after,
                Builtin::Unregister,
                this,
                seq![token],
                limits,
            );
            &&& r == Ok::<Value, Value>(Value::Bool(true))
            &&& again is Ok ==> again == Ok::<Value, Value>(Value::Bool(false)) && last.cells
                == after.cells
        }),
{
    let rest = cells_without(own.cells, token);
    law_unregistered_tokens_are_gone(own.cells, token);
    let j = choose|j: int| 0 <= j < own.cells.len() && goes_by(#[trigger] own.cells[j], token);
    if rest.len() == own.cells.len() {
        lemma_full_filter(own.cells, token, j);
    }
}

proof fn lemma_full_filter(cells: Seq<Cell>, token: Value, j: int)
    requires
        0 <= j < cells.len(),
        goes_by(cells[j], token),
    ensures
        cells_without(cells, token).len() < cells.len(),
    decreases cells.len(),
{
    reveal(Seq::filter);
    let keep = |x: Cell| !goes_by(x, token);
    let front = cells.drop_last();
    if j < front.len() {
        lemma_full_filter(front, token, j);
    } else {
        front.lemma_filter_len(keep);
    }
}

/// `unescape` undoes `escape`, as they are installed.
pub proof fn law_unescape_undoes_escape_as_installed(
    w: World,
    own: Hidden,
    this: Value,
    s: u64,
    limits: Limits,
)
    requires
        s < w.strings.len(),
        w.strings.len() < u64::MAX - 1,
    ensures
        ({
            let (w1, _, e) = builtin_outcome(
                w,
                own,
                Builtin::Escape,
                this,
                seq![Value::Str(s)],
                limits,
            );
            let (w2, _, u) = builtin_outcome(w1, own, Builtin::Unescape, this, seq![e->Ok_0], limits);
            &&& e is Ok && e->Ok_0 is Str
            &&& u matches Ok(Value::Str(t)) && w2.units(t) == w.units(s)
        }),
{
    law_unescape_undoes_escape(w.units(s));
    let text = escaped(w.units(s));
    law_interned_strings_read_back(w, text, s);
    let (w1, h) = w.intern(text);
    law_interned_strings_read_back(w1, unescaped(w1.units(h)), h);
}

/// A run that ends with an open question has left the internal data of the receiver alone, so that
/// the built-in may run again with one more answer.
pub proof fn law_an_open_question_changes_nothing(
    w: World,
    own: Hidden,
    b: Builtin,
    this: Value,
    args: Seq<Value>,
    limits: Limits,
)
    requires
        !w.halted(),
        builtin_outcome(w, own, b, this, args, limits).0.halted(),
    ensures
        builtin_outcome(w, own, b, this, args, limits).1 == own,
{
    if b.kind() == Kind::Collection {
        lemma_collections_change_last(w, own, b, this, args);
    }
}

proof fn lemma_collections_change_last(
    w: World,
    own: Hidden,
    b: Builtin,
    this: Value,
    args: Seq<Value>,
)
    requires
        !w.halted(),
        collection_outcome(w, own, b, this, args).0.halted(),
    ensures
        collection_outcome(w, own, b, this, args).1 == own,
{
    match b {
        Builtin::MapStore => lemma_entry_changes_last(w, own, this, args, Brand::MapData, EntryOp::Store),
        Builtin::MapGet => lemma_entry_changes_last(w, own, this, args, Brand::MapData, EntryOp::Get),
        Builtin::MapHas => lemma_entry_changes_last(w, own, this, args, Brand::MapData, EntryOp::Has),
        Builtin::MapDelete => lemma_entry_changes_last(w, own, this, args, Brand::MapData, EntryOp::Delete),
        Builtin::MapClear => lemma_entry_changes_last(w, own, this, args, Brand::MapData, EntryOp::Clear),
        Builtin::SetAdd => lemma_entry_changes_last(w, own, this, args, Brand::SetData, EntryOp::Store),
        Builtin::SetHas => lemma_entry_changes_last(w, own, this, args, Brand::SetData, EntryOp::Has),
        Builtin::SetDelete => lemma_entry_changes_last(w, own, this, args, Brand::SetData, EntryOp::Delete),
        Builtin::SetClear => lemma_entry_changes_last(w, own, this, args, Brand::SetData, EntryOp::Clear),
        Builtin::WeakMapGet => lemma_entry_changes_last(w, own, this, args, Brand::WeakMapData, EntryOp::Get),
        Builtin::WeakMapHas => lemma_entry_changes_last(w, own, this, args, Brand::WeakData, EntryOp::Has),
        Builtin::WeakMapDelete => lemma_entry_changes_last(w, own, this, args, Brand::WeakData, EntryOp::Delete),
        Builtin::WeakSetHas => lemma_entry_changes_last(w, own, this, args, Brand::WeakData, EntryOp::Has),
        Builtin::WeakSetDelete => lemma_entry_changes_last(w, own, this, args, Brand::WeakData, EntryOp::Delete),
        Builtin::MapSize => lemma_entry_changes_last(w, own, this, args, Brand::MapData, EntryOp::Size),
        Builtin::SetSize => lemma_entry_changes_last(w, own, this, args, Brand::SetData, EntryOp::Size),
        Builtin::MapGetOrInsert => lemma_insert_changes_last(w, own, this, args),
        Builtin::MapGetOrInsertComputed => lemma_map_computed_changes_last(w, own, this, args),
        Builtin::WeakMapStore => lemma_weak_store_changes_last(w, own, this, args, false),
        Builtin::WeakSetAdd => lemma_weak_store_changes_last(w, own, this, args, true),
        Builtin::WeakMapGetOrInsert => lemma_weak_insert_changes_last(w, own, this, args, false),
        Builtin::WeakMapGetOrInsertComputed => lemma_weak_insert_changes_last(
            w,
            own,
            this,
            args,
            true,
        ),
        Builtin::Register => lemma_registered_last(w, own, this, args),
        Builtin::Unregister => lemma_unregistered_last(w, own, this, args),
        _ => lemma_others_leave_data(w, own, b, this, args),
    }
}

/// The built-ins that change internal data.
spec fn changes_data(b: Builtin) -> bool {
    match b {
        Builtin::MapStore => true,
        Builtin::MapGet => true,
        Builtin::MapHas => true,
        Builtin::MapDelete => true,
        Builtin::MapClear => true,
        Builtin::SetAdd => true,
        Builtin::SetHas => true,
        Builtin::SetDelete => true,
        Builtin::SetClear => true,
        Builtin::WeakMapGet => true,
        Builtin::WeakMapHas => true,
        Builtin::WeakMapDelete => true,
        Builtin::WeakSetHas => true,
        Builtin::WeakSetDelete => true,
        Builtin::MapSize => true,
        Builtin::SetSize => true,
        Builtin::MapGetOrInsert => true,
        Builtin::MapGetOrInsertComputed => true,
        Builtin::WeakMapStore => true,
        Builtin::WeakSetAdd => true,
        Builtin::WeakMapGetOrInsert => true,
        Builtin::WeakMapGetOrInsertComputed => true,
        Builtin::Register => true,
        Builtin::Unregister => true,
        _ => false,
    }
}

proof fn lemma_others_leave_data(w: World, own: Hidden, b: Builtin, this: Value, args: Seq<Value>)
    requires
        !changes_data(b),
    ensures
        collection_outcome(w, own, b, this, args).1 == own,
{
}

proof fn lemma_registered_last(w: World, own: Hidden, this: Value, args: Seq<Value>)
    requires
        !w.halted(),
    ensures
        registered(w, own, this, args).0.halted() ==> registered(w, own, this, args).1 == own,
{
    let (w1, ok) = branded(w, this, Brand::RegistryData);
    let (w2, fits) = holdable(w1, arg_at(args, 0));
    if ok {
        lemma_holdable_is_answered(w1, arg_at(args, 0));
        if fits {
            lemma_holdable_is_answered(w2, arg_at(args, 2));
        }
    }
}

proof fn lemma_unregistered_last(w: World, own: Hidden, this: Value, args: Seq<Value>)
    requires
        !w.halted(),
    ensures
        unregistered(w, own, this, args).0.halted() ==> unregistered(w, own, this, args).1 == own,
{
    let (w1, ok) = branded(w, this, Brand::RegistryData);
    if ok {
        lemma_holdable_is_answered(w1, arg_at(args, 0));
    }
}

} // verus!
