//! Which work each built-in does when it is called.
use vstd::prelude::*;
use crate::builtin::Builtin;
use crate::case::{case_changed, locale_case_changed};
use crate::dispatch::{builtin_outcome, Limits};
use crate::equality::same;
use crate::globals::{evaluated, finite_tested, logged, nan_tested, printed};
use crate::interp::{arg_at, Key, Outcome, Value, WellKnown, World};
use crate::iter_helper::{chunking_made, helper_made, HelperKind};
use crate::iterator_calls::{
    concat_called, concat_object, from_called, helper_called, helper_object, matches_next,
    text_next, wrapper_called, zip_called, zip_object,
};
use crate::iterator_objects::{iterator_constructed, weirdly_set};
use crate::locale::locale_ordered;
use crate::object::{
    accessor_defined, accessor_looked_up, assigned, constructed, created, descriptor_got,
    descriptors_got, enumerability, extension_stopped, from_entries, levelled, listing,
    locally_stringified, object_for, object_grouped, object_with_properties, own_names,
    property_put, proto_has_own, proto_read, proto_written, prototype_got, prototype_put,
    prototype_tested, static_has_own, stringified, Listing,
};
use crate::set_methods::Changed;
use crate::slots::Hidden;
use crate::sort::{sorted_copy, sorted_in_place};
use crate::string_methods::SubstringTest;
use crate::uri::{decode_called, encode_called, escape_called, unescape_called};
use crate::zip::{concat_made, zip_made};
use crate::array;
use crate::array_callbacks;
use crate::iterator;
use crate::string_methods;
use crate::string_patterns;

verus! {

/// An outcome that leaves the internal data of the receiver alone.
pub open spec fn leaving(own: Hidden, o: Outcome<Value>) -> Changed {
    (o.0, own, o.1)
}

/// Which work the array functions and methods do.
pub proof fn law_array_builtins(
    w: World,
    own: Hidden,
    this: Value,
    args: Seq<Value>,
    limits: Limits,
)
    ensures
        builtin_outcome(w, own, Builtin::ArrayPush, this, args, limits) == leaving(
            own,
            array::pushed(w, this, args),
        ),
        builtin_outcome(w, own, Builtin::ArrayPop, this, args, limits) == leaving(
            own,
            array::popped(w, this),
        ),
        builtin_outcome(w, own, Builtin::ArrayShift, this, args, limits) == leaving(
            own,
            array::shifted(w, this, limits.elements),
        ),
        builtin_outcome(w, own, Builtin::ArrayUnshift, this, args, limits) == leaving(
            own,
            array::unshifted(w, this, args),
        ),
        builtin_outcome(w, own, Builtin::ArraySlice, this, args, limits) == leaving(
            own,
            array::sliced(w, this, args),
        ),
        builtin_outcome(w, own, Builtin::ArrayIndexOf, this, args, limits) == leaving(
            own,
            array::index_found(w, this, args),
        ),
        builtin_outcome(w, own, Builtin::ArrayIncludes, this, args, limits) == leaving(
            own,
            array::inclusion(w, this, args),
        ),
        builtin_outcome(w, own, Builtin::ArrayJoin, this, args, limits) == leaving(
            own,
            array_callbacks::joined(w, this, args, limits.elements),
        ),
        builtin_outcome(w, own, Builtin::ArrayConcat, this, args, limits) == leaving(
            own,
            array::concatenated(w, this, args),
        ),
        builtin_outcome(w, own, Builtin::ArrayForEach, this, args, limits) == leaving(
            own,
            array_callbacks::each(w, this, args),
        ),
        builtin_outcome(w, own, Builtin::ArrayMapEach, this, args, limits) == leaving(
            own,
            array_callbacks::mapped(w, this, args),
        ),
        builtin_outcome(w, own, Builtin::ArrayFilter, this, args, limits) == leaving(
            own,
            array_callbacks::filtered(w, this, args),
        ),
        builtin_outcome(w, own, Builtin::ArrayReduce, this, args, limits) == leaving(
            own,
            array_callbacks::reduced(w, this, args, false),
        ),
        builtin_outcome(w, own, Builtin::ArrayReverse, this, args, limits) == leaving(
            own,
            array::reversed(w, this),
        ),
        builtin_outcome(w, own, Builtin::ArrayToText, this, args, limits) == leaving(
            own,
            array_callbacks::array_stringified(w, this),
        ),
        builtin_outcome(w, own, Builtin::ArrayToLocaleText, this, args, limits) == leaving(
            own,
            array_callbacks::localized(w, this, args, limits.elements),
        ),
        builtin_outcome(w, own, Builtin::ArrayAt, this, args, limits) == leaving(
            own,
            array::element_at(w, this, args, limits.elements),
        ),
        builtin_outcome(w, own, Builtin::ArrayFind, this, args, limits) == leaving(
            own,
            array_callbacks::found(w, this, args, true, false),
        ),
        builtin_outcome(w, own, Builtin::ArrayFindIndex, this, args, limits) == leaving(
            own,
            array_callbacks::found(w, this, args, false, false),
        ),
        builtin_outcome(w, own, Builtin::ArrayFindLast, this, args, limits) == leaving(
            own,
            array_callbacks::found(w, this, args, true, true),
        ),
        builtin_outcome(w, own, Builtin::ArrayFindLastIndex, this, args, limits) == leaving(
            own,
            array_callbacks::found(w, this, args, false, true),
        ),
        builtin_outcome(w, own, Builtin::ArrayAnyOf, this, args, limits) == leaving(
            own,
            array_callbacks::tested(w, this, args, false),
        ),
        builtin_outcome(w, own, Builtin::ArrayAllOf, this, args, limits) == leaving(
            own,
            array_callbacks::tested(w, this, args, true),
        ),
        builtin_outcome(w, own, Builtin::ArrayFill, this, args, limits) == leaving(
            own,
            array::filled(w, this, args, limits.elements),
        ),
        builtin_outcome(w, own, Builtin::ArrayLastIndexOf, this, args, limits) == leaving(
            own,
            array::last_index_found(w, this, args),
        ),
        builtin_outcome(w, own, Builtin::ArrayFlat, this, args, limits) == leaving(
            own,
            array_callbacks::flattened(w, this, args),
        ),
        builtin_outcome(w, own, Builtin::ArrayFlatMap, this, args, limits) == leaving(
            own,
            array_callbacks::flat_mapped(w, this, args),
        ),
        builtin_outcome(w, own, Builtin::ArraySplice, this, args, limits) == leaving(
            own,
            array::spliced(w, this, args),
        ),
        builtin_outcome(w, own, Builtin::ArraySort, this, args, limits) == leaving(
            own,
            sorted_in_place(w, this, args, limits.elements),
        ),
        builtin_outcome(w, own, Builtin::ArrayToReversed, this, args, limits) == leaving(
            own,
            array_callbacks::reversed_copy(w, this, limits.elements),
        ),
        builtin_outcome(w, own, Builtin::ArrayToSorted, this, args, limits) == leaving(
            own,
            sorted_copy(w, this, args, limits.elements),
        ),
        builtin_outcome(w, own, Builtin::ArrayWith, this, args, limits) == leaving(
            own,
            array_callbacks::replaced_copy(w, this, args, limits.elements),
        ),
        builtin_outcome(w, own, Builtin::ArrayToSpliced, this, args, limits) == leaving(
            own,
            array_callbacks::spliced_copy(w, this, args, limits.elements),
        ),
        builtin_outcome(w, own, Builtin::ArrayReduceRight, this, args, limits) == leaving(
            own,
            array_callbacks::reduced(w, this, args, true),
        ),
        builtin_outcome(w, own, Builtin::ArrayCopyWithin, this, args, limits) == leaving(
            own,
            array::moved_within(w, this, args),
        ),
        builtin_outcome(w, own, Builtin::ArrayOfElements, this, args, limits) == leaving(
            own,
            array_callbacks::made_of(w, this, args),
        ),
        builtin_outcome(w, own, Builtin::ArrayFromItems, this, args, limits) == leaving(
            own,
            array_callbacks::made_from(w, this, args),
        ),
        builtin_outcome(w, own, Builtin::ArrayConstruct, this, args, limits) == leaving(
            own,
            array_callbacks::array_constructed(w, args),
        ),
        builtin_outcome(w, own, Builtin::ArrayNext, this, args, limits) == leaving(
            own,
            array_callbacks::array_iterator_stepped(w, this),
        ),
{
}

/// Which work the `Iterator` functions and methods do.
pub proof fn law_iterator_builtins(
    w: World,
    own: Hidden,
    this: Value,
    args: Seq<Value>,
    limits: Limits,
)
    ensures
        builtin_outcome(w, own, Builtin::IteratorMapEach, this, args, limits) == leaving(
            own,
            helper_object(helper_made(w, this, HelperKind::Mapping, arg_at(args, 0))),
        ),
        builtin_outcome(w, own, Builtin::IteratorFilter, this, args, limits) == leaving(
            own,
            helper_object(helper_made(w, this, HelperKind::Filter, arg_at(args, 0))),
        ),
        builtin_outcome(w, own, Builtin::IteratorTake, this, args, limits) == leaving(
            own,
            helper_object(helper_made(w, this, HelperKind::Take, arg_at(args, 0))),
        ),
        builtin_outcome(w, own, Builtin::IteratorDrop, this, args, limits) == leaving(
            own,
            helper_object(helper_made(w, this, HelperKind::Drop, arg_at(args, 0))),
        ),
        builtin_outcome(w, own, Builtin::IteratorChunks, this, args, limits) == leaving(
            own,
            helper_object(chunking_made(w, this, arg_at(args, 0), None)),
        ),
        builtin_outcome(w, own, Builtin::IteratorWindows, this, args, limits) == leaving(
            own,
            helper_object(chunking_made(w, this, arg_at(args, 0), Some(arg_at(args, 1)))),
        ),
        builtin_outcome(w, own, Builtin::IteratorIncludes, this, args, limits) == leaving(
            own,
            iterator::included(w, this, args),
        ),
        builtin_outcome(w, own, Builtin::IteratorJoin, this, args, limits) == leaving(
            own,
            iterator::joined(w, this, args),
        ),
        builtin_outcome(w, own, Builtin::IteratorFlatMap, this, args, limits) == leaving(
            own,
            helper_object(helper_made(w, this, HelperKind::FlatMap, arg_at(args, 0))),
        ),
        builtin_outcome(w, own, Builtin::IteratorToArray, this, args, limits) == leaving(
            own,
            iterator::to_array(w, this),
        ),
        builtin_outcome(w, own, Builtin::IteratorForEach, this, args, limits) == leaving(
            own,
            iterator::for_each(w, this, args),
        ),
        builtin_outcome(w, own, Builtin::IteratorReduce, this, args, limits) == leaving(
            own,
            iterator::reduced(w, this, args),
        ),
        builtin_outcome(w, own, Builtin::IteratorAnyOf, this, args, limits) == leaving(
            own,
            iterator::some_every(w, this, args, true),
        ),
        builtin_outcome(w, own, Builtin::IteratorAllOf, this, args, limits) == leaving(
            own,
            iterator::some_every(w, this, args, false),
        ),
        builtin_outcome(w, own, Builtin::IteratorFind, this, args, limits) == leaving(
            own,
            iterator::found(w, this, args),
        ),
        builtin_outcome(w, own, Builtin::IteratorFromValue, this, args, limits) == leaving(
            own,
            from_called(w, args),
        ),
        builtin_outcome(w, own, Builtin::IteratorZip, this, args, limits) == leaving(
            own,
            zip_object(zip_made(w, args, false)),
        ),
        builtin_outcome(w, own, Builtin::IteratorZipKeyed, this, args, limits) == leaving(
            own,
            zip_object(zip_made(w, args, true)),
        ),
        builtin_outcome(w, own, Builtin::IteratorConcat, this, args, limits) == leaving(
            own,
            concat_object(concat_made(w, args)),
        ),
        builtin_outcome(w, own, Builtin::IteratorWrapNext, this, args, limits) == leaving(
            own,
            wrapper_called(w, this, false),
        ),
        builtin_outcome(w, own, Builtin::IteratorWrapReturn, this, args, limits) == leaving(
            own,
            wrapper_called(w, this, true),
        ),
        builtin_outcome(w, own, Builtin::IteratorHelperNext, this, args, limits) == leaving(
            own,
            helper_called(w, this, false),
        ),
        builtin_outcome(w, own, Builtin::IteratorHelperReturn, this, args, limits) == leaving(
            own,
            helper_called(w, this, true),
        ),
        builtin_outcome(w, own, Builtin::IteratorZipNext, this, args, limits) == leaving(
            own,
            zip_called(w, this, false),
        ),
        builtin_outcome(w, own, Builtin::IteratorZipReturn, this, args, limits) == leaving(
            own,
            zip_called(w, this, true),
        ),
        builtin_outcome(w, own, Builtin::IteratorConcatNext, this, args, limits) == leaving(
            own,
            concat_called(w, this, false),
        ),
        builtin_outcome(w, own, Builtin::IteratorConcatReturn, this, args, limits) == leaving(
            own,
            concat_called(w, this, true),
        ),
        builtin_outcome(w, own, Builtin::IteratorConstruct, this, args, limits) == leaving(
            own,
            iterator_constructed(w, this),
        ),
        builtin_outcome(w, own, Builtin::IteratorWriteConstructor, this, args, limits) == leaving(
            own,
            weirdly_set(w, this, arg_at(args, 0), Key::Name("constructor")),
        ),
        builtin_outcome(w, own, Builtin::IteratorWriteTag, this, args, limits) == leaving(
            own,
            weirdly_set( w, this, arg_at(args, 0), Key::Symbol(WellKnown::ToStringTag), ),
        ),
{
}

/// Which work the `String` functions and methods do.
pub proof fn law_string_builtins(
    w: World,
    own: Hidden,
    this: Value,
    args: Seq<Value>,
    limits: Limits,
)
    ensures
        builtin_outcome(w, own, Builtin::StringThisValue, this, args, limits) == leaving(
            own,
            string_methods::string_value(w, this),
        ),
        builtin_outcome(w, own, Builtin::StringCharAt, this, args, limits) == leaving(
            own,
            string_methods::char_text(w, this, args),
        ),
        builtin_outcome(w, own, Builtin::StringCharCodeAt, this, args, limits) == leaving(
            own,
            string_methods::char_code(w, this, args),
        ),
        builtin_outcome(w, own, Builtin::StringIndexOf, this, args, limits) == leaving(
            own,
            string_methods::searched(w, this, args),
        ),
        builtin_outcome(w, own, Builtin::StringLastIndexOf, this, args, limits) == leaving(
            own,
            string_methods::searched_back(w, this, args),
        ),
        builtin_outcome(w, own, Builtin::StringToLocaleLowerCase, this, args, limits) == leaving(
            own,
            locale_case_changed(w, this, args, false),
        ),
        builtin_outcome(w, own, Builtin::StringToLocaleUpperCase, this, args, limits) == leaving(
            own,
            locale_case_changed(w, this, args, true),
        ),
        builtin_outcome(w, own, Builtin::StringNormalize, this, args, limits) == leaving(
            own,
            string_methods::normalized(w, this, args),
        ),
        builtin_outcome(w, own, Builtin::StringIncludes, this, args, limits) == leaving(
            own,
            string_methods::substring_tested(w, this, args, SubstringTest::Includes),
        ),
        builtin_outcome(w, own, Builtin::StringStartsWith, this, args, limits) == leaving(
            own,
            string_methods::substring_tested(w, this, args, SubstringTest::StartsWith),
        ),
        builtin_outcome(w, own, Builtin::StringEndsWith, this, args, limits) == leaving(
            own,
            string_methods::substring_tested(w, this, args, SubstringTest::EndsWith),
        ),
        builtin_outcome(w, own, Builtin::StringSlice, this, args, limits) == leaving(
            own,
            string_methods::sliced(w, this, args),
        ),
        builtin_outcome(w, own, Builtin::StringSubstring, this, args, limits) == leaving(
            own,
            string_methods::substring(w, this, args),
        ),
        builtin_outcome(w, own, Builtin::StringSubstr, this, args, limits) == leaving(
            own,
            string_methods::substr(w, this, args),
        ),
        builtin_outcome(w, own, Builtin::StringToUpperCase, this, args, limits) == leaving(
            own,
            case_changed(w, this, true),
        ),
        builtin_outcome(w, own, Builtin::StringToLowerCase, this, args, limits) == leaving(
            own,
            case_changed(w, this, false),
        ),
        builtin_outcome(w, own, Builtin::StringIsWellFormed, this, args, limits) == leaving(
            own,
            string_methods::formed(w, this),
        ),
        builtin_outcome(w, own, Builtin::StringToWellFormed, this, args, limits) == leaving(
            own,
            string_methods::well_formed_result(w, this),
        ),
        builtin_outcome(w, own, Builtin::StringTrim, this, args, limits) == leaving(
            own,
            string_methods::trim_result(w, this, true, true),
        ),
        builtin_outcome(w, own, Builtin::StringLocaleOrder, this, args, limits) == leaving(
            own,
            locale_ordered(w, this, args),
        ),
        builtin_outcome(w, own, Builtin::StringToLocaleText, this, args, limits) == leaving(
            own,
            string_methods::same_text_value(w, this),
        ),
        builtin_outcome(w, own, Builtin::StringConcat, this, args, limits) == leaving(
            own,
            string_methods::concatenated(w, this, args, limits.text),
        ),
        builtin_outcome(w, own, Builtin::StringRepeat, this, args, limits) == leaving(
            own,
            string_methods::repeat_result(w, this, args, limits.text),
        ),
        builtin_outcome(w, own, Builtin::StringSplit, this, args, limits) == leaving(
            own,
            string_patterns::split_string(w, this, args, limits.elements),
        ),
        builtin_outcome(w, own, Builtin::StringAt, this, args, limits) == leaving(
            own,
            string_methods::unit_text_at(w, this, args),
        ),
        builtin_outcome(w, own, Builtin::StringCodePointAt, this, args, limits) == leaving(
            own,
            string_methods::code_point_read(w, this, args),
        ),
        builtin_outcome(w, own, Builtin::StringTrimStart, this, args, limits) == leaving(
            own,
            string_methods::trim_result(w, this, true, false),
        ),
        builtin_outcome(w, own, Builtin::StringTrimEnd, this, args, limits) == leaving(
            own,
            string_methods::trim_result(w, this, false, true),
        ),
        builtin_outcome(w, own, Builtin::StringPadStart, this, args, limits) == leaving(
            own,
            string_methods::pad_result(w, this, args, true),
        ),
        builtin_outcome(w, own, Builtin::StringPadEnd, this, args, limits) == leaving(
            own,
            string_methods::pad_result(w, this, args, false),
        ),
        builtin_outcome(w, own, Builtin::StringMatch, this, args, limits) == leaving(
            own,
            string_patterns::matched(w, this, args),
        ),
        builtin_outcome(w, own, Builtin::StringSearch, this, args, limits) == leaving(
            own,
            string_patterns::sought(w, this, args),
        ),
        builtin_outcome(w, own, Builtin::StringMatchAll, this, args, limits) == leaving(
            own,
            string_patterns::all_matched(w, this, args),
        ),
        builtin_outcome(w, own, Builtin::StringReplace, this, args, limits) == leaving(
            own,
            string_patterns::replaced(w, this, args),
        ),
        builtin_outcome(w, own, Builtin::StringReplaceAll, this, args, limits) == leaving(
            own,
            string_patterns::replaced_everywhere(w, this, args),
        ),
        builtin_outcome(w, own, Builtin::StringFromCharCode, this, args, limits) == leaving(
            own,
            string_methods::char_codes_from(w, args, 0, Seq::empty()),
        ),
        builtin_outcome(w, own, Builtin::StringRaw, this, args, limits) == leaving(
            own,
            string_methods::raw_text(w, args),
        ),
        builtin_outcome(w, own, Builtin::StringFromCodePoint, this, args, limits) == leaving(
            own,
            string_methods::code_points_from(w, args, 0, Seq::empty()),
        ),
        builtin_outcome(w, own, Builtin::StringConstruct, this, args, limits) == leaving(
            own,
            string_methods::string_constructed(w, args),
        ),
        builtin_outcome(w, own, Builtin::StringNext, this, args, limits) == leaving(
            own,
            text_next(w, this),
        ),
        builtin_outcome(w, own, Builtin::StringMatchesNext, this, args, limits) == leaving(
            own,
            matches_next(w, this),
        ),
{
}

/// Which work the `Object` functions and methods do.
pub proof fn law_object_builtins(
    w: World,
    own: Hidden,
    this: Value,
    args: Seq<Value>,
    limits: Limits,
)
    ensures
        builtin_outcome(w, own, Builtin::ObjectHasOwnProperty, this, args, limits) == leaving(
            own,
            proto_has_own(w, this, args),
        ),
        builtin_outcome(w, own, Builtin::ObjectDefineGetter, this, args, limits) == leaving(
            own,
            accessor_defined(w, this, args, true),
        ),
        builtin_outcome(w, own, Builtin::ObjectDefineSetter, this, args, limits) == leaving(
            own,
            accessor_defined(w, this, args, false),
        ),
        builtin_outcome(w, own, Builtin::ObjectLookupGetter, this, args, limits) == leaving(
            own,
            accessor_looked_up(w, this, args, true),
        ),
        builtin_outcome(w, own, Builtin::ObjectLookupSetter, this, args, limits) == leaving(
            own,
            accessor_looked_up(w, this, args, false),
        ),
        builtin_outcome(w, own, Builtin::ObjectIsPrototypeOf, this, args, limits) == leaving(
            own,
            prototype_tested(w, this, args),
        ),
        builtin_outcome(w, own, Builtin::ObjectPropertyIsEnumerable, this, args, limits) == leaving(
            own,
            enumerability(w, this, args),
        ),
        builtin_outcome(w, own, Builtin::ObjectToText, this, args, limits) == leaving(
            own,
            stringified(w, this),
        ),
        builtin_outcome(w, own, Builtin::ObjectValueOf, this, args, limits) == leaving(
            own,
            object_for(w, this, "Object.prototype.valueOf called on null or undefined"),
        ),
        builtin_outcome(w, own, Builtin::ObjectToLocaleText, this, args, limits) == leaving(
            own,
            locally_stringified(w, this),
        ),
        builtin_outcome(w, own, Builtin::ObjectHasOwn, this, args, limits) == leaving(
            own,
            static_has_own(w, args),
        ),
        builtin_outcome(w, own, Builtin::ObjectGroupBy, this, args, limits) == leaving(
            own,
            object_grouped(w, args),
        ),
        builtin_outcome(w, own, Builtin::ObjectKeys, this, args, limits) == leaving(
            own,
            listing(w, args, Listing::Keys),
        ),
        builtin_outcome(w, own, Builtin::ObjectOwnNames, this, args, limits) == leaving(
            own,
            own_names(w, args, false),
        ),
        builtin_outcome(w, own, Builtin::ObjectOwnSymbols, this, args, limits) == leaving(
            own,
            own_names(w, args, true),
        ),
        builtin_outcome(w, own, Builtin::ObjectGetPrototypeOf, this, args, limits) == leaving(
            own,
            prototype_got(w, args),
        ),
        builtin_outcome(w, own, Builtin::ObjectSetPrototypeOf, this, args, limits) == leaving(
            own,
            prototype_put(w, args),
        ),
        builtin_outcome(w, own, Builtin::ObjectCreate, this, args, limits) == leaving(
            own,
            created(w, args),
        ),
        builtin_outcome(w, own, Builtin::ObjectDefineProperty, this, args, limits) == leaving(
            own,
            property_put(w, args),
        ),
        builtin_outcome(w, own, Builtin::ObjectOwnDescriptor, this, args, limits) == leaving(
            own,
            descriptor_got(w, args),
        ),
        builtin_outcome(w, own, Builtin::ObjectOwnDescriptors, this, args, limits) == leaving(
            own,
            descriptors_got(w, args),
        ),
        builtin_outcome(w, own, Builtin::ObjectFreeze, this, args, limits) == leaving(
            own,
            levelled(w, args, true),
        ),
        builtin_outcome(w, own, Builtin::ObjectPreventExtensions, this, args, limits) == leaving(
            own,
            extension_stopped(w, args),
        ),
        builtin_outcome(w, own, Builtin::ObjectAssign, this, args, limits) == leaving(
            own,
            assigned(w, args),
        ),
        builtin_outcome(w, own, Builtin::ObjectSameValue, this, args, limits) == leaving(
            own,
            (w, Ok(Value::Bool(same(arg_at(args, 0), arg_at(args, 1))))),
        ),
        builtin_outcome(w, own, Builtin::ObjectValues, this, args, limits) == leaving(
            own,
            listing(w, args, Listing::Values),
        ),
        builtin_outcome(w, own, Builtin::ObjectEntries, this, args, limits) == leaving(
            own,
            listing(w, args, Listing::Entries),
        ),
        builtin_outcome(w, own, Builtin::ObjectFromEntries, this, args, limits) == leaving(
            own,
            from_entries(w, args),
        ),
        builtin_outcome(w, own, Builtin::ObjectDefineProperties, this, args, limits) == leaving(
            own,
            object_with_properties(w, args),
        ),
        builtin_outcome(w, own, Builtin::ObjectSeal, this, args, limits) == leaving(
            own,
            levelled(w, args, false),
        ),
        builtin_outcome(w, own, Builtin::ObjectConstruct, this, args, limits) == leaving(
            own,
            constructed(w, args),
        ),
        builtin_outcome(w, own, Builtin::ObjectReadProto, this, args, limits) == leaving(
            own,
            proto_read(w, this),
        ),
        builtin_outcome(w, own, Builtin::ObjectWriteProto, this, args, limits) == leaving(
            own,
            proto_written(w, this, args),
        ),
{
}

/// Which work the global functions do.
pub proof fn law_global_builtins(
    w: World,
    own: Hidden,
    this: Value,
    args: Seq<Value>,
    limits: Limits,
)
    ensures
        builtin_outcome(w, own, Builtin::ConsoleLog, this, args, limits) == leaving(
            own,
            logged(w, args),
        ),
        builtin_outcome(w, own, Builtin::Print, this, args, limits) == leaving(
            own,
            printed(w, args),
        ),
        builtin_outcome(w, own, Builtin::IsNaN, this, args, limits) == leaving(
            own,
            nan_tested(w, args),
        ),
        builtin_outcome(w, own, Builtin::IsFinite, this, args, limits) == leaving(
            own,
            finite_tested(w, args),
        ),
        builtin_outcome(w, own, Builtin::Escape, this, args, limits) == leaving(
            own,
            escape_called(w, args),
        ),
        builtin_outcome(w, own, Builtin::Unescape, this, args, limits) == leaving(
            own,
            unescape_called(w, args),
        ),
        builtin_outcome(w, own, Builtin::EncodeUriComponent, this, args, limits) == leaving(
            own,
            encode_called(w, args, false),
        ),
        builtin_outcome(w, own, Builtin::EncodeUri, this, args, limits) == leaving(
            own,
            encode_called(w, args, true),
        ),
        builtin_outcome(w, own, Builtin::DecodeUriComponent, this, args, limits) == leaving(
            own,
            decode_called(w, args, false),
        ),
        builtin_outcome(w, own, Builtin::DecodeUri, this, args, limits) == leaving(
            own,
            decode_called(w, args, true),
        ),
        builtin_outcome(w, own, Builtin::Eval, this, args, limits) == leaving(
            own,
            evaluated(w, args),
        ),
        builtin_outcome(w, own, Builtin::ReturnThis, this, args, limits) == leaving(
            own,
            (w, Ok(this)),
        ),
{
}

} // verus!
