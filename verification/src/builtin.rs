//! The names of the built-ins: what a function object that the library installs does when called.
use vstd::prelude::*;

verus! {

/// A built-in.
#[derive(Clone, Copy, PartialEq, Eq, Structural, Debug)]
pub enum Builtin {
    // `Object` and its prototype.
    ObjectHasOwnProperty,
    ObjectDefineGetter,
    ObjectDefineSetter,
    ObjectLookupGetter,
    ObjectLookupSetter,
    ObjectIsPrototypeOf,
    ObjectPropertyIsEnumerable,
    ObjectToText,
    ObjectValueOf,
    ObjectToLocaleText,
    ObjectHasOwn,
    ObjectGroupBy,
    ObjectKeys,
    ObjectOwnNames,
    ObjectOwnSymbols,
    ObjectGetPrototypeOf,
    ObjectSetPrototypeOf,
    ObjectCreate,
    ObjectDefineProperty,
    ObjectOwnDescriptor,
    ObjectOwnDescriptors,
    ObjectFreeze,
    ObjectPreventExtensions,
    ObjectIsExtensible,
    ObjectAssign,
    ObjectSameValue,
    ObjectValues,
    ObjectEntries,
    ObjectFromEntries,
    ObjectDefineProperties,
    ObjectSeal,
    ObjectIsSealed,
    ObjectIsFrozen,
    ObjectConstruct,
    ObjectReadProto,
    ObjectWriteProto,
    // `Array`, its prototype and its iterators.
    ArrayPush,
    ArrayPop,
    ArrayShift,
    ArrayUnshift,
    ArraySlice,
    ArrayIndexOf,
    ArrayIncludes,
    ArrayJoin,
    ArrayConcat,
    ArrayForEach,
    ArrayMapEach,
    ArrayFilter,
    ArrayReduce,
    ArrayReverse,
    ArrayToText,
    ArrayToLocaleText,
    ArrayAt,
    ArrayFind,
    ArrayFindIndex,
    ArrayFindLast,
    ArrayFindLastIndex,
    ArrayAnyOf,
    ArrayAllOf,
    ArrayFill,
    ArrayLastIndexOf,
    ArrayFlat,
    ArrayFlatMap,
    ArraySplice,
    ArraySort,
    ArrayToReversed,
    ArrayToSorted,
    ArrayWith,
    ArrayToSpliced,
    ArrayReduceRight,
    ArrayCopyWithin,
    ArrayValues,
    ArrayKeys,
    ArrayEntries,
    ArrayIsArray,
    ArrayOfElements,
    ArrayFromItems,
    ArrayFromAsync,
    ArrayConstruct,
    ArrayNext,
    // `Iterator`, its prototype, and the iterators that it hands out.
    IteratorMapEach,
    IteratorFilter,
    IteratorTake,
    IteratorDrop,
    IteratorChunks,
    IteratorWindows,
    IteratorIncludes,
    IteratorJoin,
    IteratorFlatMap,
    IteratorToArray,
    IteratorForEach,
    IteratorReduce,
    IteratorAnyOf,
    IteratorAllOf,
    IteratorFind,
    IteratorFromValue,
    IteratorZip,
    IteratorZipKeyed,
    IteratorConcat,
    IteratorWrapNext,
    IteratorWrapReturn,
    IteratorHelperNext,
    IteratorHelperReturn,
    IteratorZipNext,
    IteratorZipReturn,
    IteratorConcatNext,
    IteratorConcatReturn,
    IteratorConstruct,
    IteratorReadConstructor,
    IteratorWriteConstructor,
    IteratorReadTag,
    IteratorWriteTag,
    IteratorDispose,
    IteratorAsyncDispose,
    // `String`, its prototype and its iterators.
    StringThisValue,
    StringCharAt,
    StringCharCodeAt,
    StringIndexOf,
    StringLastIndexOf,
    StringToLocaleLowerCase,
    StringToLocaleUpperCase,
    StringNormalize,
    StringIncludes,
    StringStartsWith,
    StringEndsWith,
    StringSlice,
    StringSubstring,
    StringSubstr,
    StringAnchor,
    StringLink,
    StringFontColor,
    StringFontSize,
    StringBig,
    StringBlink,
    StringBold,
    StringFixed,
    StringItalics,
    StringSmall,
    StringStrike,
    StringSub,
    StringSup,
    StringToUpperCase,
    StringToLowerCase,
    StringIsWellFormed,
    StringToWellFormed,
    StringTrim,
    StringLocaleOrder,
    StringToLocaleText,
    StringConcat,
    StringRepeat,
    StringSplit,
    StringAt,
    StringCodePointAt,
    StringTrimStart,
    StringTrimEnd,
    StringPadStart,
    StringPadEnd,
    StringMatch,
    StringSearch,
    StringMatchAll,
    StringReplace,
    StringReplaceAll,
    StringFromCharCode,
    StringRaw,
    StringFromCodePoint,
    StringConstruct,
    StringIterate,
    StringNext,
    StringMatchesNext,
    // The collections, weak references and registries.
    MapStore,
    MapGet,
    MapHas,
    MapDelete,
    MapClear,
    MapForEach,
    MapValues,
    MapEntries,
    MapKeys,
    SetAdd,
    SetHas,
    SetDelete,
    SetClear,
    SetForEach,
    SetValues,
    SetEntries,
    MapGroupBy,
    MapGetOrInsert,
    MapGetOrInsertComputed,
    Union,
    Intersection,
    Difference,
    SymmetricDifference,
    IsSubsetOf,
    IsSupersetOf,
    IsDisjointFrom,
    WeakMapStore,
    WeakMapGet,
    WeakMapGetOrInsert,
    WeakMapGetOrInsertComputed,
    WeakMapHas,
    WeakMapDelete,
    WeakSetAdd,
    WeakSetHas,
    WeakSetDelete,
    Deref,
    Register,
    Unregister,
    MapConstruct,
    SetConstruct,
    WeakMapConstruct,
    WeakSetConstruct,
    WeakRefConstruct,
    RegistryConstruct,
    MapSize,
    SetSize,
    EntriesNext,
    // Generators and async generators.
    GeneratorNext,
    GeneratorReturn,
    GeneratorThrow,
    GeneratorAsyncNext,
    GeneratorAsyncReturn,
    GeneratorAsyncThrow,
    // The global object and the console, and what several objects share.
    ConsoleLog,
    Print,
    ParseInt,
    ParseFloat,
    IsNaN,
    IsFinite,
    Escape,
    Unescape,
    EncodeUriComponent,
    EncodeUri,
    DecodeUriComponent,
    DecodeUri,
    Eval,
    ReturnThis,
    HasInstance,
}

/// The groups of built-ins that are called alike.
#[derive(Clone, Copy, PartialEq, Eq, Structural, Debug)]
pub enum Kind {
    /// Functions of `Object` and its prototype.
    Object,
    /// Functions of `Array`, its prototype and its iterators.
    Array,
    /// Functions of `Iterator`, its prototype, and the iterators that it hands out.
    Iterator,
    /// Functions of `String`, its prototype and its iterators.
    Text,
    /// Functions of the collections, weak references and registries.
    Collection,
    /// Functions of generators and async generators.
    Generator,
    /// Functions of the global object and the console, and what several objects share.
    Global,
}

impl Builtin {
    /// The group of a built-in.
    pub open spec fn kind(self) -> Kind {
        match self {
            Builtin::ObjectHasOwnProperty => Kind::Object,
            Builtin::ObjectDefineGetter => Kind::Object,
            Builtin::ObjectDefineSetter => Kind::Object,
            Builtin::ObjectLookupGetter => Kind::Object,
            Builtin::ObjectLookupSetter => Kind::Object,
            Builtin::ObjectIsPrototypeOf => Kind::Object,
            Builtin::ObjectPropertyIsEnumerable => Kind::Object,
            Builtin::ObjectToText => Kind::Object,
            Builtin::ObjectValueOf => Kind::Object,
            Builtin::ObjectToLocaleText => Kind::Object,
            Builtin::ObjectHasOwn => Kind::Object,
            Builtin::ObjectGroupBy => Kind::Object,
            Builtin::ObjectKeys => Kind::Object,
            Builtin::ObjectOwnNames => Kind::Object,
            Builtin::ObjectOwnSymbols => Kind::Object,
            Builtin::ObjectGetPrototypeOf => Kind::Object,
            Builtin::ObjectSetPrototypeOf => Kind::Object,
            Builtin::ObjectCreate => Kind::Object,
            Builtin::ObjectDefineProperty => Kind::Object,
            Builtin::ObjectOwnDescriptor => Kind::Object,
            Builtin::ObjectOwnDescriptors => Kind::Object,
            Builtin::ObjectFreeze => Kind::Object,
            Builtin::ObjectPreventExtensions => Kind::Object,
            Builtin::ObjectIsExtensible => Kind::Object,
            Builtin::ObjectAssign => Kind::Object,
            Builtin::ObjectSameValue => Kind::Object,
            Builtin::ObjectValues => Kind::Object,
            Builtin::ObjectEntries => Kind::Object,
            Builtin::ObjectFromEntries => Kind::Object,
            Builtin::ObjectDefineProperties => Kind::Object,
            Builtin::ObjectSeal => Kind::Object,
            Builtin::ObjectIsSealed => Kind::Object,
            Builtin::ObjectIsFrozen => Kind::Object,
            Builtin::ObjectConstruct => Kind::Object,
            Builtin::ObjectReadProto => Kind::Object,
            Builtin::ObjectWriteProto => Kind::Object,
            Builtin::ArrayPush => Kind::Array,
            Builtin::ArrayPop => Kind::Array,
            Builtin::ArrayShift => Kind::Array,
            Builtin::ArrayUnshift => Kind::Array,
            Builtin::ArraySlice => Kind::Array,
            Builtin::ArrayIndexOf => Kind::Array,
            Builtin::ArrayIncludes => Kind::Array,
            Builtin::ArrayJoin => Kind::Array,
            Builtin::ArrayConcat => Kind::Array,
            Builtin::ArrayForEach => Kind::Array,
            Builtin::ArrayMapEach => Kind::Array,
            Builtin::ArrayFilter => Kind::Array,
            Builtin::ArrayReduce => Kind::Array,
            Builtin::ArrayReverse => Kind::Array,
            Builtin::ArrayToText => Kind::Array,
            Builtin::ArrayToLocaleText => Kind::Array,
            Builtin::ArrayAt => Kind::Array,
            Builtin::ArrayFind => Kind::Array,
            Builtin::ArrayFindIndex => Kind::Array,
            Builtin::ArrayFindLast => Kind::Array,
            Builtin::ArrayFindLastIndex => Kind::Array,
            Builtin::ArrayAnyOf => Kind::Array,
            Builtin::ArrayAllOf => Kind::Array,
            Builtin::ArrayFill => Kind::Array,
            Builtin::ArrayLastIndexOf => Kind::Array,
            Builtin::ArrayFlat => Kind::Array,
            Builtin::ArrayFlatMap => Kind::Array,
            Builtin::ArraySplice => Kind::Array,
            Builtin::ArraySort => Kind::Array,
            Builtin::ArrayToReversed => Kind::Array,
            Builtin::ArrayToSorted => Kind::Array,
            Builtin::ArrayWith => Kind::Array,
            Builtin::ArrayToSpliced => Kind::Array,
            Builtin::ArrayReduceRight => Kind::Array,
            Builtin::ArrayCopyWithin => Kind::Array,
            Builtin::ArrayValues => Kind::Array,
            Builtin::ArrayKeys => Kind::Array,
            Builtin::ArrayEntries => Kind::Array,
            Builtin::ArrayIsArray => Kind::Array,
            Builtin::ArrayOfElements => Kind::Array,
            Builtin::ArrayFromItems => Kind::Array,
            Builtin::ArrayFromAsync => Kind::Array,
            Builtin::ArrayConstruct => Kind::Array,
            Builtin::ArrayNext => Kind::Array,
            Builtin::IteratorMapEach => Kind::Iterator,
            Builtin::IteratorFilter => Kind::Iterator,
            Builtin::IteratorTake => Kind::Iterator,
            Builtin::IteratorDrop => Kind::Iterator,
            Builtin::IteratorChunks => Kind::Iterator,
            Builtin::IteratorWindows => Kind::Iterator,
            Builtin::IteratorIncludes => Kind::Iterator,
            Builtin::IteratorJoin => Kind::Iterator,
            Builtin::IteratorFlatMap => Kind::Iterator,
            Builtin::IteratorToArray => Kind::Iterator,
            Builtin::IteratorForEach => Kind::Iterator,
            Builtin::IteratorReduce => Kind::Iterator,
            Builtin::IteratorAnyOf => Kind::Iterator,
            Builtin::IteratorAllOf => Kind::Iterator,
            Builtin::IteratorFind => Kind::Iterator,
            Builtin::IteratorFromValue => Kind::Iterator,
            Builtin::IteratorZip => Kind::Iterator,
            Builtin::IteratorZipKeyed => Kind::Iterator,
            Builtin::IteratorConcat => Kind::Iterator,
            Builtin::IteratorWrapNext => Kind::Iterator,
            Builtin::IteratorWrapReturn => Kind::Iterator,
            Builtin::IteratorHelperNext => Kind::Iterator,
            Builtin::IteratorHelperReturn => Kind::Iterator,
            Builtin::IteratorZipNext => Kind::Iterator,
            Builtin::IteratorZipReturn => Kind::Iterator,
            Builtin::IteratorConcatNext => Kind::Iterator,
            Builtin::IteratorConcatReturn => Kind::Iterator,
            Builtin::IteratorConstruct => Kind::Iterator,
            Builtin::IteratorReadConstructor => Kind::Iterator,
            Builtin::IteratorWriteConstructor => Kind::Iterator,
            Builtin::IteratorReadTag => Kind::Iterator,
            Builtin::IteratorWriteTag => Kind::Iterator,
            Builtin::IteratorDispose => Kind::Iterator,
            Builtin::IteratorAsyncDispose => Kind::Iterator,
            Builtin::StringThisValue => Kind::Text,
            Builtin::StringCharAt => Kind::Text,
            Builtin::StringCharCodeAt => Kind::Text,
            Builtin::StringIndexOf => Kind::Text,
            Builtin::StringLastIndexOf => Kind::Text,
            Builtin::StringToLocaleLowerCase => Kind::Text,
            Builtin::StringToLocaleUpperCase => Kind::Text,
            Builtin::StringNormalize => Kind::Text,
            Builtin::StringIncludes => Kind::Text,
            Builtin::StringStartsWith => Kind::Text,
            Builtin::StringEndsWith => Kind::Text,
            Builtin::StringSlice => Kind::Text,
            Builtin::StringSubstring => Kind::Text,
            Builtin::StringSubstr => Kind::Text,
            Builtin::StringAnchor => Kind::Text,
            Builtin::StringLink => Kind::Text,
            Builtin::StringFontColor => Kind::Text,
            Builtin::StringFontSize => Kind::Text,
            Builtin::StringBig => Kind::Text,
            Builtin::StringBlink => Kind::Text,
            Builtin::StringBold => Kind::Text,
            Builtin::StringFixed => Kind::Text,
            Builtin::StringItalics => Kind::Text,
            Builtin::StringSmall => Kind::Text,
            Builtin::StringStrike => Kind::Text,
            Builtin::StringSub => Kind::Text,
            Builtin::StringSup => Kind::Text,
            Builtin::StringToUpperCase => Kind::Text,
            Builtin::StringToLowerCase => Kind::Text,
            Builtin::StringIsWellFormed => Kind::Text,
            Builtin::StringToWellFormed => Kind::Text,
            Builtin::StringTrim => Kind::Text,
            Builtin::StringLocaleOrder => Kind::Text,
            Builtin::StringToLocaleText => Kind::Text,
            Builtin::StringConcat => Kind::Text,
            Builtin::StringRepeat => Kind::Text,
            Builtin::StringSplit => Kind::Text,
            Builtin::StringAt => Kind::Text,
            Builtin::StringCodePointAt => Kind::Text,
            Builtin::StringTrimStart => Kind::Text,
            Builtin::StringTrimEnd => Kind::Text,
            Builtin::StringPadStart => Kind::Text,
            Builtin::StringPadEnd => Kind::Text,
            Builtin::StringMatch => Kind::Text,
            Builtin::StringSearch => Kind::Text,
            Builtin::StringMatchAll => Kind::Text,
            Builtin::StringReplace => Kind::Text,
            Builtin::StringReplaceAll => Kind::Text,
            Builtin::StringFromCharCode => Kind::Text,
            Builtin::StringRaw => Kind::Text,
            Builtin::StringFromCodePoint => Kind::Text,
            Builtin::StringConstruct => Kind::Text,
            Builtin::StringIterate => Kind::Text,
            Builtin::StringNext => Kind::Text,
            Builtin::StringMatchesNext => Kind::Text,
            Builtin::MapStore => Kind::Collection,
            Builtin::MapGet => Kind::Collection,
            Builtin::MapHas => Kind::Collection,
            Builtin::MapDelete => Kind::Collection,
            Builtin::MapClear => Kind::Collection,
            Builtin::MapForEach => Kind::Collection,
            Builtin::MapValues => Kind::Collection,
            Builtin::MapEntries => Kind::Collection,
            Builtin::MapKeys => Kind::Collection,
            Builtin::SetAdd => Kind::Collection,
            Builtin::SetHas => Kind::Collection,
            Builtin::SetDelete => Kind::Collection,
            Builtin::SetClear => Kind::Collection,
            Builtin::SetForEach => Kind::Collection,
            Builtin::SetValues => Kind::Collection,
            Builtin::SetEntries => Kind::Collection,
            Builtin::MapGroupBy => Kind::Collection,
            Builtin::MapGetOrInsert => Kind::Collection,
            Builtin::MapGetOrInsertComputed => Kind::Collection,
            Builtin::Union => Kind::Collection,
            Builtin::Intersection => Kind::Collection,
            Builtin::Difference => Kind::Collection,
            Builtin::SymmetricDifference => Kind::Collection,
            Builtin::IsSubsetOf => Kind::Collection,
            Builtin::IsSupersetOf => Kind::Collection,
            Builtin::IsDisjointFrom => Kind::Collection,
            Builtin::WeakMapStore => Kind::Collection,
            Builtin::WeakMapGet => Kind::Collection,
            Builtin::WeakMapGetOrInsert => Kind::Collection,
            Builtin::WeakMapGetOrInsertComputed => Kind::Collection,
            Builtin::WeakMapHas => Kind::Collection,
            Builtin::WeakMapDelete => Kind::Collection,
            Builtin::WeakSetAdd => Kind::Collection,
            Builtin::WeakSetHas => Kind::Collection,
            Builtin::WeakSetDelete => Kind::Collection,
            Builtin::Deref => Kind::Collection,
            Builtin::Register => Kind::Collection,
            Builtin::Unregister => Kind::Collection,
            Builtin::MapConstruct => Kind::Collection,
            Builtin::SetConstruct => Kind::Collection,
            Builtin::WeakMapConstruct => Kind::Collection,
            Builtin::WeakSetConstruct => Kind::Collection,
            Builtin::WeakRefConstruct => Kind::Collection,
            Builtin::RegistryConstruct => Kind::Collection,
            Builtin::MapSize => Kind::Collection,
            Builtin::SetSize => Kind::Collection,
            Builtin::EntriesNext => Kind::Collection,
            Builtin::GeneratorNext => Kind::Generator,
            Builtin::GeneratorReturn => Kind::Generator,
            Builtin::GeneratorThrow => Kind::Generator,
            Builtin::GeneratorAsyncNext => Kind::Generator,
            Builtin::GeneratorAsyncReturn => Kind::Generator,
            Builtin::GeneratorAsyncThrow => Kind::Generator,
            Builtin::ConsoleLog => Kind::Global,
            Builtin::Print => Kind::Global,
            Builtin::ParseInt => Kind::Global,
            Builtin::ParseFloat => Kind::Global,
            Builtin::IsNaN => Kind::Global,
            Builtin::IsFinite => Kind::Global,
            Builtin::Escape => Kind::Global,
            Builtin::Unescape => Kind::Global,
            Builtin::EncodeUriComponent => Kind::Global,
            Builtin::EncodeUri => Kind::Global,
            Builtin::DecodeUriComponent => Kind::Global,
            Builtin::DecodeUri => Kind::Global,
            Builtin::Eval => Kind::Global,
            Builtin::ReturnThis => Kind::Global,
            Builtin::HasInstance => Kind::Global,
        }
    }

    pub fn kind_of(self) -> (r: Kind)
        ensures
            r == self.kind(),
    {
        match self {
            Builtin::ObjectHasOwnProperty => Kind::Object,
            Builtin::ObjectDefineGetter => Kind::Object,
            Builtin::ObjectDefineSetter => Kind::Object,
            Builtin::ObjectLookupGetter => Kind::Object,
            Builtin::ObjectLookupSetter => Kind::Object,
            Builtin::ObjectIsPrototypeOf => Kind::Object,
            Builtin::ObjectPropertyIsEnumerable => Kind::Object,
            Builtin::ObjectToText => Kind::Object,
            Builtin::ObjectValueOf => Kind::Object,
            Builtin::ObjectToLocaleText => Kind::Object,
            Builtin::ObjectHasOwn => Kind::Object,
            Builtin::ObjectGroupBy => Kind::Object,
            Builtin::ObjectKeys => Kind::Object,
            Builtin::ObjectOwnNames => Kind::Object,
            Builtin::ObjectOwnSymbols => Kind::Object,
            Builtin::ObjectGetPrototypeOf => Kind::Object,
            Builtin::ObjectSetPrototypeOf => Kind::Object,
            Builtin::ObjectCreate => Kind::Object,
            Builtin::ObjectDefineProperty => Kind::Object,
            Builtin::ObjectOwnDescriptor => Kind::Object,
            Builtin::ObjectOwnDescriptors => Kind::Object,
            Builtin::ObjectFreeze => Kind::Object,
            Builtin::ObjectPreventExtensions => Kind::Object,
            Builtin::ObjectIsExtensible => Kind::Object,
            Builtin::ObjectAssign => Kind::Object,
            Builtin::ObjectSameValue => Kind::Object,
            Builtin::ObjectValues => Kind::Object,
            Builtin::ObjectEntries => Kind::Object,
            Builtin::ObjectFromEntries => Kind::Object,
            Builtin::ObjectDefineProperties => Kind::Object,
            Builtin::ObjectSeal => Kind::Object,
            Builtin::ObjectIsSealed => Kind::Object,
            Builtin::ObjectIsFrozen => Kind::Object,
            Builtin::ObjectConstruct => Kind::Object,
            Builtin::ObjectReadProto => Kind::Object,
            Builtin::ObjectWriteProto => Kind::Object,
            Builtin::ArrayPush => Kind::Array,
            Builtin::ArrayPop => Kind::Array,
            Builtin::ArrayShift => Kind::Array,
            Builtin::ArrayUnshift => Kind::Array,
            Builtin::ArraySlice => Kind::Array,
            Builtin::ArrayIndexOf => Kind::Array,
            Builtin::ArrayIncludes => Kind::Array,
            Builtin::ArrayJoin => Kind::Array,
            Builtin::ArrayConcat => Kind::Array,
            Builtin::ArrayForEach => Kind::Array,
            Builtin::ArrayMapEach => Kind::Array,
            Builtin::ArrayFilter => Kind::Array,
            Builtin::ArrayReduce => Kind::Array,
            Builtin::ArrayReverse => Kind::Array,
            Builtin::ArrayToText => Kind::Array,
            Builtin::ArrayToLocaleText => Kind::Array,
            Builtin::ArrayAt => Kind::Array,
            Builtin::ArrayFind => Kind::Array,
            Builtin::ArrayFindIndex => Kind::Array,
            Builtin::ArrayFindLast => Kind::Array,
            Builtin::ArrayFindLastIndex => Kind::Array,
            Builtin::ArrayAnyOf => Kind::Array,
            Builtin::ArrayAllOf => Kind::Array,
            Builtin::ArrayFill => Kind::Array,
            Builtin::ArrayLastIndexOf => Kind::Array,
            Builtin::ArrayFlat => Kind::Array,
            Builtin::ArrayFlatMap => Kind::Array,
            Builtin::ArraySplice => Kind::Array,
            Builtin::ArraySort => Kind::Array,
            Builtin::ArrayToReversed => Kind::Array,
            Builtin::ArrayToSorted => Kind::Array,
            Builtin::ArrayWith => Kind::Array,
            Builtin::ArrayToSpliced => Kind::Array,
            Builtin::ArrayReduceRight => Kind::Array,
            Builtin::ArrayCopyWithin => Kind::Array,
            Builtin::ArrayValues => Kind::Array,
            Builtin::ArrayKeys => Kind::Array,
            Builtin::ArrayEntries => Kind::Array,
            Builtin::ArrayIsArray => Kind::Array,
            Builtin::ArrayOfElements => Kind::Array,
            Builtin::ArrayFromItems => Kind::Array,
            Builtin::ArrayFromAsync => Kind::Array,
            Builtin::ArrayConstruct => Kind::Array,
            Builtin::ArrayNext => Kind::Array,
            Builtin::IteratorMapEach => Kind::Iterator,
            Builtin::IteratorFilter => Kind::Iterator,
            Builtin::IteratorTake => Kind::Iterator,
            Builtin::IteratorDrop => Kind::Iterator,
            Builtin::IteratorChunks => Kind::Iterator,
            Builtin::IteratorWindows => Kind::Iterator,
            Builtin::IteratorIncludes => Kind::Iterator,
            Builtin::IteratorJoin => Kind::Iterator,
            Builtin::IteratorFlatMap => Kind::Iterator,
            Builtin::IteratorToArray => Kind::Iterator,
            Builtin::IteratorForEach => Kind::Iterator,
            Builtin::IteratorReduce => Kind::Iterator,
            Builtin::IteratorAnyOf => Kind::Iterator,
            Builtin::IteratorAllOf => Kind::Iterator,
            Builtin::IteratorFind => Kind::Iterator,
            Builtin::IteratorFromValue => Kind::Iterator,
            Builtin::IteratorZip => Kind::Iterator,
            Builtin::IteratorZipKeyed => Kind::Iterator,
            Builtin::IteratorConcat => Kind::Iterator,
            Builtin::IteratorWrapNext => Kind::Iterator,
            Builtin::IteratorWrapReturn => Kind::Iterator,
            Builtin::IteratorHelperNext => Kind::Iterator,
            Builtin::IteratorHelperReturn => Kind::Iterator,
            Builtin::IteratorZipNext => Kind::Iterator,
            Builtin::IteratorZipReturn => Kind::Iterator,
            Builtin::IteratorConcatNext => Kind::Iterator,
            Builtin::IteratorConcatReturn => Kind::Iterator,
            Builtin::IteratorConstruct => Kind::Iterator,
            Builtin::IteratorReadConstructor => Kind::Iterator,
            Builtin::IteratorWriteConstructor => Kind::Iterator,
            Builtin::IteratorReadTag => Kind::Iterator,
            Builtin::IteratorWriteTag => Kind::Iterator,
            Builtin::IteratorDispose => Kind::Iterator,
            Builtin::IteratorAsyncDispose => Kind::Iterator,
            Builtin::StringThisValue => Kind::Text,
            Builtin::StringCharAt => Kind::Text,
            Builtin::StringCharCodeAt => Kind::Text,
            Builtin::StringIndexOf => Kind::Text,
            Builtin::StringLastIndexOf => Kind::Text,
            Builtin::StringToLocaleLowerCase => Kind::Text,
            Builtin::StringToLocaleUpperCase => Kind::Text,
            Builtin::StringNormalize => Kind::Text,
            Builtin::StringIncludes => Kind::Text,
            Builtin::StringStartsWith => Kind::Text,
            Builtin::StringEndsWith => Kind::Text,
            Builtin::StringSlice => Kind::Text,
            Builtin::StringSubstring => Kind::Text,
            Builtin::StringSubstr => Kind::Text,
            Builtin::StringAnchor => Kind::Text,
            Builtin::StringLink => Kind::Text,
            Builtin::StringFontColor => Kind::Text,
            Builtin::StringFontSize => Kind::Text,
            Builtin::StringBig => Kind::Text,
            Builtin::StringBlink => Kind::Text,
            Builtin::StringBold => Kind::Text,
            Builtin::StringFixed => Kind::Text,
            Builtin::StringItalics => Kind::Text,
            Builtin::StringSmall => Kind::Text,
            Builtin::StringStrike => Kind::Text,
            Builtin::StringSub => Kind::Text,
            Builtin::StringSup => Kind::Text,
            Builtin::StringToUpperCase => Kind::Text,
            Builtin::StringToLowerCase => Kind::Text,
            Builtin::StringIsWellFormed => Kind::Text,
            Builtin::StringToWellFormed => Kind::Text,
            Builtin::StringTrim => Kind::Text,
            Builtin::StringLocaleOrder => Kind::Text,
            Builtin::StringToLocaleText => Kind::Text,
            Builtin::StringConcat => Kind::Text,
            Builtin::StringRepeat => Kind::Text,
            Builtin::StringSplit => Kind::Text,
            Builtin::StringAt => Kind::Text,
            Builtin::StringCodePointAt => Kind::Text,
            Builtin::StringTrimStart => Kind::Text,
            Builtin::StringTrimEnd => Kind::Text,
            Builtin::StringPadStart => Kind::Text,
            Builtin::StringPadEnd => Kind::Text,
            Builtin::StringMatch => Kind::Text,
            Builtin::StringSearch => Kind::Text,
            Builtin::StringMatchAll => Kind::Text,
            Builtin::StringReplace => Kind::Text,
            Builtin::StringReplaceAll => Kind::Text,
            Builtin::StringFromCharCode => Kind::Text,
            Builtin::StringRaw => Kind::Text,
            Builtin::StringFromCodePoint => Kind::Text,
            Builtin::StringConstruct => Kind::Text,
            Builtin::StringIterate => Kind::Text,
            Builtin::StringNext => Kind::Text,
            Builtin::StringMatchesNext => Kind::Text,
            Builtin::MapStore => Kind::Collection,
            Builtin::MapGet => Kind::Collection,
            Builtin::MapHas => Kind::Collection,
            Builtin::MapDelete => Kind::Collection,
            Builtin::MapClear => Kind::Collection,
            Builtin::MapForEach => Kind::Collection,
            Builtin::MapValues => Kind::Collection,
            Builtin::MapEntries => Kind::Collection,
            Builtin::MapKeys => Kind::Collection,
            Builtin::SetAdd => Kind::Collection,
            Builtin::SetHas => Kind::Collection,
            Builtin::SetDelete => Kind::Collection,
            Builtin::SetClear => Kind::Collection,
            Builtin::SetForEach => Kind::Collection,
            Builtin::SetValues => Kind::Collection,
            Builtin::SetEntries => Kind::Collection,
            Builtin::MapGroupBy => Kind::Collection,
            Builtin::MapGetOrInsert => Kind::Collection,
            Builtin::MapGetOrInsertComputed => Kind::Collection,
            Builtin::Union => Kind::Collection,
            Builtin::Intersection => Kind::Collection,
            Builtin::Difference => Kind::Collection,
            Builtin::SymmetricDifference => Kind::Collection,
            Builtin::IsSubsetOf => Kind::Collection,
            Builtin::IsSupersetOf => Kind::Collection,
            Builtin::IsDisjointFrom => Kind::Collection,
            Builtin::WeakMapStore => Kind::Collection,
            Builtin::WeakMapGet => Kind::Collection,
            Builtin::WeakMapGetOrInsert => Kind::Collection,
            Builtin::WeakMapGetOrInsertComputed => Kind::Collection,
            Builtin::WeakMapHas => Kind::Collection,
            Builtin::WeakMapDelete => Kind::Collection,
            Builtin::WeakSetAdd => Kind::Collection,
            Builtin::WeakSetHas => Kind::Collection,
            Builtin::WeakSetDelete => Kind::Collection,
            Builtin::Deref => Kind::Collection,
            Builtin::Register => Kind::Collection,
            Builtin::Unregister => Kind::Collection,
            Builtin::MapConstruct => Kind::Collection,
            Builtin::SetConstruct => Kind::Collection,
            Builtin::WeakMapConstruct => Kind::Collection,
            Builtin::WeakSetConstruct => Kind::Collection,
            Builtin::WeakRefConstruct => Kind::Collection,
            Builtin::RegistryConstruct => Kind::Collection,
            Builtin::MapSize => Kind::Collection,
            Builtin::SetSize => Kind::Collection,
            Builtin::EntriesNext => Kind::Collection,
            Builtin::GeneratorNext => Kind::Generator,
            Builtin::GeneratorReturn => Kind::Generator,
            Builtin::GeneratorThrow => Kind::Generator,
            Builtin::GeneratorAsyncNext => Kind::Generator,
            Builtin::GeneratorAsyncReturn => Kind::Generator,
            Builtin::GeneratorAsyncThrow => Kind::Generator,
            Builtin::ConsoleLog => Kind::Global,
            Builtin::Print => Kind::Global,
            Builtin::ParseInt => Kind::Global,
            Builtin::ParseFloat => Kind::Global,
            Builtin::IsNaN => Kind::Global,
            Builtin::IsFinite => Kind::Global,
            Builtin::Escape => Kind::Global,
            Builtin::Unescape => Kind::Global,
            Builtin::EncodeUriComponent => Kind::Global,
            Builtin::EncodeUri => Kind::Global,
            Builtin::DecodeUriComponent => Kind::Global,
            Builtin::DecodeUri => Kind::Global,
            Builtin::Eval => Kind::Global,
            Builtin::ReturnThis => Kind::Global,
            Builtin::HasInstance => Kind::Global,
        }
    }
}

} // verus!
