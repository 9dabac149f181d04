//! Values, and the line between this library and the engine that runs JavaScript code.
//!
//! A built-in decides and computes; reading a property, calling a function or allocating an
//! object is the engine's work. A built-in asks for such work through [`Interp`], which keeps a
//! transcript: the questions asked so far and the answers given so far. A built-in is a function
//! of its arguments and of the answers, so an engine runs it again with one more answer until no
//! question is left open; the result of that run is the result of the built-in.
use vstd::prelude::*;
use crate::builtin::Builtin;
use crate::num;
use crate::states::{copy_state, State, StateView};

verus! {

/// A handle to an object. Whether an object can be called or constructed never changes, so the
/// handle carries both.
#[derive(Clone, Copy, PartialEq, Eq, Structural, Debug)]
pub struct ObjRef {
    pub id: u64,
    pub callable: bool,
    pub constructor: bool,
}

/// A JavaScript value. Strings are handles into the string table, where equal strings have equal
/// handles; symbols and BigInts are handles as well, and the BigInt zero has the handle 0.
#[derive(Clone, Copy, PartialEq, Eq, Structural, Debug)]
pub enum Value {
    Undefined,
    Null,
    Bool(bool),
    /// The bits of a double.
    Num(u64),
    BigInt(u64),
    Str(u64),
    Sym(u64),
    Obj(ObjRef),
}

impl Value {
    pub open spec fn callable(self) -> bool {
        match self {
            Value::Obj(o) => o.callable,
            _ => false,
        }
    }

    pub open spec fn nullish(self) -> bool {
        self == Value::Undefined || self == Value::Null
    }

    pub open spec fn object(self) -> bool {
        self is Obj
    }

    pub fn is_callable(self) -> (r: bool)
        ensures
            r == self.callable(),
    {
        match self {
            Value::Obj(o) => o.callable,
            _ => false,
        }
    }

    pub fn is_nullish(self) -> (r: bool)
        ensures
            r == self.nullish(),
    {
        match self {
            Value::Undefined => true,
            Value::Null => true,
            _ => false,
        }
    }

    pub fn is_undefined(self) -> (r: bool)
        ensures
            r == (self == Value::Undefined),
    {
        match self {
            Value::Undefined => true,
            _ => false,
        }
    }

    pub fn is_object(self) -> (r: bool)
        ensures
            r == self.object(),
    {
        match self {
            Value::Obj(_) => true,
            _ => false,
        }
    }
}

/// Well-known symbols.
#[derive(Clone, Copy, PartialEq, Eq, Structural, Debug)]
pub enum WellKnown {
    AsyncDispose,
    AsyncIterator,
    Dispose,
    HasInstance,
    IsConcatSpreadable,
    Iterator,
    Match,
    MatchAll,
    Metadata,
    Replace,
    Search,
    Species,
    Split,
    ToPrimitive,
    ToStringTag,
    Unscopables,
}

/// A property key in a question.
#[derive(Clone, Copy, Debug)]
pub enum Key {
    /// A name written out in the library.
    Name(&'static str),
    /// An integer key.
    Index(u64),
    /// A well-known symbol.
    Symbol(WellKnown),
    /// A string or symbol value.
    Of(Value),
}

/// An own property.
#[derive(Clone, Copy, PartialEq, Eq, Structural, Debug)]
pub struct Property {
    /// The value of a data property.
    pub value: Value,
    /// The getter of an accessor property, or undefined.
    pub get: Value,
    /// The setter of an accessor property, or undefined.
    pub set: Value,
    pub accessor: bool,
    pub writable: bool,
    pub enumerable: bool,
    pub configurable: bool,
}

/// A property descriptor with only the explicitly-present fields populated.
#[derive(Clone, Copy, PartialEq, Eq, Structural, Debug)]
pub struct PartialDesc {
    pub value: Option<Value>,
    pub get: Option<Value>,
    pub set: Option<Value>,
    pub writable: Option<bool>,
    pub enumerable: Option<bool>,
    pub configurable: Option<bool>,
}

/// What a key means to an object.
#[derive(Clone, Copy, PartialEq, Eq, Structural, Debug)]
pub enum KeyClass {
    Ordinary,
    /// A string key of a module namespace.
    NamespaceExport,
    /// An element of a typed array, in range.
    Element(u64),
    /// A numeric key of a typed array that names no element.
    NoElement,
    /// An index of a platform object without an indexed setter.
    HostIndex,
    /// The `length` of an array.
    ArrayLength,
    /// An index of an array.
    ArrayIndex(u64),
    /// A mapped argument of a sloppy function.
    MappedArgument,
}

#[derive(Clone, Copy, PartialEq, Eq, Structural, Debug)]
pub enum ErrorKind {
    Type,
    Range,
    Syntax,
    Reference,
    Uri,
}

/// Work that only the engine can do. What a question lists besides, such as the arguments of a
/// call, goes with it as a list of values.
#[derive(Clone, Copy, Debug)]
pub enum Op {
    /// [[Get]] of a key, on a primitive through its prototype.
    Get(Value, Key),
    /// [[Set]] that throws where it is refused.
    Put(Value, Key, Value),
    /// HasProperty; the answer is a boolean.
    Has(Value, Key),
    /// [[Delete]]; the answer is whether it succeeded.
    Delete(Value, Key),
    /// DeletePropertyOrThrow.
    Remove(Value, Key),
    /// CreateDataPropertyOrThrow.
    CreateData(Value, Key, Value),
    /// The length of a typed array, which throws where it is out of bounds; undefined for any
    /// other object.
    TypedLength(Value),
    /// Whether a constructor is the `Array` of another realm.
    IsForeignArray(Value),
    /// Whether a constructor is this realm's `Array`.
    IsArrayConstructor(Value),
    /// The own property of the object itself; a proxy has none, and a private name is none.
    OwnProperty(Value, Key),
    /// The property that the object stores under a key, whatever its platform supplies.
    StoredProperty(Value, Key),
    /// The indexed property that the platform behind an object supplies, through its getter; none
    /// for any other object.
    SuppliedProperty(Value, Key),
    /// The keys that the object itself stores, in the order in which they were added; a proxy has
    /// none, and private names are not among them.
    OwnKeys(Value),
    /// The number of indices that the platform behind an object supplies, or undefined.
    SuppliedLength(Value),
    /// Stores a property as it is given, without validation.
    StoreProperty(Value, Key, Property),
    /// Takes a stored property out, without validation.
    RemoveProperty(Value, Key),
    /// The highest index under which an array stores an element, or undefined.
    HighestIndex(Value),
    /// What a key means to an object.
    Classify(Value, Key),
    /// Writes an element of a typed array.
    StoreElement(Value, u64, Value),
    /// Brings the stored value of a mapped argument up to date.
    SyncArgument(Value, Key),
    /// Writes a mapped argument through to its parameter.
    WriteArgument(Value, Key, Value),
    /// Severs a mapped argument from its parameter.
    UnmapArgument(Value, Key),
    /// The target and the handler of a proxy, both null once it has been revoked; an empty list
    /// for any other object.
    ProxyParts(Value),
    /// The prototype that the object itself stores, or null.
    Prototype(Value),
    /// Stores a prototype, or none for null.
    StorePrototype(Value, Value),
    /// Whether the object itself is extensible.
    Extensible(Value),
    /// Makes the object itself non-extensible.
    StopExtensions(Value),
    /// Whether the object refuses ever to become non-extensible.
    StaysExtensible(Value),
    /// Whether the object is the realm's `Object.prototype`.
    IsObjectPrototype(Value),
    /// Whether the object itself is an Array exotic object.
    IsArrayExotic(Value),
    /// Whether the object is a module namespace.
    IsNamespace(Value),
    /// Whether the object is a typed array that has elements.
    HasElements(Value),
    /// Coerces a value and writes it to the element that a numeric key names, if there is one.
    WriteElement(Value, Key, Value),
    /// [[Get]] with a receiver.
    GetFor(Value, Key, Value),
    /// [[Set]] with a receiver; the answer is whether it succeeded.
    SetFor(Value, Key, Value, Value),
    /// The realm's wrapper prototype for a primitive.
    WrapperPrototype(Value),
    /// Whether the built-in runs as a constructor, and for which new target; undefined otherwise.
    NewTarget,
    /// Whether the value is the realm's `Object` constructor.
    IsObjectConstructor(Value),
    /// Calls a function with a receiver; the list holds the arguments.
    Call(Value, Value),
    /// Constructs with a constructor; the list holds the arguments.
    Construct(Value, Value),
    /// ToString.
    ToText(Value),
    /// ToNumber.
    ToNumber(Value),
    /// ToPropertyKey.
    ToKey(Value),
    /// A fresh wrapper object for a primitive, without properties of its own.
    Wrap(Value),
    /// A fresh ordinary object.
    NewObject,
    /// A fresh object with the given prototype, or none for null.
    NewWithPrototype(Value),
    /// A fresh array of the listed elements.
    NewArray,
    /// A fresh object `{ value, done }`.
    NewIterResult(Value, bool),
    /// A fresh error object; a listed value takes the place of `{}` in the message.
    NewError(ErrorKind, &'static str),
    /// All values of an iterable, as a list.
    IterateAll(Value),
    /// GetIterator: the iterator and its `next` method.
    Iterate(Value),
    /// IteratorClose after a throw: whatever the close does is dropped.
    Close(Value),
    /// IteratorClose after a normal completion.
    CloseNormal(Value),
    /// Whether the object carries the internal slots of a kind.
    HasBrand(Value, Brand),
    /// The slot of a Map or Set at a position: a list of its key and value, an empty list for a
    /// deleted entry, or undefined past the end.
    SlotAt(Value, u64),
    /// The number of live entries of a Map or Set.
    LiveCount(Value),
    /// Whether a Map or Set holds a key.
    HoldsKey(Value, Value),
    /// The live keys of a Map or Set.
    LiveKeys(Value),
    /// The value under a key of a Map or WeakMap, in a list, or an empty list.
    EntryValue(Value, Value),
    /// Sets an entry of a Map that a built-in has made.
    StoreEntry(Value, Value, Value),
    /// A fresh Set of the listed values.
    NewSet,
    /// A fresh, empty collection of a kind.
    NewCollection(Brand),
    /// Gives an object the empty slots of a collection.
    InitCollection(Value, Brand),
    /// Whether a symbol is registered, and so never collected.
    IsRegistered(Value),
    /// A fresh pending promise.
    NewPromise,
    ResolvePromise(Value, Value),
    RejectPromise(Value, Value),
    /// PromiseResolve with the intrinsic constructor.
    PromiseFor(Value),
    /// Reactions: promise, on-fulfilled, on-rejected, and the derived promise or undefined. A
    /// reaction is a native function with the listed values bound.
    PromiseThen(Value, Reaction, Reaction, Value),
    /// The string of a String wrapper object, or undefined.
    StringData(Value),
    /// The Number of a Number wrapper object, or undefined.
    NumberData(Value),
    /// The descriptive string of a symbol.
    SymbolText(Value),
    /// A fresh regular expression of the listed pattern and flags.
    NewRegExp,
    /// The program of a regular expression object: whether it is global, sticky, Unicode-aware
    /// and records indices, the number of its groups, and then each group name followed by the
    /// group's number. An empty list for any other object.
    RegExpShape(Value),
    /// Matches a string from a position on: the start and end of the match and of each group in
    /// code units, undefined for a group that took no part, or an empty list where there is no
    /// match.
    MatchAt(Value, Value, u64),
    /// Records the listed spans as the last match in a string.
    RecordMatch(Value, Value),
    /// A string in a Unicode normalization form.
    Normalize(Value, &'static str),
    /// The canonical combining class of a code point.
    CombiningClass(u32),
    /// CanonicalizeLocaleList.
    LocaleList(Value),
    /// The target of a bound function, or undefined.
    BoundTarget(Value),
    /// The named intrinsic prototype of the realm of a function, or undefined.
    RealmPrototype(Value, &'static str),
    /// The named intrinsic prototype of the running realm, or undefined.
    Intrinsic(&'static str),
    /// Reads an internal slot; one that was never written is undefined.
    ReadSlot(Value, &'static str),
    /// Writes an internal slot.
    WriteSlot(Value, &'static str, Value),
    /// A fresh anonymous function of the library with an observable length, and with the listed
    /// values bound as its first arguments.
    NewBound(Native, u64),
    /// A fresh AggregateError of an array of errors.
    NewAggregateError(Value),
    /// Whether a generator has run to its end.
    IsFinished(Value),
    /// Runs a generator to its next suspension: a list of what happened, as a Number, and the
    /// value that came with it. 0 is a yield, 1 a yield of a result object that stands for itself,
    /// 2 a return, 3 a throw, 4 an await.
    ResumeGenerator(Value, Resume),
    /// Drives the async function behind a promise.
    DriveAsync(Value, Resume),
    /// Hands a request to an async generator; the promise is settled with its result.
    DriveAsyncGenerator(Value, Value, Resume),
    /// Goes on with an async generator at the await where it stopped.
    DriveAsyncInner(Value, Value, Resume),
    /// Takes the next request of an async generator.
    FinishAsyncStep(Value),
    /// Whether the object is the realm's `Iterator.prototype`.
    IsIteratorPrototype(Value),
    /// Whether the value is the realm's `Iterator` constructor.
    IsIteratorConstructor(Value),
    /// The target of a WeakRef, or undefined once it has been collected.
    WeakTarget(Value),
    /// Makes an object a WeakRef to a target.
    StoreWeakTarget(Value, Value),
    /// Keeps a value alive until the end of the job.
    KeepAlive(Value),
    /// Makes an object a registry with a cleanup callback.
    NewRegistry(Value, Value),
    /// Writes a line to the console.
    Print(Value),
    /// Runs a text as a program in the global scope.
    Eval(Value),
    /// The constructor of an Intl service.
    IntlService(Service),
    /// The plain text of a time value.
    DateText(Value),
    /// Whether the engine has Intl.
    HasIntl,
    /// The global object.
    GlobalObject,
    /// A fresh function object under a name, with a length, that does the work of a built-in when
    /// it is called.
    NewNative(&'static str, u64, Builtin),
    /// Defines a method that does the work of a built-in: writable, not enumerable, configurable.
    DefineMethod(Value, &'static str, u64, Builtin),
    /// A fresh object with the named intrinsic prototype, or %IteratorPrototype% where there is no
    /// such, and with the state that comes with the question.
    NewIterator(&'static str),
    /// The state that an iterator object was given last.
    ReadState(Value),
    /// Gives an iterator object the state that comes with the question.
    WriteState(Value),
    /// The Number that the listed digits stand for in a radix, with the sign.
    IntegerNumber(u32, bool),
    /// The Number that a decimal literal stands for.
    DecimalNumber(Value),
    /// Starts a coroutine of `Array.fromAsync` behind a promise: the constructor, the source, the
    /// mapper and its receiver are listed.
    StartFromAsync(Value),
    /// OrdinaryHasInstance.
    HasInstance(Value, Value),
    /// Evaluates a deferred module namespace before a key of it is looked at; nothing for any other
    /// object. Undefined stands for no key in particular.
    TriggerDeferred(Value, Value),
    /// Installs one family of built-ins.
    Install(Family),
    /// Registers an object as a named intrinsic of the realm.
    RegisterIntrinsic(&'static str, Value),
    /// Defines a @@toStringTag: not writable, not enumerable, configurable.
    DefineTag(Value, &'static str),
    /// The shape of a typed array: its length in elements, or undefined where it is out of bounds,
    /// the size of an element and the byte offset.
    TypedShape(Value),
    /// The buffer of a typed array.
    TypedBuffer(Value),
}

/// How a parked computation is resumed.
#[derive(Clone, Copy, PartialEq, Eq, Structural, Debug)]
pub enum Resume {
    Next(Value),
    Return(Value),
    Throw(Value),
    Terminate,
}

/// The anonymous functions that promise machinery hands out.
#[derive(Clone, Copy, PartialEq, Eq, Structural, Debug)]
pub enum Native {
    CapabilityExecutor,
    PassValue,
    PassReason,
    KeyedElement,
    KeyedFulfilled,
    KeyedRejected,
    ThenableJob,
}

/// The Intl services that ordinary built-ins go through.
#[derive(Clone, Copy, PartialEq, Eq, Structural, Debug)]
pub enum Service {
    Collator,
    NumberFormat,
    DateTimeFormat,
}

/// The families of built-ins that the engine brings itself, in the order in which they are
/// installed.
#[derive(Clone, Copy, PartialEq, Eq, Structural, Debug)]
pub enum Family {
    FunctionPrototype,
    Symbols,
    GeneratorFunctions,
    Numbers,
    Booleans,
    BigInts,
    Math,
    Errors,
    Reflect,
    Proxies,
    Promises,
    Json,
    Dates,
    TypedArrays,
    DataViews,
    SharedArrayBuffers,
    RegExps,
    Host,
    Atomics,
    DisposableStacks,
    ShadowRealms,
    Temporal,
    Intl,
}

/// The kinds of objects that built-ins tell apart by their internal slots.
#[derive(Clone, Copy, PartialEq, Eq, Structural, Debug)]
pub enum Brand {
    MapData,
    SetData,
    WeakMapData,
    WeakSetData,
    /// A WeakMap or a WeakSet.
    WeakData,
    RegExpData,
    PromiseData,
    WeakRefData,
    RegistryData,
    GeneratorData,
    AsyncGeneratorData,
    ArgumentsData,
    ErrorData,
    BooleanData,
    NumberData,
    StringData,
    DateData,
    TypedArrayData,
}

/// A slot of a Map or Set.
#[derive(Clone, Copy, PartialEq, Eq, Structural, Debug)]
pub enum SlotRead {
    End,
    Deleted,
    Live(Value, Value),
}

/// A native reaction of a promise.
#[derive(Clone, Copy, PartialEq, Eq, Structural, Debug)]
pub enum Reaction {
    Absent,
    /// Fulfil the bound promise with undefined.
    SettleUndefined(Value),
    /// Reject the bound promise with the same reason.
    SettleReject(Value),
    /// Wrap the value into an iterator result with the bound `done`.
    Unwrap(bool),
    /// Close the bound iterator and pass the reason on.
    CloseAndReject(Value),
}

/// A question as the transcript records it.
pub struct Ask {
    pub op: Op,
    pub list: Vec<Value>,
    /// The state that an iterator object is given.
    pub state: Option<State>,
}

/// A question as contracts speak of it.
pub struct Question {
    pub op: Op,
    pub list: Seq<Value>,
    pub state: Option<StateView>,
}

impl View for Ask {
    type V = Question;

    open spec fn view(&self) -> Question {
        Question {
            op: self.op,
            list: self.list@,
            state: match self.state {
                Some(s) => Some(s@),
                None => None,
            },
        }
    }
}

/// An answer of the engine.
pub enum Reply {
    Value(Value),
    Throw(Value),
    List(Vec<Value>),
    Property(Option<Property>),
    Class(KeyClass),
    State(State),
}

/// An answer as contracts speak of it.
pub enum Answer {
    Value(Value),
    Throw(Value),
    List(Seq<Value>),
    Property(Option<Property>),
    Class(KeyClass),
    State(StateView),
}

impl View for Reply {
    type V = Answer;

    open spec fn view(&self) -> Answer {
        match *self {
            Reply::Value(v) => Answer::Value(v),
            Reply::Throw(v) => Answer::Throw(v),
            Reply::List(l) => Answer::List(l@),
            Reply::Property(p) => Answer::Property(p),
            Reply::Class(c) => Answer::Class(c),
            Reply::State(s) => Answer::State(s@),
        }
    }
}

/// A transcript together with the string table.
pub struct World {
    pub strings: Seq<Seq<u16>>,
    pub answers: Seq<Answer>,
    pub asked: Seq<Question>,
}

/// What a fallible built-in leaves behind: the transcript, and a result or a thrown value.
pub type Outcome<T> = (World, Result<T, Value>);

/// The first place of `u` in `t` from `i` on, or the length.
pub open spec fn place_from(t: Seq<Seq<u16>>, u: Seq<u16>, i: int) -> int
    decreases t.len() - i,
{
    if i < 0 || i >= t.len() {
        t.len() as int
    } else if t[i] == u {
        i
    } else {
        place_from(t, u, i + 1)
    }
}

impl World {
    /// How many more questions can be asked before none is answered.
    pub open spec fn left(self) -> nat {
        if self.halted() {
            0
        } else {
            (self.answers.len() + 1 - self.asked.len()) as nat
        }
    }

    /// A question is still open.
    pub open spec fn halted(self) -> bool {
        self.asked.len() > self.answers.len()
    }

    /// Asks a question. Once a question is open nothing more is asked, and every later answer is
    /// a thrown undefined.
    pub open spec fn ask(self, op: Op, list: Seq<Value>) -> (World, Answer) {
        if self.halted() {
            (self, Answer::Throw(Value::Undefined))
        } else {
            let w = World { asked: self.asked.push(Question { op, list, state: None }), ..self };
            if self.asked.len() < self.answers.len() {
                (w, self.answers[self.asked.len() as int])
            } else {
                (w, Answer::Throw(Value::Undefined))
            }
        }
    }

    /// Hands a state over with a question about work that cannot fail.
    pub open spec fn tell(self, op: Op, s: StateView) -> (World, Value) {
        if self.halted() {
            (self, Value::Undefined)
        } else {
            let q = Question { op, list: Seq::empty(), state: Some(s) };
            let w = World { asked: self.asked.push(q), ..self };
            if self.asked.len() < self.answers.len() {
                (
                    w,
                    match self.answers[self.asked.len() as int] {
                        Answer::Value(v) => v,
                        _ => Value::Undefined,
                    },
                )
            } else {
                (w, Value::Undefined)
            }
        }
    }

    /// The state of an iterator object; none for any other value.
    pub open spec fn state(self, o: Value) -> (World, Option<StateView>) {
        if !o.object() {
            (self, None)
        } else {
            let (w, a) = self.ask(Op::ReadState(o), Seq::empty());
            match a {
                Answer::State(s) => (w, Some(s)),
                _ => (w, None),
            }
        }
    }

    /// Keeps a state in an iterator object.
    pub open spec fn keep(self, o: Value, s: StateView) -> World {
        self.tell(Op::WriteState(o), s).0
    }

    /// Evaluates a deferred namespace before a key of it is looked at.
    pub open spec fn triggered(self, o: Value, key: Value) -> Outcome<()> {
        let (w, r) = self.value(Op::TriggerDeferred(o, key), Seq::empty());
        match r {
            Ok(_) => (w, Ok(())),
            Err(e) => (w, Err(e)),
        }
    }

    /// A question answered by a value or a throw. An answer of another kind counts as a thrown
    /// undefined.
    pub open spec fn value(self, op: Op, list: Seq<Value>) -> Outcome<Value> {
        let (w, a) = self.ask(op, list);
        match a {
            Answer::Value(v) => (w, Ok(v)),
            Answer::Throw(e) => (w, Err(e)),
            _ => (w, Err(Value::Undefined)),
        }
    }

    /// A question about work that cannot fail. An answer of another kind counts as undefined.
    pub open spec fn plain(self, op: Op, list: Seq<Value>) -> (World, Value) {
        let (w, a) = self.ask(op, list);
        match a {
            Answer::Value(v) => (w, v),
            _ => (w, Value::Undefined),
        }
    }

    /// A question answered by a list.
    pub open spec fn list(self, op: Op) -> Outcome<Seq<Value>> {
        let (w, a) = self.ask(op, Seq::empty());
        match a {
            Answer::List(l) => (w, Ok(l)),
            Answer::Throw(e) => (w, Err(e)),
            _ => (w, Err(Value::Undefined)),
        }
    }

    /// A question answered by an own property.
    pub open spec fn property(self, op: Op) -> Outcome<Option<Property>> {
        let (w, a) = self.ask(op, Seq::empty());
        match a {
            Answer::Property(p) => (w, Ok(p)),
            Answer::Throw(e) => (w, Err(e)),
            _ => (w, Err(Value::Undefined)),
        }
    }

    /// What a key means to an object; an answer of another kind counts as an ordinary key.
    pub open spec fn class(self, o: Value, k: Key) -> (World, KeyClass) {
        let (w, a) = self.ask(Op::Classify(o, k), Seq::empty());
        match a {
            Answer::Class(c) => (w, c),
            _ => (w, KeyClass::Ordinary),
        }
    }

    /// A question answered by yes or no; anything but a yes counts as a no.
    pub open spec fn yes(self, op: Op) -> (World, bool) {
        let (w, v) = self.plain(op, Seq::empty());
        (w, v == Value::Bool(true))
    }

    pub open spec fn get(self, o: Value, k: Key) -> Outcome<Value> {
        self.value(Op::Get(o, k), Seq::empty())
    }

    pub open spec fn call(self, f: Value, this: Value, args: Seq<Value>) -> Outcome<Value> {
        self.value(Op::Call(f, this), args)
    }

    /// A fresh error object, thrown.
    pub open spec fn throw<T>(self, kind: ErrorKind, message: &'static str) -> Outcome<T> {
        let (w, e) = self.plain(Op::NewError(kind, message), Seq::empty());
        (w, Err(e))
    }

    /// A fresh error object whose message names a key, thrown.
    pub open spec fn throw_about<T>(
        self,
        kind: ErrorKind,
        message: &'static str,
        key: Value,
    ) -> Outcome<T> {
        let (w, e) = self.plain(Op::NewError(kind, message), seq![key]);
        (w, Err(e))
    }

    /// A fresh iterator result.
    pub open spec fn iter_result(self, value: Value, done: bool) -> Outcome<Value> {
        let (w, v) = self.plain(Op::NewIterResult(value, done), Seq::empty());
        (w, Ok(v))
    }

    /// Closes an iterator and throws `e`.
    pub open spec fn close_and_throw<T>(self, iter: Value, e: Value) -> Outcome<T> {
        let (w, _) = self.plain(Op::Close(iter), Seq::empty());
        (w, Err(e))
    }

    /// Closes an iterator and throws a fresh error.
    pub open spec fn close_and_fail<T>(
        self,
        iter: Value,
        kind: ErrorKind,
        message: &'static str,
    ) -> Outcome<T> {
        let (w, _) = self.plain(Op::Close(iter), Seq::empty());
        w.throw(kind, message)
    }

    /// The code units of a string handle; a handle that stands for nothing is the empty string.
    pub open spec fn units(self, s: u64) -> Seq<u16> {
        if s < self.strings.len() {
            self.strings[s as int]
        } else {
            Seq::empty()
        }
    }

    /// The handle of a string, which is entered where it is new.
    pub open spec fn intern(self, u: Seq<u16>) -> (World, u64) {
        let i = place_from(self.strings, u, 0);
        if i < self.strings.len() {
            (self, i as u64)
        } else {
            (World { strings: self.strings.push(u), ..self }, self.strings.len() as u64)
        }
    }

    /// ToString, as a string handle.
    pub open spec fn text(self, v: Value) -> Outcome<u64> {
        match v {
            Value::Str(s) => (self, Ok(s)),
            _ => {
                let (w, r) = self.value(Op::ToText(v), Seq::empty());
                match r {
                    Ok(Value::Str(s)) => (w, Ok(s)),
                    Ok(_) => (w, Err(Value::Undefined)),
                    Err(e) => (w, Err(e)),
                }
            },
        }
    }

    /// ToNumber, as the bits of a double.
    pub open spec fn number(self, v: Value) -> Outcome<u64> {
        match v {
            Value::Num(n) => (self, Ok(n)),
            _ => {
                let (w, r) = self.value(Op::ToNumber(v), Seq::empty());
                match r {
                    Ok(Value::Num(n)) => (w, Ok(n)),
                    Ok(_) => (w, Err(Value::Undefined)),
                    Err(e) => (w, Err(e)),
                }
            },
        }
    }

    /// ToPropertyKey: a string or a symbol.
    pub open spec fn key(self, v: Value) -> Outcome<Value> {
        match v {
            Value::Str(_) => (self, Ok(v)),
            Value::Sym(_) => (self, Ok(v)),
            _ => self.value(Op::ToKey(v), Seq::empty()),
        }
    }

    /// The target and the handler, where `v` is a proxy.
    pub open spec fn proxy(self, v: Value) -> (World, Option<(Value, Value)>) {
        if !v.object() {
            (self, None)
        } else {
            let (w, l) = self.list(Op::ProxyParts(v));
            match l {
                Ok(l) => if l.len() == 2 {
                    (w, Some((l[0], l[1])))
                } else {
                    (w, None)
                },
                Err(_) => (w, None),
            }
        }
    }

    /// The slot of a Map or Set at a position.
    pub open spec fn slot(self, coll: Value, p: u64) -> (World, SlotRead) {
        let (w, l) = self.list(Op::SlotAt(coll, p));
        match l {
            Ok(l) => if l.len() == 2 {
                (w, SlotRead::Live(l[0], l[1]))
            } else {
                (w, SlotRead::Deleted)
            },
            Err(_) => (w, SlotRead::End),
        }
    }

    /// GetIterator.
    pub open spec fn iterator(self, v: Value) -> Outcome<(Value, Value)> {
        let (w, l) = self.list(Op::Iterate(v));
        match l {
            Err(e) => (w, Err(e)),
            Ok(l) => if l.len() == 2 {
                (w, Ok((l[0], l[1])))
            } else {
                (w, Err(Value::Undefined))
            },
        }
    }

    /// A string value with the given code units.
    pub open spec fn text_value(self, u: Seq<u16>) -> Outcome<Value> {
        let (w, s) = self.intern(u);
        (w, Ok(Value::Str(s)))
    }

    /// ToBoolean.
    pub open spec fn truthy(self, v: Value) -> bool {
        match v {
            Value::Undefined => false,
            Value::Null => false,
            Value::Bool(b) => b,
            Value::Num(n) => !num::zero(n) && !num::nan(n),
            Value::BigInt(n) => n != 0,
            Value::Str(s) => self.units(s).len() > 0,
            Value::Sym(_) => true,
            Value::Obj(_) => true,
        }
    }
}

/// The transcript that built-ins run against.
pub struct Interp {
    strings: Vec<Vec<u16>>,
    replies: Vec<Reply>,
    asked: Vec<Ask>,
}

impl View for Interp {
    type V = World;

    closed spec fn view(&self) -> World {
        World {
            strings: self.strings@.map_values(|u: Vec<u16>| u@),
            answers: self.replies@.map_values(|r: Reply| r@),
            asked: self.asked@.map_values(|a: Ask| a@),
        }
    }
}

/// The questions and answers of a built-in that waits while another one runs.
pub struct Transcript {
    replies: Vec<Reply>,
    asked: Vec<Ask>,
}

impl View for Transcript {
    type V = (Seq<Answer>, Seq<Question>);

    closed spec fn view(&self) -> (Seq<Answer>, Seq<Question>) {
        (self.replies@.map_values(|r: Reply| r@), self.asked@.map_values(|a: Ask| a@))
    }
}

/// Whether two runs of code units are equal.
pub fn same_units(a: &Vec<u16>, b: &Vec<u16>) -> (r: bool)
    ensures
        r == (a@ == b@),
{
    if a.len() != b.len() {
        return false;
    }
    let mut i: usize = 0;
    while i < a.len()
        invariant
            i <= a@.len(),
            a@.len() == b@.len(),
            forall|j: int| 0 <= j < i ==> a@[j] == b@[j],
        decreases a@.len() - i,
    {
        if a[i] != b[i] {
            return false;
        }
        i += 1;
    }
    assert(a@ =~= b@);
    true
}

proof fn lemma_place_from(t: Seq<Seq<u16>>, u: Seq<u16>, i: int, j: int)
    requires
        0 <= i <= j <= t.len(),
        forall|k: int| i <= k < j ==> t[k] != u,
    ensures
        place_from(t, u, i) == place_from(t, u, j),
    decreases j - i,
{
    if i < j {
        lemma_place_from(t, u, i + 1, j);
    }
}

impl Interp {
    /// An empty transcript and an empty string table.
    pub fn new() -> (r: Interp)
        ensures
            r@.strings == Seq::<Seq<u16>>::empty(),
            r@.answers == Seq::<Answer>::empty(),
            r@.asked == Seq::<Question>::empty(),
    {
        let r = Interp { strings: Vec::new(), replies: Vec::new(), asked: Vec::new() };
        assert(r@.strings =~= Seq::<Seq<u16>>::empty());
        assert(r@.answers =~= Seq::<Answer>::empty());
        assert(r@.asked =~= Seq::<Question>::empty());
        r
    }

    /// Starts the next run: the answers stay, the questions are asked again.
    pub fn rewind(&mut self)
        ensures
            final(self)@ == (World { asked: Seq::empty(), ..old(self)@ }),
    {
        self.asked = Vec::new();
        assert(self@.asked =~= Seq::<Question>::empty());
    }

    /// Starts a built-in with nothing asked yet. What was asked and answered so far is handed out,
    /// for the built-in that waits; the strings are shared.
    pub fn begin(&mut self) -> (r: Transcript)
        ensures
            final(self)@ == (World { answers: Seq::empty(), asked: Seq::empty(), ..old(self)@ }),
            r@ == (old(self)@.answers, old(self)@.asked),
    {
        let mut replies: Vec<Reply> = Vec::new();
        let mut asked: Vec<Ask> = Vec::new();
        std::mem::swap(&mut replies, &mut self.replies);
        std::mem::swap(&mut asked, &mut self.asked);
        assert(self@.answers =~= Seq::<Answer>::empty());
        assert(self@.asked =~= Seq::<Question>::empty());
        Transcript { replies, asked }
    }

    /// Goes back to the built-in that waited.
    pub fn end(&mut self, t: Transcript)
        ensures
            final(self)@ == (World { answers: t@.0, asked: t@.1, ..old(self)@ }),
    {
        self.replies = t.replies;
        self.asked = t.asked;
    }

    /// Adds the answer to the open question.
    pub fn answer(&mut self, reply: Reply)
        ensures
            final(self)@ == (World { answers: old(self)@.answers.push(reply@), ..old(self)@ }),
    {
        let ghost before = self.replies@;
        self.replies.push(reply);
        assert(self@.answers =~= before.map_values(|r: Reply| r@).push(reply@));
    }

    /// The open question, if there is one.
    pub fn open_question(&self) -> (r: Option<&Ask>)
        ensures
            r is Some == self@.halted(),
            r matches Some(q) ==> q@ == self@.asked.last(),
    {
        if self.asked.len() > self.replies.len() {
            Some(&self.asked[self.asked.len() - 1])
        } else {
            None
        }
    }

    /// Whether a question is open.
    pub fn is_halted(&self) -> (r: bool)
        ensures
            r == self@.halted(),
    {
        self.asked.len() > self.replies.len()
    }

    /// Records a question; the answer to it has the returned place, if it is there.
    fn record(&mut self, op: Op, list: Vec<Value>) -> (r: Option<usize>)
        ensures
            final(self)@ == old(self)@.ask(op, list@).0,
            final(self).replies == old(self).replies,
            match r {
                Some(i) => i < final(self).replies@.len() && old(self)@.ask(op, list@).1
                    == final(self).replies@[i as int]@,
                None => old(self)@.ask(op, list@).1 == Answer::Throw(Value::Undefined),
            },
    {
        if self.asked.len() > self.replies.len() {
            return None;
        }
        let n: usize = self.asked.len();
        let ghost before = self.asked@;
        let ask = Ask { op, list, state: None };
        let ghost q = ask@;
        self.asked.push(ask);
        assert(self@.asked =~= before.map_values(|a: Ask| a@).push(q));
        if n < self.replies.len() {
            assert(self@.answers[n as int] == self.replies@[n as int]@);
            Some(n)
        } else {
            None
        }
    }

    /// Hands a state over with a question.
    pub fn tell(&mut self, op: Op, s: State) -> (r: Value)
        ensures
            (final(self)@, r) == old(self)@.tell(op, s@),
    {
        if self.asked.len() > self.replies.len() {
            return Value::Undefined;
        }
        let n: usize = self.asked.len();
        let ghost before = self.asked@;
        let nothing: Vec<Value> = Vec::new();
        assert(nothing@ =~= Seq::<Value>::empty());
        let ask = Ask { op, list: nothing, state: Some(s) };
        let ghost q = ask@;
        self.asked.push(ask);
        assert(self@.asked =~= before.map_values(|a: Ask| a@).push(q));
        if n < self.replies.len() {
            assert(self@.answers[n as int] == self.replies@[n as int]@);
            match &self.replies[n] {
                Reply::Value(v) => *v,
                _ => Value::Undefined,
            }
        } else {
            Value::Undefined
        }
    }

    /// Reads the state of an iterator object.
    pub fn read_state(&mut self, o: Value) -> (r: Option<State>)
        ensures
            final(self)@ == old(self)@.state(o).0,
            match r {
                Some(s) => old(self)@.state(o).1 == Some(s@),
                None => old(self)@.state(o).1 is None,
            },
    {
        if !o.is_object() {
            return None;
        }
        let nothing: Vec<Value> = Vec::new();
        assert(nothing@ =~= Seq::<Value>::empty());
        match self.record(Op::ReadState(o), nothing) {
            Some(i) => match &self.replies[i] {
                Reply::State(s) => Some(copy_state(s)),
                _ => None,
            },
            None => None,
        }
    }

    /// Keeps a state in an iterator object.
    pub fn keep(&mut self, o: Value, s: State)
        ensures
            final(self)@ == old(self)@.keep(o, s@),
    {
        let _ = self.tell(Op::WriteState(o), s);
    }

    pub fn ask_value(&mut self, op: Op, list: Vec<Value>) -> (r: Result<Value, Value>)
        ensures
            (final(self)@, r) == old(self)@.value(op, list@),
    {
        match self.record(op, list) {
            Some(i) => match &self.replies[i] {
                Reply::Value(v) => Ok(*v),
                Reply::Throw(e) => Err(*e),
                _ => Err(Value::Undefined),
            },
            None => Err(Value::Undefined),
        }
    }

    pub fn ask_plain(&mut self, op: Op, list: Vec<Value>) -> (r: Value)
        ensures
            (final(self)@, r) == old(self)@.plain(op, list@),
    {
        match self.record(op, list) {
            Some(i) => match &self.replies[i] {
                Reply::Value(v) => *v,
                _ => Value::Undefined,
            },
            None => Value::Undefined,
        }
    }

    pub fn ask_list(&mut self, op: Op) -> (r: Result<Vec<Value>, Value>)
        ensures
            final(self)@ == old(self)@.list(op).0,
            match r {
                Ok(l) => old(self)@.list(op).1 == Ok::<Seq<Value>, Value>(l@),
                Err(e) => old(self)@.list(op).1 == Err::<Seq<Value>, Value>(e),
            },
    {
        let nothing: Vec<Value> = Vec::new();
        assert(nothing@ =~= Seq::<Value>::empty());
        match self.record(op, nothing) {
            Some(i) => match &self.replies[i] {
                Reply::List(l) => Ok(copy_values(l)),
                Reply::Throw(e) => Err(*e),
                _ => Err(Value::Undefined),
            },
            None => Err(Value::Undefined),
        }
    }

    pub fn ask_property(&mut self, op: Op) -> (r: Result<Option<Property>, Value>)
        ensures
            (final(self)@, r) == old(self)@.property(op),
    {
        let nothing: Vec<Value> = Vec::new();
        assert(nothing@ =~= Seq::<Value>::empty());
        match self.record(op, nothing) {
            Some(i) => match &self.replies[i] {
                Reply::Property(p) => Ok(*p),
                Reply::Throw(e) => Err(*e),
                _ => Err(Value::Undefined),
            },
            None => Err(Value::Undefined),
        }
    }

    /// Evaluates a deferred namespace before a key of it is looked at.
    pub fn trigger(&mut self, o: Value, key: Value) -> (r: Result<(), Value>)
        ensures
            (final(self)@, r) == old(self)@.triggered(o, key),
    {
        match self.value_of(Op::TriggerDeferred(o, key)) {
            Ok(_) => Ok(()),
            Err(e) => Err(e),
        }
    }

    pub fn classify(&mut self, o: Value, k: Key) -> (r: KeyClass)
        ensures
            (final(self)@, r) == old(self)@.class(o, k),
    {
        let nothing: Vec<Value> = Vec::new();
        assert(nothing@ =~= Seq::<Value>::empty());
        match self.record(Op::Classify(o, k), nothing) {
            Some(i) => match &self.replies[i] {
                Reply::Class(c) => *c,
                _ => KeyClass::Ordinary,
            },
            None => KeyClass::Ordinary,
        }
    }

    pub fn ask_yes(&mut self, op: Op) -> (r: bool)
        ensures
            (final(self)@, r) == old(self)@.yes(op),
    {
        match self.perform(op) {
            Value::Bool(b) => b,
            _ => false,
        }
    }

    pub fn get_member(&mut self, o: Value, k: Key) -> (r: Result<Value, Value>)
        ensures
            (final(self)@, r) == old(self)@.get(o, k),
    {
        let nothing: Vec<Value> = Vec::new();
        assert(nothing@ =~= Seq::<Value>::empty());
        self.ask_value(Op::Get(o, k), nothing)
    }

    pub fn call(&mut self, f: Value, this: Value, args: Vec<Value>) -> (r: Result<Value, Value>)
        ensures
            (final(self)@, r) == old(self)@.call(f, this, args@),
    {
        self.ask_value(Op::Call(f, this), args)
    }

    /// Asks for work that takes no list.
    pub fn value_of(&mut self, op: Op) -> (r: Result<Value, Value>)
        ensures
            (final(self)@, r) == old(self)@.value(op, Seq::empty()),
    {
        let nothing: Vec<Value> = Vec::new();
        assert(nothing@ =~= Seq::<Value>::empty());
        self.ask_value(op, nothing)
    }

    /// Asks for work that takes no list and cannot fail.
    pub fn perform(&mut self, op: Op) -> (r: Value)
        ensures
            (final(self)@, r) == old(self)@.plain(op, Seq::empty()),
    {
        let nothing: Vec<Value> = Vec::new();
        assert(nothing@ =~= Seq::<Value>::empty());
        self.ask_plain(op, nothing)
    }

    /// A fresh error object.
    pub fn make_error(&mut self, kind: ErrorKind, message: &'static str) -> (r: Value)
        ensures
            (final(self)@, r) == old(self)@.plain(Op::NewError(kind, message), Seq::empty()),
    {
        self.perform(Op::NewError(kind, message))
    }

    /// A fresh error object as the result of a failed built-in.
    pub fn fail<T>(&mut self, kind: ErrorKind, message: &'static str) -> (r: Result<T, Value>)
        ensures
            (final(self)@, r) == old(self)@.throw::<T>(kind, message),
    {
        Err(self.make_error(kind, message))
    }

    /// A fresh TypeError as the result of a failed built-in.
    pub fn type_error<T>(&mut self, message: &'static str) -> (r: Result<T, Value>)
        ensures
            (final(self)@, r) == old(self)@.throw::<T>(ErrorKind::Type, message),
    {
        self.fail(ErrorKind::Type, message)
    }

    /// A fresh TypeError whose message names a key in the place of `{}`.
    pub fn type_error_about<T>(&mut self, message: &'static str, key: Value) -> (r: Result<
        T,
        Value,
    >)
        ensures
            (final(self)@, r) == old(self)@.throw_about::<T>(ErrorKind::Type, message, key),
    {
        let list = vec![key];
        assert(list@ =~= seq![key]);
        Err(self.ask_plain(Op::NewError(ErrorKind::Type, message), list))
    }

    /// IteratorClose after a throw.
    pub fn iterator_close(&mut self, iter: Value)
        ensures
            final(self)@ == old(self)@.plain(Op::Close(iter), Seq::empty()).0,
    {
        let _ = self.perform(Op::Close(iter));
    }

    /// IteratorClose after a normal completion.
    pub fn iterator_close_normal(&mut self, iter: Value) -> (r: Result<Value, Value>)
        ensures
            (final(self)@, r) == old(self)@.value(Op::CloseNormal(iter), Seq::empty()),
    {
        self.value_of(Op::CloseNormal(iter))
    }

    /// A fresh array of the elements.
    pub fn make_array(&mut self, elems: Vec<Value>) -> (r: Value)
        ensures
            (final(self)@, r) == old(self)@.plain(Op::NewArray, elems@),
    {
        self.ask_plain(Op::NewArray, elems)
    }

    /// A fresh `{ value, done }` object.
    pub fn iter_result(&mut self, value: Value, done: bool) -> (r: Result<Value, Value>)
        ensures
            (final(self)@, r) == old(self)@.iter_result(value, done),
    {
        Ok(self.perform(Op::NewIterResult(value, done)))
    }

    /// ToBoolean.
    pub fn to_boolean(&self, v: Value) -> (r: bool)
        ensures
            r == self@.truthy(v),
    {
        match v {
            Value::Undefined => false,
            Value::Null => false,
            Value::Bool(b) => b,
            Value::Num(n) => !num::is_zero(n) && !num::is_nan(n),
            Value::BigInt(n) => n != 0,
            Value::Str(s) => {
                if s < self.strings.len() as u64 {
                    assert(self@.strings[s as int] == self.strings@[s as int]@);
                    self.strings[s as usize].len() > 0
                } else {
                    false
                }
            },
            Value::Sym(_) => true,
            Value::Obj(_) => true,
        }
    }

    /// ToString, as a string handle. A string is its own.
    pub fn to_text(&mut self, v: Value) -> (r: Result<u64, Value>)
        ensures
            (final(self)@, r) == old(self)@.text(v),
    {
        match v {
            Value::Str(s) => Ok(s),
            _ => match self.value_of(Op::ToText(v))? {
                Value::Str(s) => Ok(s),
                _ => Err(Value::Undefined),
            },
        }
    }

    /// ToNumber. A Number is its own.
    pub fn to_number(&mut self, v: Value) -> (r: Result<u64, Value>)
        ensures
            (final(self)@, r) == old(self)@.number(v),
    {
        match v {
            Value::Num(n) => Ok(n),
            _ => match self.value_of(Op::ToNumber(v))? {
                Value::Num(n) => Ok(n),
                _ => Err(Value::Undefined),
            },
        }
    }

    /// ToPropertyKey. A string or a symbol is its own.
    pub fn to_key(&mut self, v: Value) -> (r: Result<Value, Value>)
        ensures
            (final(self)@, r) == old(self)@.key(v),
    {
        match v {
            Value::Str(_) => Ok(v),
            Value::Sym(_) => Ok(v),
            _ => self.value_of(Op::ToKey(v)),
        }
    }

    /// If `v` is a Proxy, its (target, handler) pair.
    pub fn proxy_pair(&mut self, v: Value) -> (r: Option<(Value, Value)>)
        ensures
            (final(self)@, r) == old(self)@.proxy(v),
    {
        if !v.is_object() {
            return None;
        }
        match self.ask_list(Op::ProxyParts(v)) {
            Ok(l) => {
                if l.len() == 2 {
                    Some((l[0], l[1]))
                } else {
                    None
                }
            },
            Err(_) => None,
        }
    }

    /// The slot of a Map or Set at a position.
    pub fn slot_at(&mut self, coll: Value, p: u64) -> (r: SlotRead)
        ensures
            (final(self)@, r) == old(self)@.slot(coll, p),
    {
        match self.ask_list(Op::SlotAt(coll, p)) {
            Ok(l) => {
                if l.len() == 2 {
                    SlotRead::Live(l[0], l[1])
                } else {
                    SlotRead::Deleted
                }
            },
            Err(_) => SlotRead::End,
        }
    }

    /// GetIterator: the iterator and its `next` method.
    pub fn get_iterator(&mut self, v: Value) -> (r: Result<(Value, Value), Value>)
        ensures
            (final(self)@, r) == old(self)@.iterator(v),
    {
        let l: Vec<Value> = self.ask_list(Op::Iterate(v))?;
        if l.len() == 2 {
            Ok((l[0], l[1]))
        } else {
            Err(Value::Undefined)
        }
    }

    /// A string value with the given code units.
    pub fn text_value(&mut self, u: Vec<u16>) -> (r: Result<Value, Value>)
        ensures
            (final(self)@, r) == old(self)@.text_value(u@),
    {
        Ok(Value::Str(self.intern(u)))
    }

    /// The code units of a string handle.
    pub fn units(&self, s: u64) -> (r: Vec<u16>)
        ensures
            r@ == self@.units(s),
    {
        if s < self.strings.len() as u64 {
            assert(self@.strings[s as int] == self.strings@[s as int]@);
            copy_units(&self.strings[s as usize])
        } else {
            let r: Vec<u16> = Vec::new();
            assert(r@ =~= Seq::<u16>::empty());
            r
        }
    }

    /// The handle of a string.
    pub fn intern(&mut self, u: Vec<u16>) -> (r: u64)
        ensures
            (final(self)@, r) == old(self)@.intern(u@),
    {
        let ghost t = self@.strings;
        let mut i: usize = 0;
        while i < self.strings.len()
            invariant
                self@ == old(self)@,
                t == self@.strings,
                t == self.strings@.map_values(|u: Vec<u16>| u@),
                i <= self.strings@.len(),
                forall|k: int| 0 <= k < i ==> t[k] != u@,
            decreases self.strings@.len() - i,
        {
            assert(t[i as int] == self.strings@[i as int]@);
            if same_units(&self.strings[i], &u) {
                proof {
                    lemma_place_from(t, u@, 0, i as int);
                }
                return i as u64;
            }
            i += 1;
        }
        proof {
            lemma_place_from(t, u@, 0, t.len() as int);
        }
        let n: usize = self.strings.len();
        let ghost units = u@;
        self.strings.push(u);
        assert(self@.strings =~= t.push(units));
        n as u64
    }
}

fn copy_values(v: &Vec<Value>) -> (r: Vec<Value>)
    ensures
        r@ == v@,
{
    let mut out: Vec<Value> = Vec::new();
    let mut i: usize = 0;
    while i < v.len()
        invariant
            i <= v@.len(),
            out@ == v@.subrange(0, i as int),
        decreases v@.len() - i,
    {
        out.push(v[i]);
        assert(v@.subrange(0, i + 1) =~= v@.subrange(0, i as int).push(v@[i as int]));
        i += 1;
    }
    assert(v@.subrange(0, i as int) =~= v@);
    out
}

fn copy_units(v: &Vec<u16>) -> (r: Vec<u16>)
    ensures
        r@ == v@,
{
    let mut out: Vec<u16> = Vec::new();
    let mut i: usize = 0;
    while i < v.len()
        invariant
            i <= v@.len(),
            out@ == v@.subrange(0, i as int),
        decreases v@.len() - i,
    {
        out.push(v[i]);
        assert(v@.subrange(0, i + 1) =~= v@.subrange(0, i as int).push(v@[i as int]));
        i += 1;
    }
    assert(v@.subrange(0, i as int) =~= v@);
    out
}

/// The argument at `n`, or undefined.
pub open spec fn arg_at(args: Seq<Value>, n: int) -> Value {
    if 0 <= n < args.len() {
        args[n]
    } else {
        Value::Undefined
    }
}

/// The argument at `n`, or undefined.
pub fn arg(args: &[Value], n: usize) -> (r: Value)
    ensures
        r == arg_at(args@, n as int),
{
    if n < args.len() {
        args[n]
    } else {
        Value::Undefined
    }
}

proof fn lemma_place_found(t: Seq<Seq<u16>>, u: Seq<u16>, i: int)
    requires
        0 <= i <= t.len(),
    ensures
        place_from(t, u, i) < t.len() ==> t[place_from(t, u, i)] == u && place_from(t, u, i) >= i,
        place_from(t, u, i) <= t.len(),
        place_from(t, u, i) == t.len() ==> forall|k: int| i <= k < t.len() ==> t[k] != u,
    decreases t.len() - i,
{
    if i < t.len() {
        lemma_place_found(t, u, i + 1);
    }
}

/// An interned string reads back, no earlier handle changes what it stands for, and a table
/// without duplicates stays without: equal strings have equal handles.
pub proof fn law_interned_strings_read_back(w: World, u: Seq<u16>, s: u64)
    requires
        w.strings.len() < u64::MAX,
    ensures
        w.intern(u).0.units(w.intern(u).1) == u,
        s < w.strings.len() ==> w.intern(u).0.units(s) == w.units(s),
        w.strings.no_duplicates() ==> w.intern(u).0.strings.no_duplicates(),
        w.intern(u).0.intern(u) == w.intern(u),
{
    lemma_place_found(w.strings, u, 0);
    let (x, _) = w.intern(u);
    lemma_place_found(x.strings, u, 0);
    if place_from(w.strings, u, 0) == w.strings.len() {
        assert(x.strings[w.strings.len() as int] == u);
        let p = place_from(x.strings, u, 0);
        if p < w.strings.len() {
            assert(x.strings[p] == w.strings[p]);
        }
    }
}

/// An answered question stays answered: more answers change nothing that was asked before them.
pub proof fn law_answers_are_stable(w: World, op: Op, list: Seq<Value>, more: Answer)
    requires
        w.asked.len() < w.answers.len(),
    ensures
        ({
            let later = World { answers: w.answers.push(more), ..w };
            &&& later.ask(op, list).1 == w.ask(op, list).1
            &&& later.ask(op, list).0 == (World {
                answers: w.answers.push(more),
                ..w.ask(op, list).0
            })
        }),
{
}

/// Once a question is open nothing more is asked.
pub proof fn law_open_question_stays_last(w: World, op: Op, list: Seq<Value>)
    requires
        w.halted(),
    ensures
        w.ask(op, list).0 == w,
{
}

} // verus!
