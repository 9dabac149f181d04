//! Property descriptors and the rules by which an own property may be redefined.
use vstd::prelude::*;
use crate::equality::{same, same_value};
use crate::interp::{ErrorKind, Interp, Key, Op, Outcome, PartialDesc, Property, Value, World};

verus! {

impl Property {
    /// An accessor holds no value and a data property no functions.
    pub open spec fn wf(self) -> bool {
        if self.accessor {
            self.value == Value::Undefined && !self.writable
        } else {
            self.get == Value::Undefined && self.set == Value::Undefined
        }
    }

    /// A data property.
    pub open spec fn data(value: Value, writable: bool, enumerable: bool, configurable: bool) -> Property {
        Property {
            value,
            get: Value::Undefined,
            set: Value::Undefined,
            accessor: false,
            writable,
            enumerable,
            configurable,
        }
    }

    /// An accessor property.
    pub open spec fn accessor_pair(get: Value, set: Value, enumerable: bool, configurable: bool) -> Property {
        Property {
            value: Value::Undefined,
            get,
            set,
            accessor: true,
            writable: false,
            enumerable,
            configurable,
        }
    }

    pub fn new_data(value: Value, writable: bool, enumerable: bool, configurable: bool) -> (r: Property)
        ensures
            r == Property::data(value, writable, enumerable, configurable),
    {
        Property {
            value,
            get: Value::Undefined,
            set: Value::Undefined,
            accessor: false,
            writable,
            enumerable,
            configurable,
        }
    }
}

pub open spec fn or_undefined(v: Option<Value>) -> Value {
    match v {
        Some(v) => v,
        None => Value::Undefined,
    }
}

pub open spec fn or_false(b: Option<bool>) -> bool {
    match b {
        Some(b) => b,
        None => false,
    }
}

fn value_or_undefined(v: Option<Value>) -> (r: Value)
    ensures
        r == or_undefined(v),
{
    match v {
        Some(v) => v,
        None => Value::Undefined,
    }
}

fn flag_or_false(b: Option<bool>) -> (r: bool)
    ensures
        r == or_false(b),
{
    match b {
        Some(b) => b,
        None => false,
    }
}

impl PartialDesc {
    pub open spec fn accessor(self) -> bool {
        self.get is Some || self.set is Some
    }

    pub open spec fn data(self) -> bool {
        self.value is Some || self.writable is Some
    }

    /// Not both an accessor and a data descriptor.
    pub open spec fn wf(self) -> bool {
        !(self.accessor() && self.data())
    }

    pub fn is_accessor(&self) -> (r: bool)
        ensures
            r == self.accessor(),
    {
        self.get.is_some() || self.set.is_some()
    }

    pub fn is_data(&self) -> (r: bool)
        ensures
            r == self.data(),
    {
        self.value.is_some() || self.writable.is_some()
    }

    /// The property that the descriptor gives where there was none.
    pub open spec fn completed(self) -> Property {
        if self.accessor() {
            Property::accessor_pair(
                or_undefined(self.get),
                or_undefined(self.set),
                or_false(self.enumerable),
                or_false(self.configurable),
            )
        } else {
            Property::data(
                or_undefined(self.value),
                or_false(self.writable),
                or_false(self.enumerable),
                or_false(self.configurable),
            )
        }
    }

    /// The descriptor asks nothing of a non-configurable property that the property is not
    /// already.
    pub open spec fn compatible(self, cur: Property) -> bool {
        &&& self.configurable != Some(true)
        &&& self.enumerable is Some ==> self.enumerable->0 == cur.enumerable
        &&& self.accessor() ==> cur.accessor
        &&& self.data() ==> !cur.accessor || self.accessor()
        &&& if cur.accessor {
            &&& self.get is Some ==> same(self.get->0, cur.get)
            &&& self.set is Some ==> same(self.set->0, cur.set)
        } else {
            !cur.writable ==> {
                &&& self.writable != Some(true)
                &&& self.value is Some ==> same(self.value->0, cur.value)
            }
        }
    }

    /// The property after the present fields are applied to it.
    pub open spec fn applied(self, cur: Property) -> Property {
        let shaped = if self.accessor() && !cur.accessor {
            Property::accessor_pair(
                Value::Undefined,
                Value::Undefined,
                cur.enumerable,
                cur.configurable,
            )
        } else if self.data() && !self.accessor() && cur.accessor {
            Property::data(Value::Undefined, false, cur.enumerable, cur.configurable)
        } else {
            cur
        };
        let filled = if shaped.accessor {
            Property {
                get: if self.get is Some {
                    self.get->0
                } else {
                    shaped.get
                },
                set: if self.set is Some {
                    self.set->0
                } else {
                    shaped.set
                },
                ..shaped
            }
        } else {
            Property {
                value: if self.value is Some {
                    self.value->0
                } else {
                    shaped.value
                },
                writable: if self.writable is Some {
                    self.writable->0
                } else {
                    shaped.writable
                },
                ..shaped
            }
        };
        Property {
            enumerable: if self.enumerable is Some {
                self.enumerable->0
            } else {
                filled.enumerable
            },
            configurable: if self.configurable is Some {
                self.configurable->0
            } else {
                filled.configurable
            },
            ..filled
        }
    }

    /// The property after a definition on an object that has `cur` and is `extensible`, or
    /// nothing where the definition is refused.
    pub open spec fn defined(self, cur: Option<Property>, extensible: bool) -> Option<Property> {
        match cur {
            None => if extensible {
                Some(self.completed())
            } else {
                None
            },
            Some(cur) => if cur.configurable || self.compatible(cur) {
                Some(self.applied(cur))
            } else {
                None
            },
        }
    }
}

/// CompletePropertyDescriptor: fill in default attributes for a partial descriptor.
pub fn complete_descriptor(pd: PartialDesc) -> (r: Property)
    ensures
        r == pd.completed(),
        r.wf(),
{
    if pd.is_accessor() {
        Property {
            value: Value::Undefined,
            get: value_or_undefined(pd.get),
            set: value_or_undefined(pd.set),
            accessor: true,
            writable: false,
            enumerable: flag_or_false(pd.enumerable),
            configurable: flag_or_false(pd.configurable),
        }
    } else {
        Property::new_data(
            value_or_undefined(pd.value),
            flag_or_false(pd.writable),
            flag_or_false(pd.enumerable),
            flag_or_false(pd.configurable),
        )
    }
}

/// Whether a non-configurable property lets the descriptor through.
pub fn is_compatible(d: PartialDesc, cur: Property) -> (r: bool)
    ensures
        r == d.compatible(cur),
{
    if let Some(c) = d.configurable {
        if c {
            return false;
        }
    }
    if let Some(e) = d.enumerable {
        if e != cur.enumerable {
            return false;
        }
    }
    if d.is_accessor() {
        if !cur.accessor {
            return false;
        }
    } else if d.is_data() && cur.accessor {
        return false;
    }
    if cur.accessor {
        if let Some(g) = d.get {
            if !same_value(g, cur.get) {
                return false;
            }
        }
        if let Some(s) = d.set {
            if !same_value(s, cur.set) {
                return false;
            }
        }
    } else if !cur.writable {
        if let Some(w) = d.writable {
            if w {
                return false;
            }
        }
        if let Some(v) = d.value {
            if !same_value(v, cur.value) {
                return false;
            }
        }
    }
    true
}

/// Applies the present fields to an existing property.
pub fn apply_descriptor(d: PartialDesc, cur: Property) -> (r: Property)
    ensures
        r == d.applied(cur),
        cur.wf() && d.wf() ==> r.wf(),
{
    let mut p = cur;
    if d.is_accessor() {
        if !cur.accessor {
            p.get = Value::Undefined;
            p.set = Value::Undefined;
            p.accessor = true;
            p.value = Value::Undefined;
            p.writable = false;
        }
        if let Some(g) = d.get {
            p.get = g;
        }
        if let Some(s) = d.set {
            p.set = s;
        }
    } else if d.is_data() || !cur.accessor {
        if cur.accessor {
            p.get = Value::Undefined;
            p.set = Value::Undefined;
            p.accessor = false;
            p.value = Value::Undefined;
            p.writable = false;
        }
        if let Some(v) = d.value {
            p.value = v;
        }
        if let Some(w) = d.writable {
            p.writable = w;
        }
    }
    if let Some(e) = d.enumerable {
        p.enumerable = e;
    }
    if let Some(c) = d.configurable {
        p.configurable = c;
    }
    p
}

/// ValidateAndApplyPropertyDescriptor.
pub fn validate_and_apply(d: PartialDesc, cur: Option<Property>, extensible: bool) -> (r: Option<
    Property,
>)
    ensures
        r == d.defined(cur, extensible),
        d.wf() && (cur matches Some(p) ==> p.wf()) ==> (r matches Some(p) ==> p.wf()),
{
    match cur {
        None => if extensible {
            Some(complete_descriptor(d))
        } else {
            None
        },
        Some(p) => if p.configurable || is_compatible(d, p) {
            Some(apply_descriptor(d, p))
        } else {
            None
        },
    }
}

/// An optional boolean field of a descriptor object.
pub open spec fn flag_field(w: World, o: Value, k: &'static str) -> Outcome<Option<bool>> {
    let (w, f) = value_field(w, o, k);
    match f {
        Err(e) => (w, Err(e)),
        Ok(None) => (w, Ok(None)),
        Ok(Some(v)) => (w, Ok(Some(w.truthy(v)))),
    }
}

/// An optional field of a descriptor object: HasProperty, then Get.
pub open spec fn value_field(w: World, o: Value, k: &'static str) -> Outcome<Option<Value>> {
    let (w, h) = w.value(Op::Has(o, Key::Name(k)), Seq::empty());
    match h {
        Err(e) => (w, Err(e)),
        Ok(h) => if h != Value::Bool(true) {
            (w, Ok(None))
        } else {
            let (w, v) = w.get(o, Key::Name(k));
            match v {
                Err(e) => (w, Err(e)),
                Ok(v) => (w, Ok(Some(v))),
            }
        },
    }
}

fn read_value_field(i: &mut Interp, o: Value, k: &'static str) -> (r: Result<Option<Value>, Value>)
    ensures
        (final(i)@, r) == value_field(old(i)@, o, k),
{
    match i.value_of(Op::Has(o, Key::Name(k)))? {
        Value::Bool(true) => {
            let v = i.get_member(o, Key::Name(k))?;
            Ok(Some(v))
        },
        _ => Ok(None),
    }
}

fn read_flag_field(i: &mut Interp, o: Value, k: &'static str) -> (r: Result<Option<bool>, Value>)
    ensures
        (final(i)@, r) == flag_field(old(i)@, o, k),
{
    match read_value_field(i, o, k)? {
        None => Ok(None),
        Some(v) => Ok(Some(i.to_boolean(v))),
    }
}

/// The fields read from a descriptor object, checked against each other.
pub open spec fn checked_fields(w: World, d: PartialDesc) -> Outcome<PartialDesc> {
    if d.accessor() && d.data() {
        w.throw(
            ErrorKind::Type,
            "Invalid property descriptor. Cannot both specify accessors and a value or writable attribute",
        )
    } else if d.get is Some && d.get->0 != Value::Undefined && !d.get->0.callable() {
        w.throw(ErrorKind::Type, "Getter must be a function")
    } else if d.set is Some && d.set->0 != Value::Undefined && !d.set->0.callable() {
        w.throw(ErrorKind::Type, "Setter must be a function")
    } else {
        (w, Ok(d))
    }
}

/// ToPropertyDescriptor: the fields in the order enumerable, configurable, value, writable, get,
/// set, each by HasProperty and Get.
pub open spec fn descriptor_read(w: World, desc: Value) -> Outcome<PartialDesc> {
    if !desc.object() {
        w.throw(ErrorKind::Type, "Property description must be an object")
    } else {
        let (w, enumerable) = flag_field(w, desc, "enumerable");
        match enumerable {
            Err(e) => (w, Err(e)),
            Ok(enumerable) => {
                let (w, configurable) = flag_field(w, desc, "configurable");
                match configurable {
                    Err(e) => (w, Err(e)),
                    Ok(configurable) => {
                        let (w, value) = value_field(w, desc, "value");
                        match value {
                            Err(e) => (w, Err(e)),
                            Ok(value) => {
                                let (w, writable) = flag_field(w, desc, "writable");
                                match writable {
                                    Err(e) => (w, Err(e)),
                                    Ok(writable) => {
                                        let (w, get) = value_field(w, desc, "get");
                                        match get {
                                            Err(e) => (w, Err(e)),
                                            Ok(get) => {
                                                let (w, set) = value_field(w, desc, "set");
                                                match set {
                                                    Err(e) => (w, Err(e)),
                                                    Ok(set) => checked_fields(
                                                        w,
                                                        PartialDesc {
                                                            value,
                                                            get,
                                                            set,
                                                            writable,
                                                            enumerable,
                                                            configurable,
                                                        },
                                                    ),
                                                }
                                            },
                                        }
                                    },
                                }
                            },
                        }
                    },
                }
            },
        }
    }
}

/// Read + validate a descriptor object into a PartialDesc (ToPropertyDescriptor).
pub fn build_partial(i: &mut Interp, desc: Value) -> (r: Result<PartialDesc, Value>)
    ensures
        (final(i)@, r) == descriptor_read(old(i)@, desc),
        r matches Ok(d) ==> d.wf(),
{
    if !desc.is_object() {
        return i.type_error("Property description must be an object");
    }
    let enumerable = read_flag_field(i, desc, "enumerable")?;
    let configurable = read_flag_field(i, desc, "configurable")?;
    let value = read_value_field(i, desc, "value")?;
    let writable = read_flag_field(i, desc, "writable")?;
    let get = read_value_field(i, desc, "get")?;
    let set = read_value_field(i, desc, "set")?;
    let d = PartialDesc { value, get, set, writable, enumerable, configurable };
    if d.is_accessor() && d.is_data() {
        return i.type_error(
            "Invalid property descriptor. Cannot both specify accessors and a value or writable attribute",
        );
    }
    if let Some(g) = get {
        if !g.is_undefined() && !g.is_callable() {
            return i.type_error("Getter must be a function");
        }
    }
    if let Some(s) = set {
        if !s.is_undefined() && !s.is_callable() {
            return i.type_error("Setter must be a function");
        }
    }
    Ok(d)
}

/// A non-configurable property keeps its attributes under every definition that is let through:
/// it stays non-configurable, keeps its enumerability and its shape, an accessor keeps both
/// functions, and a read-only value stays and stays read-only.
pub proof fn law_non_configurable_is_pinned(d: PartialDesc, cur: Property, extensible: bool)
    requires
        d.wf(),
        cur.wf(),
        !cur.configurable,
    ensures
        d.defined(Some(cur), extensible) matches Some(p) ==> {
            &&& !p.configurable
            &&& p.enumerable == cur.enumerable
            &&& p.accessor == cur.accessor
            &&& cur.accessor ==> same(p.get, cur.get) && same(p.set, cur.set)
            &&& !cur.accessor && !cur.writable ==> !p.writable && same(p.value, cur.value)
        },
{
}

/// Every present field holds of the property after a definition that is let through.
pub proof fn law_defined_fields_hold(d: PartialDesc, cur: Option<Property>, extensible: bool)
    requires
        d.wf(),
        cur matches Some(p) ==> p.wf(),
    ensures
        d.defined(cur, extensible) matches Some(p) ==> {
            &&& p.wf()
            &&& d.value is Some ==> p.value == d.value->0
            &&& d.writable is Some ==> p.writable == d.writable->0
            &&& d.get is Some ==> p.get == d.get->0
            &&& d.set is Some ==> p.set == d.set->0
            &&& d.enumerable is Some ==> p.enumerable == d.enumerable->0
            &&& d.configurable is Some ==> p.configurable == d.configurable->0
            &&& d.accessor() ==> p.accessor
            &&& d.data() ==> !p.accessor
        },
{
}

/// A definition that was let through is let through again and changes nothing more.
pub proof fn law_definition_is_idempotent(d: PartialDesc, cur: Option<Property>, extensible: bool)
    requires
        d.wf(),
        cur matches Some(p) ==> p.wf(),
        d.defined(cur, extensible) is Some,
    ensures
        d.defined(d.defined(cur, extensible), extensible) == d.defined(cur, extensible),
{
}

/// An object that is not extensible takes on no new property.
pub proof fn law_no_new_property_without_extension(d: PartialDesc)
    ensures
        d.defined(None, false) is None,
{
}

/// An empty descriptor changes nothing about an existing property.
pub proof fn law_empty_definition_changes_nothing(cur: Property, extensible: bool)
    requires
        cur.wf(),
    ensures
        (PartialDesc {
            value: None,
            get: None,
            set: None,
            writable: None,
            enumerable: None,
            configurable: None,
        }).defined(Some(cur), extensible) == Some(cur),
{
}

} // verus!
