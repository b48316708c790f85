//! A single named slot of an object: stored data, an accessor pair, or
//! both (a later-attached accessor keeps any previously stored data in
//! internal bookkeeping), with its attribute flags.
use crate::object::Object;
use crate::value::Value;
use vstd::prelude::*;

verus! {

/// The attribute flags of a property: hidden from enumeration, protected
/// from deletion, protected from overwriting.
#[derive(Clone, Copy, PartialEq, Eq, Structural, Debug)]
pub struct Attribute {
    pub dont_enum: bool,
    pub dont_delete: bool,
    pub read_only: bool,
}

impl Attribute {
    /// No flags set.
    pub fn empty() -> (r: Attribute)
        ensures
            r == (Attribute { dont_enum: false, dont_delete: false, read_only: false }),
    {
        Attribute { dont_enum: false, dont_delete: false, read_only: false }
    }

    /// Hidden from enumeration.
    pub fn dont_enum() -> (r: Attribute)
        ensures
            r == (Attribute { dont_enum: true, dont_delete: false, read_only: false }),
    {
        Attribute { dont_enum: true, dont_delete: false, read_only: false }
    }

    /// Protected from deletion.
    pub fn dont_delete() -> (r: Attribute)
        ensures
            r == (Attribute { dont_enum: false, dont_delete: true, read_only: false }),
    {
        Attribute { dont_enum: false, dont_delete: true, read_only: false }
    }

    /// Protected from overwriting.
    pub fn read_only() -> (r: Attribute)
        ensures
            r == (Attribute { dont_enum: false, dont_delete: false, read_only: true }),
    {
        Attribute { dont_enum: false, dont_delete: false, read_only: true }
    }

    /// Both flag sets combined.
    pub fn or(self, other: Attribute) -> (r: Attribute)
        ensures
            r == spec_attr_or(self, other),
    {
        Attribute {
            dont_enum: self.dont_enum || other.dont_enum,
            dont_delete: self.dont_delete || other.dont_delete,
            read_only: self.read_only || other.read_only,
        }
    }

    /// These flags with every flag of `clear` switched off and then every
    /// flag of `set` switched on.
    pub fn apply(self, set: Attribute, clear: Attribute) -> (r: Attribute)
        ensures
            r == spec_attr_apply(self, set, clear),
    {
        Attribute {
            dont_enum: (self.dont_enum && !clear.dont_enum) || set.dont_enum,
            dont_delete: (self.dont_delete && !clear.dont_delete) || set.dont_delete,
            read_only: (self.read_only && !clear.read_only) || set.read_only,
        }
    }
}

pub open spec fn spec_attr_or(a: Attribute, b: Attribute) -> Attribute {
    Attribute {
        dont_enum: a.dont_enum || b.dont_enum,
        dont_delete: a.dont_delete || b.dont_delete,
        read_only: a.read_only || b.read_only,
    }
}

pub open spec fn spec_attr_apply(a: Attribute, set: Attribute, clear: Attribute) -> Attribute {
    Attribute {
        dont_enum: (a.dont_enum && !clear.dont_enum) || set.dont_enum,
        dont_delete: (a.dont_delete && !clear.dont_delete) || set.dont_delete,
        read_only: (a.read_only && !clear.read_only) || set.read_only,
    }
}

/// One named member of an object.
#[derive(Clone, Debug)]
pub struct Property {
    data: Option<Value>,
    getter: Option<Object>,
    setter: Option<Object>,
    attributes: Attribute,
}

/// The property is a plain stored slot holding `v` with flags `a`.
pub open spec fn spec_is_stored(p: Property, v: Value, a: Attribute) -> bool {
    &&& p.spec_data() == Some(v)
    &&& p.spec_getter() is None
    &&& p.spec_setter() is None
    &&& p.spec_attributes() == a
}

/// The property is a virtual slot with the given accessors and flags,
/// holding no data.
pub open spec fn spec_is_accessor(p: Property, get: Object, set: Option<Object>, a: Attribute) -> bool {
    &&& p.spec_data() is None
    &&& p.spec_getter() == Some(get)
    &&& p.spec_setter() == set
    &&& p.spec_attributes() == a
}

/// Two properties hold the same accessors and the same data up to
/// string identity.
pub open spec fn spec_prop_like(a: Property, b: Property) -> bool {
    &&& a.spec_getter() == b.spec_getter()
    &&& a.spec_setter() == b.spec_setter()
    &&& (a.spec_data() is Some <==> b.spec_data() is Some)
    &&& (a.spec_data() is Some ==> a.spec_data()->0@ == b.spec_data()->0@)
}

impl Property {
    /// An identical property.
    pub fn duplicate(&self) -> (r: Property)
        ensures
            r.spec_data() is Some <==> self.spec_data() is Some,
            r.spec_data() is Some ==> r.spec_data()->0@ == self.spec_data()->0@,
            r.spec_getter() == self.spec_getter(),
            r.spec_setter() == self.spec_setter(),
            r.spec_attributes() == self.spec_attributes(),
    {
        Property {
            data: match &self.data {
                Some(v) => Some(v.duplicate()),
                None => None,
            },
            getter: self.getter,
            setter: self.setter,
            attributes: self.attributes,
        }
    }

    pub closed spec fn spec_data(&self) -> Option<Value> {
        self.data
    }

    pub closed spec fn spec_getter(&self) -> Option<Object> {
        self.getter
    }

    pub closed spec fn spec_setter(&self) -> Option<Object> {
        self.setter
    }

    pub closed spec fn spec_attributes(&self) -> Attribute {
        self.attributes
    }

    pub open spec fn spec_is_virtual(&self) -> bool {
        self.spec_getter() is Some
    }

    pub open spec fn spec_is_enumerable(&self) -> bool {
        !self.spec_attributes().dont_enum
    }

    pub open spec fn spec_can_delete(&self) -> bool {
        !self.spec_attributes().dont_delete
    }

    pub open spec fn spec_is_overwritable(&self) -> bool {
        !(self.spec_attributes().read_only || (self.spec_is_virtual() && self.spec_setter()
            is None))
    }

    pub fn new_stored(data: Value, attributes: Attribute) -> (r: Property)
        ensures
            r.spec_data() == Some(data),
            r.spec_getter() is None,
            r.spec_setter() is None,
            r.spec_attributes() == attributes,
    {
        Property { data: Some(data), getter: None, setter: None, attributes }
    }

    pub fn new_virtual(getter: Object, setter: Option<Object>, attributes: Attribute) -> (r:
        Property)
        ensures
            r.spec_data() is None,
            r.spec_getter() == Some(getter),
            r.spec_setter() == setter,
            r.spec_attributes() == attributes,
    {
        Property { data: None, getter: Some(getter), setter, attributes }
    }

    pub fn data(&self) -> (r: Option<&Value>)
        ensures
            match r {
                Some(v) => self.spec_data() == Some(*v),
                None => self.spec_data() is None,
            },
    {
        self.data.as_ref()
    }

    pub fn getter(&self) -> (r: Option<Object>)
        ensures
            r == self.spec_getter(),
    {
        self.getter
    }

    pub fn setter(&self) -> (r: Option<Object>)
        ensures
            r == self.spec_setter(),
    {
        self.setter
    }

    /// Store data on this property, ignoring virtual setters. Read-only
    /// properties are not affected.
    pub fn set_data(&mut self, data: Value)
        ensures
            final(self).spec_getter() == old(self).spec_getter(),
            final(self).spec_setter() == old(self).spec_setter(),
            final(self).spec_attributes() == old(self).spec_attributes(),
            final(self).spec_data() == if old(self).spec_attributes().read_only {
                old(self).spec_data()
            } else {
                Some(data)
            },
    {
        if !self.attributes.read_only {
            self.data = Some(data);
        }
    }

    /// Make this property virtual by attaching a getter and setter to it.
    pub fn set_virtual(&mut self, getter: Object, setter: Option<Object>)
        ensures
            final(self).spec_getter() == Some(getter),
            final(self).spec_setter() == setter,
            final(self).spec_data() == old(self).spec_data(),
            final(self).spec_attributes() == old(self).spec_attributes(),
    {
        self.getter = Some(getter);
        self.setter = setter;
    }

    /// Assign a value to this property. Where the slot has a virtual
    /// setter the value is not stored and the setter is handed back for
    /// the caller to invoke; otherwise the value is stored unless the slot
    /// is read-only or a getter-only virtual.
    pub fn set(&mut self, value: Value) -> (r: Option<Object>)
        ensures
            final(self).spec_getter() == old(self).spec_getter(),
            final(self).spec_setter() == old(self).spec_setter(),
            final(self).spec_attributes() == old(self).spec_attributes(),
            r == if old(self).spec_setter() is Some {
                old(self).spec_setter()
            } else {
                Option::<Object>::None
            },
            final(self).spec_data() == if old(self).spec_setter() is None
                && old(self).spec_is_overwritable() {
                Some(value)
            } else {
                old(self).spec_data()
            },
    {
        if let Some(setter) = self.setter {
            Some(setter)
        } else {
            if self.is_overwritable() {
                self.data = Some(value);
            }
            None
        }
    }

    pub fn attributes(&self) -> (r: Attribute)
        ensures
            r == self.spec_attributes(),
    {
        self.attributes
    }

    pub fn set_attributes(&mut self, attributes: Attribute)
        ensures
            final(self).spec_attributes() == attributes,
            final(self).spec_data() == old(self).spec_data(),
            final(self).spec_getter() == old(self).spec_getter(),
            final(self).spec_setter() == old(self).spec_setter(),
    {
        self.attributes = attributes;
    }

    pub fn is_enumerable(&self) -> (r: bool)
        ensures
            r == self.spec_is_enumerable(),
    {
        !self.attributes.dont_enum
    }

    pub fn can_delete(&self) -> (r: bool)
        ensures
            r == self.spec_can_delete(),
    {
        !self.attributes.dont_delete
    }

    pub fn is_overwritable(&self) -> (r: bool)
        ensures
            r == self.spec_is_overwritable(),
    {
        !(self.attributes.read_only || self.getter.is_some() && self.setter.is_none())
    }

    pub fn is_virtual(&self) -> (r: bool)
        ensures
            r == self.spec_is_virtual(),
    {
        self.getter.is_some()
    }
}

} // verus!
