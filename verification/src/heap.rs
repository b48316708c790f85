//! The object arena and the capability surface every object kind
//! answers.
//!
//! Objects form a shared, possibly cyclic graph (prototypes, scopes and
//! closures all alias), so they live in one arena and are named by
//! index; the arena only ever grows, which keeps every reference stable.
//! One concrete representation - a property table, a prototype value, an
//! interface list and a watcher table - backs every object; a closed
//! `kind` tag carries what a specialised variant adds, and the
//! capability methods dispatch on it.
use crate::error::AvmError;
use crate::object::Object;
use crate::property::{Attribute, Property};
use crate::property_map::PropertyMap;
use crate::scope::{ScopeData, ScopeRef};
use crate::value::{Value, ValueView};
use vstd::prelude::*;

verus! {

/// The execution context the interpreter hands in: the dialect version
/// that gates legacy behaviour, and the distinguished objects the
/// version-independent rules refer to.
#[derive(Clone, Copy, PartialEq, Eq, Structural, Debug)]
pub struct Context {
    pub swf_version: u8,
    pub globals: Object,
    pub object_proto: Object,
    pub function_proto: Object,
    pub array_proto: Object,
}

impl Context {
    /// Identifier resolution is case-sensitive from dialect version
    /// seven on.
    pub open spec fn spec_case_sensitive(&self) -> bool {
        self.swf_version >= 7
    }

    pub fn is_case_sensitive(&self) -> (r: bool)
        ensures
            r == self.spec_case_sensitive(),
    {
        self.swf_version >= 7
    }
}

/// A watcher: a callback invoked before every write to its property,
/// able to rewrite the written value.
#[derive(Clone, Debug)]
pub struct Watcher {
    pub callback: Object,
    pub user_data: Value,
}

impl Watcher {
    pub fn new(callback: Object, user_data: Value) -> (r: Watcher)
        ensures
            r.callback == callback,
            r.user_data@ == user_data@,
    {
        Watcher { callback, user_data }
    }

    pub fn duplicate(&self) -> (r: Watcher)
        ensures
            r.callback == self.callback,
            r.user_data@ == self.user_data@,
    {
        Watcher { callback: self.callback, user_data: self.user_data.duplicate() }
    }
}

/// The closed set of native behaviours a function object can carry.
/// Script-defined functions belong to the excluded interpreter; hosts
/// plug fixed-result and throwing behaviours in through `Constant` and
/// `Throws`.
#[derive(Clone, Debug)]
pub enum NativeFunction {
    /// Returns a fixed value.
    Constant(Value),
    /// Throws a fixed value.
    Throws(Value),
    /// The function prototype's `call`.
    FunctionCall,
    /// The function prototype's `apply`.
    FunctionApply,
    /// The function prototype's `toString`.
    FunctionToString,
    /// The `Function` constructor: returns its `this`.
    FunctionConstructor,
    /// `Function` called plainly: first argument, or a bare object.
    FunctionFunction,
}

/// Two native behaviours are the same up to string identity in any
/// value they carry.
pub open spec fn spec_native_like(a: NativeFunction, b: NativeFunction) -> bool {
    match (a, b) {
        (NativeFunction::Constant(x), NativeFunction::Constant(y)) => x@ == y@,
        (NativeFunction::Throws(x), NativeFunction::Throws(y)) => x@ == y@,
        (NativeFunction::FunctionCall, NativeFunction::FunctionCall) => true,
        (NativeFunction::FunctionApply, NativeFunction::FunctionApply) => true,
        (NativeFunction::FunctionToString, NativeFunction::FunctionToString) => true,
        (NativeFunction::FunctionConstructor, NativeFunction::FunctionConstructor) => true,
        (NativeFunction::FunctionFunction, NativeFunction::FunctionFunction) => true,
        _ => false,
    }
}

impl NativeFunction {
    /// An identical behaviour.
    pub fn duplicate(&self) -> (r: NativeFunction)
        ensures
            spec_native_like(r, *self),
    {
        match self {
            NativeFunction::Constant(v) => NativeFunction::Constant(v.duplicate()),
            NativeFunction::Throws(v) => NativeFunction::Throws(v.duplicate()),
            NativeFunction::FunctionCall => NativeFunction::FunctionCall,
            NativeFunction::FunctionApply => NativeFunction::FunctionApply,
            NativeFunction::FunctionToString => NativeFunction::FunctionToString,
            NativeFunction::FunctionConstructor => NativeFunction::FunctionConstructor,
            NativeFunction::FunctionFunction => NativeFunction::FunctionFunction,
        }
    }
}

/// The data of a `super` reference: the `this` seen throughout the
/// superchain, and how many prototype levels up the currently-executing
/// method was found.
#[derive(Clone, Copy, PartialEq, Eq, Structural, Debug)]
pub struct SuperObjectData {
    pub this_ref: Object,
    pub depth: u8,
}

/// A reference to a markup node held in the heap's node store.
#[derive(Clone, Copy, PartialEq, Eq, Structural, Debug)]
pub struct XmlNodeRef(pub usize);

/// A reference to a markup document held in the heap's document store.
#[derive(Clone, Copy, PartialEq, Eq, Structural, Debug)]
pub struct XmlDocRef(pub usize);

/// A markup node as the engine reads it: its attribute list (name to
/// text, in document order) and the script object lazily attached to it.
pub struct XmlNodeData {
    pub attributes: Vec<(String, String)>,
    pub script_object: Option<Object>,
}

/// A markup document as the engine reads it: its id-to-node map.
pub struct XmlDocData {
    pub ids: Vec<(String, XmlNodeRef)>,
}

/// What a concrete object kind adds to the shared representation.
#[derive(Clone, Debug)]
pub enum ObjectKind {
    /// A plain data-bag object.
    Plain,
    /// A boxed primitive, as numeric contexts box values.
    Boxed(Value),
    /// A callable object.
    Function(NativeFunction),
    /// A `super` proxy.
    Super(SuperObjectData),
    /// A view over a markup node's attributes.
    XmlAttributes(XmlNodeRef),
    /// A lazily-materialised map from ids to nodes of a document.
    XmlIdMap(XmlDocRef),
}

/// What `typeof` answers for an object.
#[derive(Clone, Copy, PartialEq, Eq, Structural, Debug)]
pub enum TypeTag {
    Object,
    Function,
    MovieClip,
}

/// One object: the shared representation plus its kind.
pub struct ObjectData {
    pub prototype: Value,
    pub values: PropertyMap<Property>,
    pub interfaces: Vec<Object>,
    pub type_tag: TypeTag,
    pub watchers: PropertyMap<Watcher>,
    pub kind: ObjectKind,
}

/// The arena of all objects, scope links and markup data.
pub struct Heap {
    pub objects: Vec<ObjectData>,
    pub scopes: Vec<ScopeData>,
    pub xml_nodes: Vec<XmlNodeData>,
    pub xml_docs: Vec<XmlDocData>,
}

impl Heap {
    pub open spec fn objs(&self) -> Seq<ObjectData> {
        self.objects@
    }

    pub open spec fn scope_seq(&self) -> Seq<ScopeData> {
        self.scopes@
    }

    pub open spec fn xml_node_seq(&self) -> Seq<XmlNodeData> {
        self.xml_nodes@
    }

    pub open spec fn xml_doc_seq(&self) -> Seq<XmlDocData> {
        self.xml_docs@
    }

    pub open spec fn has_obj(&self, o: Object) -> bool {
        o.0 < self.objs().len()
    }

    pub open spec fn obj(&self, o: Object) -> ObjectData {
        self.objs()[o.0 as int]
    }

    pub open spec fn has_scope(&self, s: ScopeRef) -> bool {
        s.0 < self.scope_seq().len()
    }

    pub open spec fn scope(&self, s: ScopeRef) -> ScopeData {
        self.scope_seq()[s.0 as int]
    }

    pub open spec fn spec_wf_value(&self, v: ValueView) -> bool {
        match v {
            ValueView::Object(o) => self.has_obj(o),
            _ => true,
        }
    }

    pub open spec fn spec_wf_prop(&self, p: Property) -> bool {
        &&& match p.spec_data() {
            Some(v) => self.spec_wf_value(v@),
            None => true,
        }
        &&& match p.spec_getter() {
            Some(g) => self.has_obj(g),
            None => true,
        }
        &&& match p.spec_setter() {
            Some(s) => self.has_obj(s),
            None => true,
        }
    }

    pub open spec fn spec_wf_kind(&self, kind: ObjectKind, i: int) -> bool {
        match kind {
            ObjectKind::Plain => true,
            ObjectKind::Boxed(v) => self.spec_wf_value(v@),
            ObjectKind::Function(f) => match f {
                NativeFunction::Constant(v) => self.spec_wf_value(v@),
                NativeFunction::Throws(v) => self.spec_wf_value(v@),
                _ => true,
            },
            ObjectKind::Super(s) => s.this_ref.0 < i,
            ObjectKind::XmlAttributes(n) => n.0 < self.xml_node_seq().len(),
            ObjectKind::XmlIdMap(d) => d.0 < self.xml_doc_seq().len(),
        }
    }

    pub open spec fn spec_wf_obj_at(&self, i: int) -> bool {
        let d = self.objs()[i];
        &&& self.spec_wf_value(d.prototype@)
        &&& (forall|j: int|
            0 <= j < d.values.spec_len() ==> self.spec_wf_prop(#[trigger] d.values.spec_val(j)))
        &&& (forall|j: int|
            0 <= j < d.interfaces@.len() ==> self.has_obj(#[trigger] d.interfaces@[j]))
        &&& (forall|j: int|
            0 <= j < d.watchers.spec_len() ==> self.has_obj(
                #[trigger] d.watchers.spec_val(j).callback,
            ) && self.spec_wf_value(d.watchers.spec_val(j).user_data@))
        &&& self.spec_wf_kind(d.kind, i)
    }

    pub open spec fn spec_wf_scope_at(&self, i: int) -> bool {
        let s = self.scope_seq()[i];
        &&& self.has_obj(s.values)
        &&& match s.parent {
            Some(p) => p.0 < i,
            None => true,
        }
    }

    pub open spec fn spec_wf_xml_node_at(&self, i: int) -> bool {
        let n = self.xml_node_seq()[i];
        match n.script_object {
            Some(o) => self.has_obj(o),
            None => true,
        }
    }

    pub open spec fn spec_wf_xml_doc_at(&self, i: int) -> bool {
        let d = self.xml_doc_seq()[i];
        forall|j: int| 0 <= j < d.ids@.len() ==> (#[trigger] d.ids@[j]).1.0 < self.xml_node_seq().len()
    }

    /// Every reference held anywhere in the arena points into the arena;
    /// scope parents and `super` targets point strictly backwards.
    pub open spec fn wf(&self) -> bool {
        &&& (forall|i: int| 0 <= i < self.objs().len() ==> self.spec_wf_obj_at(i))
        &&& (forall|i: int| 0 <= i < self.scope_seq().len() ==> self.spec_wf_scope_at(i))
        &&& (forall|i: int| 0 <= i < self.xml_node_seq().len() ==> self.spec_wf_xml_node_at(i))
        &&& (forall|i: int| 0 <= i < self.xml_doc_seq().len() ==> self.spec_wf_xml_doc_at(i))
    }

    /// The context's distinguished objects all exist.
    pub open spec fn spec_valid_ctx(&self, ctx: Context) -> bool {
        &&& self.has_obj(ctx.globals)
        &&& self.has_obj(ctx.object_proto)
        &&& self.has_obj(ctx.function_proto)
        &&& self.has_obj(ctx.array_proto)
    }

    /// The arena has grown from `other` without disturbing what was
    /// there: everything `other` held is still in place, only new
    /// entries may follow. (What a mutating operation changes, its own
    /// contract says; an operation that only allocates leaves the old
    /// entries exactly as they were.)
    pub open spec fn grown_from(&self, other: &Heap) -> bool {
        &&& other.objs().len() <= self.objs().len()
        &&& (forall|i: int|
            0 <= i < other.objs().len() ==> #[trigger] self.objs()[i] == other.objs()[i])
        &&& other.scope_seq().len() <= self.scope_seq().len()
        &&& (forall|i: int|
            0 <= i < other.scope_seq().len() ==> #[trigger] self.scope_seq()[i]
                == other.scope_seq()[i])
        &&& other.xml_node_seq().len() <= self.xml_node_seq().len()
        &&& other.xml_doc_seq().len() <= self.xml_doc_seq().len()
    }

    /// Like `grown_from`, but the object at `i` may have changed.
    pub open spec fn grown_except(&self, other: &Heap, i: int) -> bool {
        &&& other.objs().len() <= self.objs().len()
        &&& (forall|k: int|
            0 <= k < other.objs().len() && k != i ==> #[trigger] self.objs()[k] == other.objs()[k])
        &&& other.scope_seq().len() <= self.scope_seq().len()
        &&& (forall|k: int|
            0 <= k < other.scope_seq().len() ==> #[trigger] self.scope_seq()[k]
                == other.scope_seq()[k])
        &&& other.xml_node_seq().len() <= self.xml_node_seq().len()
        &&& other.xml_doc_seq().len() <= self.xml_doc_seq().len()
    }

    /// The arena has only grown: every old index still names something
    /// (what a writing operation changes, its own contract says).
    pub open spec fn extends(&self, other: &Heap) -> bool {
        &&& other.objs().len() <= self.objs().len()
        &&& other.scope_seq().len() <= self.scope_seq().len()
        &&& other.xml_node_seq().len() <= self.xml_node_seq().len()
        &&& other.xml_doc_seq().len() <= self.xml_doc_seq().len()
    }

    pub fn new() -> (r: Heap)
        ensures
            r.wf(),
            r.objs().len() == 0,
            r.scope_seq().len() == 0,
    {
        Heap { objects: Vec::new(), scopes: Vec::new(), xml_nodes: Vec::new(), xml_docs: Vec::new() }
    }

    pub fn num_objects(&self) -> (r: usize)
        ensures
            r == self.objs().len(),
    {
        self.objects.len()
    }

    /// Allocates an object with the given prototype value and kind.
    fn alloc_object(&mut self, prototype: Value, type_tag: TypeTag, kind: ObjectKind) -> (r: Object)
        requires
            old(self).wf(),
            old(self).spec_wf_value(prototype@),
            old(self).spec_wf_kind(kind, old(self).objs().len() as int),
        ensures
            final(self).wf(),
            final(self).grown_from(old(self)),
            final(self).objs().len() == old(self).objs().len() + 1,
            final(self).scope_seq() == old(self).scope_seq(),
            final(self).xml_node_seq() == old(self).xml_node_seq(),
            final(self).xml_doc_seq() == old(self).xml_doc_seq(),
            r.0 == old(self).objs().len(),
            final(self).has_obj(r),
            final(self).obj(r).prototype == prototype,
            final(self).obj(r).values.spec_len() == 0,
            final(self).obj(r).interfaces@.len() == 0,
            final(self).obj(r).watchers.spec_len() == 0,
            final(self).obj(r).type_tag == type_tag,
            final(self).obj(r).kind == kind,
    {
        let i = self.objects.len();
        let d = ObjectData {
            prototype,
            values: PropertyMap::new(),
            interfaces: Vec::new(),
            type_tag,
            watchers: PropertyMap::new(),
            kind,
        };
        self.objects.push(d);
        proof {
            assert(self.objs().subrange(0, old(self).objs().len() as int) =~= old(self).objs());
            assert(self.scope_seq().subrange(0, old(self).scope_seq().len() as int) =~= old(self).scope_seq());
            assert(self.xml_node_seq().subrange(0, old(self).xml_node_seq().len() as int) =~= old(self).xml_node_seq());
            assert(self.xml_doc_seq().subrange(0, old(self).xml_doc_seq().len() as int) =~= old(self).xml_doc_seq());
            assert forall|k: int| 0 <= k < self.objs().len() implies self.spec_wf_obj_at(k) by {
                if k < i {
                    assert(old(self).spec_wf_obj_at(k));
                    let dk = self.objs()[k];
                    assert(dk == old(self).objs()[k]);
                    assert forall|j: int| 0 <= j < dk.values.spec_len() implies self.spec_wf_prop(
                        #[trigger] dk.values.spec_val(j),
                    ) by {
                        assert(old(self).spec_wf_prop(dk.values.spec_val(j)));
                    };
                    assert forall|j: int| 0 <= j < dk.interfaces@.len() implies self.has_obj(
                        #[trigger] dk.interfaces@[j],
                    ) by {
                        assert(old(self).has_obj(dk.interfaces@[j]));
                    };
                    assert forall|j: int| 0 <= j < dk.watchers.spec_len() implies self.has_obj(
                        (#[trigger] dk.watchers.spec_val(j)).callback,
                    ) && self.spec_wf_value(dk.watchers.spec_val(j).user_data@) by {
                        assert(old(self).has_obj(dk.watchers.spec_val(j).callback));
                        assert(old(self).spec_wf_value(dk.watchers.spec_val(j).user_data@));
                    };
                    assert(old(self).spec_wf_kind(dk.kind, k));
                    assert(self.spec_wf_kind(dk.kind, k));
                } else {
                    assert(self.objs()[k] == d);
                    assert(self.spec_wf_kind(d.kind, k));
                }
            };
            assert forall|k: int| 0 <= k < self.scope_seq().len() implies self.spec_wf_scope_at(
                k,
            ) by {
                assert(old(self).spec_wf_scope_at(k));
            };
            assert forall|k: int|
                0 <= k < self.xml_node_seq().len() implies self.spec_wf_xml_node_at(k) by {
                assert(old(self).spec_wf_xml_node_at(k));
            };
            assert forall|k: int|
                0 <= k < self.xml_doc_seq().len() implies self.spec_wf_xml_doc_at(k) by {
                assert(old(self).spec_wf_xml_doc_at(k));
            };
        }
        Object(i)
    }

    /// A fresh ordinary object with the given prototype object, or a
    /// bare one.
    pub fn new_object(&mut self, proto: Option<Object>) -> (r: Object)
        requires
            old(self).wf(),
            match proto {
                Some(p) => old(self).has_obj(p),
                None => true,
            },
        ensures
            final(self).wf(),
            final(self).grown_from(old(self)),
            final(self).scope_seq() == old(self).scope_seq(),
            r.0 == old(self).objs().len(),
            final(self).has_obj(r),
            final(self).obj(r).prototype@ == match proto {
                Some(p) => ValueView::Object(p),
                None => ValueView::Undefined,
            },
            final(self).obj(r).values.spec_len() == 0,
            final(self).obj(r).watchers.spec_len() == 0,
            final(self).obj(r).interfaces@.len() == 0,
            final(self).obj(r).kind is Plain,
            final(self).objs() =~= old(self).objs().push(final(self).obj(r)),
    {
        let proto_value = match proto {
            Some(p) => Value::Object(p),
            None => Value::Undefined,
        };
        self.alloc_object(proto_value, TypeTag::Object, ObjectKind::Plain)
    }

    /// A fresh object with no prototype and no values: the shape scope
    /// chains use for their locals bags.
    pub fn bare_object(&mut self) -> (r: Object)
        requires
            old(self).wf(),
        ensures
            final(self).wf(),
            final(self).grown_from(old(self)),
            final(self).scope_seq() == old(self).scope_seq(),
            r.0 == old(self).objs().len(),
            final(self).has_obj(r),
            final(self).obj(r).prototype@ == ValueView::Undefined,
            final(self).obj(r).values.spec_len() == 0,
            final(self).obj(r).watchers.spec_len() == 0,
            final(self).obj(r).kind is Plain,
            final(self).objs() =~= old(self).objs().push(final(self).obj(r)),
    {
        self.new_object(None)
    }

    /// A fresh function object carrying a native behaviour.
    pub fn new_function(&mut self, exec: NativeFunction, proto: Option<Object>) -> (r: Object)
        requires
            old(self).wf(),
            match exec {
                NativeFunction::Constant(v) => old(self).spec_wf_value(v@),
                NativeFunction::Throws(v) => old(self).spec_wf_value(v@),
                _ => true,
            },
            match proto {
                Some(p) => old(self).has_obj(p),
                None => true,
            },
        ensures
            final(self).wf(),
            final(self).grown_from(old(self)),
            final(self).scope_seq() == old(self).scope_seq(),
            r.0 == old(self).objs().len(),
            final(self).has_obj(r),
            final(self).obj(r).kind == ObjectKind::Function(exec),
            final(self).obj(r).prototype@ == match proto {
                Some(p) => ValueView::Object(p),
                None => ValueView::Undefined,
            },
            final(self).obj(r).values.spec_len() == 0,
            final(self).obj(r).watchers.spec_len() == 0,
            final(self).objs() =~= old(self).objs().push(final(self).obj(r)),
    {
        let proto_value = match proto {
            Some(p) => Value::Object(p),
            None => Value::Undefined,
        };
        self.alloc_object(proto_value, TypeTag::Function, ObjectKind::Function(exec))
    }

    /// A fresh boxed primitive.
    pub fn new_boxed(&mut self, value: Value, proto: Option<Object>) -> (r: Object)
        requires
            old(self).wf(),
            old(self).spec_wf_value(value@),
            match proto {
                Some(p) => old(self).has_obj(p),
                None => true,
            },
        ensures
            final(self).wf(),
            final(self).grown_from(old(self)),
            final(self).scope_seq() == old(self).scope_seq(),
            r.0 == old(self).objs().len(),
            final(self).has_obj(r),
            final(self).obj(r).kind == ObjectKind::Boxed(value),
            final(self).obj(r).values.spec_len() == 0,
            final(self).obj(r).watchers.spec_len() == 0,
            final(self).objs() =~= old(self).objs().push(final(self).obj(r)),
    {
        let proto_value = match proto {
            Some(p) => Value::Object(p),
            None => Value::Undefined,
        };
        self.alloc_object(proto_value, TypeTag::Object, ObjectKind::Boxed(value))
    }

    /// Everything but the object at `i` is as it was, and the whole heap
    /// is well-formed again, provided the changed object is.
    proof fn lemma_wf_after_update(pre: &Heap, post: &Heap, i: int)
        requires
            pre.wf(),
            0 <= i < pre.objs().len(),
            post.objs() == pre.objs().update(i, post.objs()[i]),
            post.scope_seq() == pre.scope_seq(),
            post.xml_node_seq() == pre.xml_node_seq(),
            post.xml_doc_seq() == pre.xml_doc_seq(),
            post.spec_wf_obj_at(i),
        ensures
            post.wf(),
            post.grown_except(pre, i),
    {
        assert forall|k: int| 0 <= k < post.objs().len() implies post.spec_wf_obj_at(k) by {
            if k != i {
                assert(pre.spec_wf_obj_at(k));
                let dk = post.objs()[k];
                assert(dk == pre.objs()[k]);
                assert forall|j: int| 0 <= j < dk.values.spec_len() implies post.spec_wf_prop(
                    #[trigger] dk.values.spec_val(j),
                ) by {
                    assert(pre.spec_wf_prop(dk.values.spec_val(j)));
                };
                assert forall|j: int| 0 <= j < dk.interfaces@.len() implies post.has_obj(
                    #[trigger] dk.interfaces@[j],
                ) by {
                    assert(pre.has_obj(dk.interfaces@[j]));
                };
                assert forall|j: int| 0 <= j < dk.watchers.spec_len() implies post.has_obj(
                    (#[trigger] dk.watchers.spec_val(j)).callback,
                ) && post.spec_wf_value(dk.watchers.spec_val(j).user_data@) by {
                    assert(pre.has_obj(dk.watchers.spec_val(j).callback));
                    assert(pre.spec_wf_value(dk.watchers.spec_val(j).user_data@));
                };
                assert(pre.spec_wf_kind(dk.kind, k));
                assert(post.spec_wf_kind(dk.kind, k));
            }
        };
        assert forall|k: int| 0 <= k < post.scope_seq().len() implies post.spec_wf_scope_at(k) by {
            assert(pre.spec_wf_scope_at(k));
        };
        assert forall|k: int| 0 <= k < post.xml_node_seq().len() implies post.spec_wf_xml_node_at(
            k,
        ) by {
            assert(pre.spec_wf_xml_node_at(k));
        };
        assert forall|k: int| 0 <= k < post.xml_doc_seq().len() implies post.spec_wf_xml_doc_at(
            k,
        ) by {
            assert(pre.spec_wf_xml_doc_at(k));
        };
        assert(post.scope_seq().subrange(0, pre.scope_seq().len() as int) =~= pre.scope_seq());
    }

    /// The object's property wf carried over except at one table slot.
    proof fn lemma_values_wf_carry(pre: &Heap, post: &Heap, i: int, changed: int, p: Property)
        requires
            pre.wf(),
            0 <= i < pre.objs().len(),
            post.objs()[i].values.spec_len() <= pre.objs()[i].values.spec_len() + 1,
            post.objs()[i].values.spec_len() == pre.objs()[i].values.spec_len() + 1 ==> changed
                == pre.objs()[i].values.spec_len(),
            forall|j: int|
                0 <= j < post.objs()[i].values.spec_len() && j != changed
                    ==> #[trigger] post.objs()[i].values.spec_val(j) == pre.objs()[i].values.spec_val(
                    j,
                ),
            0 <= changed < post.objs()[i].values.spec_len() ==> post.objs()[i].values.spec_val(
                changed,
            ) == p,
            post.spec_wf_prop(p),
            post.objs().len() >= pre.objs().len(),
            post.xml_node_seq().len() >= pre.xml_node_seq().len(),
            post.xml_doc_seq().len() >= pre.xml_doc_seq().len(),
        ensures
            forall|j: int|
                0 <= j < post.objs()[i].values.spec_len() ==> post.spec_wf_prop(
                    #[trigger] post.objs()[i].values.spec_val(j),
                ),
    {
        assert forall|j: int| 0 <= j < post.objs()[i].values.spec_len() implies post.spec_wf_prop(
            #[trigger] post.objs()[i].values.spec_val(j),
        ) by {
            if j != changed {
                assert(pre.spec_wf_obj_at(i));
                assert(pre.spec_wf_prop(pre.objs()[i].values.spec_val(j)));
            }
        };
    }

    /// The whole object at `i` is well-formed again, given its table
    /// properties are and everything else is as it was.
    proof fn lemma_obj_wf_values_changed(pre: &Heap, post: &Heap, i: int)
        requires
            pre.wf(),
            0 <= i < pre.objs().len(),
            i < post.objs().len(),
            post.objs().len() >= pre.objs().len(),
            post.xml_node_seq().len() >= pre.xml_node_seq().len(),
            post.xml_doc_seq().len() >= pre.xml_doc_seq().len(),
            post.objs()[i].prototype == pre.objs()[i].prototype,
            post.objs()[i].interfaces == pre.objs()[i].interfaces,
            post.objs()[i].watchers == pre.objs()[i].watchers,
            post.objs()[i].kind == pre.objs()[i].kind,
            forall|j: int|
                0 <= j < post.objs()[i].values.spec_len() ==> post.spec_wf_prop(
                    #[trigger] post.objs()[i].values.spec_val(j),
                ),
        ensures
            post.spec_wf_obj_at(i),
    {
        let d = post.objs()[i];
        assert(pre.spec_wf_obj_at(i));
        assert forall|j: int| 0 <= j < d.interfaces@.len() implies post.has_obj(
            #[trigger] d.interfaces@[j],
        ) by {
            assert(pre.has_obj(pre.objs()[i].interfaces@[j]));
        };
        assert forall|j: int| 0 <= j < d.watchers.spec_len() implies post.has_obj(
            (#[trigger] d.watchers.spec_val(j)).callback,
        ) && post.spec_wf_value(d.watchers.spec_val(j).user_data@) by {
            assert(pre.has_obj(pre.objs()[i].watchers.spec_val(j).callback));
            assert(pre.spec_wf_value(pre.objs()[i].watchers.spec_val(j).user_data@));
        };
        assert(pre.spec_wf_kind(pre.objs()[i].kind, i));
        assert(post.spec_wf_kind(d.kind, i));
    }

    /// The whole object at `i` is well-formed again, given its watcher
    /// table entries are and everything else is as it was.
    proof fn lemma_obj_wf_watchers_changed(pre: &Heap, post: &Heap, i: int)
        requires
            pre.wf(),
            0 <= i < pre.objs().len(),
            i < post.objs().len(),
            post.objs().len() >= pre.objs().len(),
            post.xml_node_seq().len() >= pre.xml_node_seq().len(),
            post.xml_doc_seq().len() >= pre.xml_doc_seq().len(),
            post.objs()[i].prototype == pre.objs()[i].prototype,
            post.objs()[i].interfaces == pre.objs()[i].interfaces,
            post.objs()[i].values == pre.objs()[i].values,
            post.objs()[i].kind == pre.objs()[i].kind,
            forall|j: int|
                0 <= j < post.objs()[i].watchers.spec_len() ==> post.has_obj(
                    (#[trigger] post.objs()[i].watchers.spec_val(j)).callback,
                ) && post.spec_wf_value(post.objs()[i].watchers.spec_val(j).user_data@),
        ensures
            post.spec_wf_obj_at(i),
    {
        let d = post.objs()[i];
        assert(pre.spec_wf_obj_at(i));
        assert forall|j: int| 0 <= j < d.interfaces@.len() implies post.has_obj(
            #[trigger] d.interfaces@[j],
        ) by {
            assert(pre.has_obj(pre.objs()[i].interfaces@[j]));
        };
        assert forall|j: int| 0 <= j < d.values.spec_len() implies post.spec_wf_prop(
            #[trigger] d.values.spec_val(j),
        ) by {
            assert(pre.spec_wf_prop(pre.objs()[i].values.spec_val(j)));
        };
        assert(pre.spec_wf_kind(pre.objs()[i].kind, i));
        assert(post.spec_wf_kind(d.kind, i));
    }

    /// An untouched heap trivially satisfies the table-operation frame.
    proof fn lemma_values_op_refl(h: &Heap, o: Object)
        requires
            h.wf(),
            h.has_obj(o),
        ensures
            h.spec_values_op(h, o),
    {
    }

    /// Takes the object at `o` out of the arena for mutation; private
    /// plumbing, always paired with `put_obj` at the same index.
    fn take_obj(&mut self, o: Object) -> (r: ObjectData)
        requires
            old(self).has_obj(o),
        ensures
            r == old(self).obj(o),
            final(self).objs() == old(self).objs().remove(o.0 as int),
            final(self).scope_seq() == old(self).scope_seq(),
            final(self).xml_node_seq() == old(self).xml_node_seq(),
            final(self).xml_doc_seq() == old(self).xml_doc_seq(),
    {
        self.objects.remove(o.0)
    }

    /// Puts a (possibly changed) object back at its index.
    fn put_obj(&mut self, o: Object, d: ObjectData)
        requires
            o.0 <= old(self).objs().len(),
        ensures
            final(self).objs() == old(self).objs().insert(o.0 as int, d),
            final(self).scope_seq() == old(self).scope_seq(),
            final(self).xml_node_seq() == old(self).xml_node_seq(),
            final(self).xml_doc_seq() == old(self).xml_doc_seq(),
    {
        self.objects.insert(o.0, d);
    }

    /// A fresh `super` proxy for a stack frame whose `this` is the given
    /// object and whose method was found `depth` prototype levels up.
    pub fn new_super(&mut self, this_ref: Object, depth: u8) -> (r: Object)
        requires
            old(self).wf(),
            old(self).has_obj(this_ref),
        ensures
            final(self).wf(),
            final(self).grown_from(old(self)),
            final(self).scope_seq() == old(self).scope_seq(),
            r.0 == old(self).objs().len(),
            final(self).has_obj(r),
            final(self).obj(r).kind == ObjectKind::Super(SuperObjectData { this_ref, depth }),
            final(self).objs() =~= old(self).objs().push(final(self).obj(r)),
    {
        self.alloc_object(
            Value::Undefined,
            TypeTag::Object,
            ObjectKind::Super(SuperObjectData { this_ref, depth }),
        )
    }

    /// Stores a markup node (its attribute list, in document order) and
    /// hands back its reference.
    pub fn new_xml_node(&mut self, attributes: Vec<(String, String)>) -> (r: XmlNodeRef)
        requires
            old(self).wf(),
        ensures
            final(self).wf(),
            final(self).extends(old(self)),
            final(self).objs() == old(self).objs(),
            final(self).scope_seq() == old(self).scope_seq(),
            r.0 < final(self).xml_node_seq().len(),
            final(self).xml_node_seq()[r.0 as int].attributes@ == attributes@,
            final(self).xml_node_seq()[r.0 as int].script_object is None,
    {
        let i = self.xml_nodes.len();
        self.xml_nodes.push(XmlNodeData { attributes, script_object: None });
        proof {
            Self::lemma_wf_after_host_push(old(self), self);
            assert forall|k: int|
                0 <= k < self.xml_node_seq().len() implies self.spec_wf_xml_node_at(k) by {
                if k < i {
                    assert(old(self).spec_wf_xml_node_at(k));
                }
            };
            assert forall|k: int|
                0 <= k < self.xml_doc_seq().len() implies self.spec_wf_xml_doc_at(k) by {
                assert(old(self).spec_wf_xml_doc_at(k));
                assert forall|j: int|
                    0 <= j < self.xml_doc_seq()[k].ids@.len() implies (
                #[trigger] self.xml_doc_seq()[k].ids@[j]).1.0 < self.xml_node_seq().len() by {
                    assert(old(self).xml_doc_seq()[k].ids@[j].1.0 < old(self).xml_node_seq().len());
                };
            };
        }
        XmlNodeRef(i)
    }

    /// Stores a markup document (its id-to-node map) and hands back its
    /// reference.
    pub fn new_xml_document(&mut self, ids: Vec<(String, XmlNodeRef)>) -> (r: XmlDocRef)
        requires
            old(self).wf(),
            forall|j: int|
                0 <= j < ids@.len() ==> (#[trigger] ids@[j]).1.0 < old(self).xml_node_seq().len(),
        ensures
            final(self).wf(),
            final(self).extends(old(self)),
            final(self).objs() == old(self).objs(),
            final(self).scope_seq() == old(self).scope_seq(),
            r.0 < final(self).xml_doc_seq().len(),
            final(self).xml_doc_seq()[r.0 as int].ids@ == ids@,
    {
        let i = self.xml_docs.len();
        let ghost gids = ids@;
        self.xml_docs.push(XmlDocData { ids });
        proof {
            Self::lemma_wf_after_host_push(old(self), self);
            assert forall|k: int|
                0 <= k < self.xml_node_seq().len() implies self.spec_wf_xml_node_at(k) by {
                assert(old(self).spec_wf_xml_node_at(k));
            };
            assert forall|k: int|
                0 <= k < self.xml_doc_seq().len() implies self.spec_wf_xml_doc_at(k) by {
                if k < i {
                    assert(old(self).spec_wf_xml_doc_at(k));
                    assert forall|j: int|
                        0 <= j < self.xml_doc_seq()[k].ids@.len() implies (
                    #[trigger] self.xml_doc_seq()[k].ids@[j]).1.0 < self.xml_node_seq().len() by {
                        assert(old(self).xml_doc_seq()[k].ids@[j].1.0 < old(self).xml_node_seq().len());
                    };
                } else {
                    assert(self.xml_doc_seq()[k].ids@ == gids);
                    assert forall|j: int|
                        0 <= j < gids.len() implies (#[trigger] gids[j]).1.0
                        < self.xml_node_seq().len() by {
                        assert(gids[j].1.0 < old(self).xml_node_seq().len());
                    };
                }
            };
        }
        XmlDocRef(i)
    }

    /// Everything but the two markup arenas is untouched, so the object
    /// and scope conditions carry over; the caller shows the markup
    /// conditions.
    proof fn lemma_wf_after_host_push(pre: &Heap, post: &Heap)
        requires
            pre.wf(),
            post.objs() == pre.objs(),
            post.scope_seq() == pre.scope_seq(),
            pre.xml_node_seq().len() <= post.xml_node_seq().len(),
            pre.xml_doc_seq().len() <= post.xml_doc_seq().len(),
            forall|k: int|
                0 <= k < pre.xml_node_seq().len() ==> #[trigger] post.xml_node_seq()[k]
                    == pre.xml_node_seq()[k],
            forall|k: int|
                0 <= k < pre.xml_doc_seq().len() ==> #[trigger] post.xml_doc_seq()[k]
                    == pre.xml_doc_seq()[k],
        ensures
            forall|k: int| 0 <= k < post.objs().len() ==> post.spec_wf_obj_at(k),
            forall|k: int| 0 <= k < post.scope_seq().len() ==> post.spec_wf_scope_at(k),
    {
        assert forall|k: int| 0 <= k < post.objs().len() implies post.spec_wf_obj_at(k) by {
            assert(pre.spec_wf_obj_at(k));
            let dk = post.objs()[k];
            assert forall|j: int| 0 <= j < dk.values.spec_len() implies post.spec_wf_prop(
                #[trigger] dk.values.spec_val(j),
            ) by {
                assert(pre.spec_wf_prop(dk.values.spec_val(j)));
            };
            assert forall|j: int| 0 <= j < dk.interfaces@.len() implies post.has_obj(
                #[trigger] dk.interfaces@[j],
            ) by {
                assert(pre.has_obj(dk.interfaces@[j]));
            };
            assert forall|j: int| 0 <= j < dk.watchers.spec_len() implies post.has_obj(
                (#[trigger] dk.watchers.spec_val(j)).callback,
            ) && post.spec_wf_value(dk.watchers.spec_val(j).user_data@) by {
                assert(pre.has_obj(dk.watchers.spec_val(j).callback));
                assert(pre.spec_wf_value(dk.watchers.spec_val(j).user_data@));
            };
            assert(pre.spec_wf_kind(dk.kind, k));
            assert(post.spec_wf_kind(dk.kind, k));
        };
        assert forall|k: int| 0 <= k < post.scope_seq().len() implies post.spec_wf_scope_at(k) by {
            assert(pre.spec_wf_scope_at(k));
        };
    }

    /// An object view over a markup node's attributes: reads and writes
    /// go to the node's attribute table instead of a property table.
    pub fn from_xml_node(&mut self, node: XmlNodeRef) -> (r: Object)
        requires
            old(self).wf(),
            node.0 < old(self).xml_node_seq().len(),
        ensures
            final(self).wf(),
            final(self).grown_from(old(self)),
            final(self).has_obj(r),
            final(self).obj(r).kind == ObjectKind::XmlAttributes(node),
    {
        self.alloc_object(Value::Undefined, TypeTag::Object, ObjectKind::XmlAttributes(node))
    }

    /// An object view over a document's id map: ids resolve to their
    /// nodes' lazily-materialised script objects.
    pub fn from_xml_document(&mut self, doc: XmlDocRef) -> (r: Object)
        requires
            old(self).wf(),
            doc.0 < old(self).xml_doc_seq().len(),
        ensures
            final(self).wf(),
            final(self).grown_from(old(self)),
            final(self).has_obj(r),
            final(self).obj(r).kind == ObjectKind::XmlIdMap(doc),
    {
        self.alloc_object(Value::Undefined, TypeTag::Object, ObjectKind::XmlIdMap(doc))
    }

    // -----------------------------------------------------------------
    // Property table operations that never run script.
    // -----------------------------------------------------------------
    /// The object's data as every field of the old one but the property
    /// table.
    pub open spec fn spec_same_but_values(pre: ObjectData, post: ObjectData) -> bool {
        &&& post.prototype == pre.prototype
        &&& post.interfaces == pre.interfaces
        &&& post.type_tag == pre.type_tag
        &&& post.watchers == pre.watchers
        &&& post.kind == pre.kind
    }

    /// The heap after a change to one object's property table alone.
    pub open spec fn spec_values_op(&self, pre: &Heap, o: Object) -> bool {
        &&& self.wf()
        &&& self.objs().len() == pre.objs().len()
        &&& self.grown_except(pre, o.0 as int)
        &&& Self::spec_same_but_values(pre.obj(o), self.obj(o))
    }

    /// Writes a property into the table, with the given lookup case
    /// sensitivity; private plumbing shared by the definition methods.
    fn values_insert(&mut self, o: Object, name: &str, p: Property, case_sensitive: bool)
        requires
            old(self).wf(),
            old(self).has_obj(o),
            old(self).spec_wf_prop(p),
        ensures
            final(self).spec_values_op(old(self), o),
            crate::property_map::spec_inserted(
                old(self).obj(o).values,
                final(self).obj(o).values,
                name@,
                case_sensitive,
                p,
            ),
    {
        let ghost gp = p;
        let ghost changed: int = if old(self).obj(o).values.spec_find(
            name@,
            case_sensitive,
        ) >= 0 {
            old(self).obj(o).values.spec_find(name@, case_sensitive)
        } else {
            old(self).obj(o).values.spec_len() as int
        };
        let mut d = self.take_obj(o);
        d.values.insert(name, p, case_sensitive);
        let ghost gd = d;
        self.put_obj(o, d);
        proof {
            assert(self.objs() =~= old(self).objs().update(o.0 as int, gd));
            assert(self.obj(o) == gd);
            assert(old(self).spec_wf_obj_at(o.0 as int));
            let t = old(self).obj(o).values;
            let nt = self.obj(o).values;
            let fi = t.spec_find(name@, case_sensitive);
            assert(crate::property_map::spec_inserted(t, nt, name@, case_sensitive, gp));
            crate::property_map::lemma_inserted_frame(t, nt, name@, case_sensitive, gp);
            assert forall|j: int| 0 <= j < nt.spec_len() && j != changed implies #[trigger] nt.spec_val(
                j,
            ) == t.spec_val(j) by {
                assert(nt.spec_entries()[j] == t.spec_entries()[j]);
            };
            assert(self.spec_wf_prop(gp));
            Self::lemma_values_wf_carry(old(self), self, o.0 as int, changed, gp);
            Self::lemma_obj_wf_values_changed(old(self), self, o.0 as int);
            Self::lemma_wf_after_update(old(self), self, o.0 as int);
        }
    }

    /// Define a value on the object, replacing any existing slot of the
    /// name outright: no setter runs, the slot becomes plain stored
    /// data with the given flags. The definition lookup is always
    /// case-sensitive.
    pub fn define_value(&mut self, o: Object, name: &str, value: Value, attributes: Attribute)
        requires
            old(self).wf(),
            old(self).has_obj(o),
            old(self).spec_wf_value(value@),
        ensures
            final(self).spec_values_op(old(self), o),
            old(self).obj(o).kind is Super ==> *final(self) == *old(self),
            !(old(self).obj(o).kind is Super) ==> (exists|p: Property|
                crate::property::spec_is_stored(p, value, attributes)
                    && crate::property_map::spec_inserted(
                    old(self).obj(o).values,
                    final(self).obj(o).values,
                    name@,
                    true,
                    p,
                )) && final(self).spec_get_data(o, name@, true) == value@,
    {
        if matches!(&self.objects[o.0].kind, ObjectKind::Super(_)) {
            // values cannot be defined on a `super` proxy
            proof {
                Self::lemma_values_op_refl(self, o);
            }
            return ;
        }
        let p = Property::new_stored(value, attributes);
        let ghost gp = p;
        self.values_insert(o, name, p, true);
        proof {
            assert(crate::property::spec_is_stored(gp, value, attributes));
            crate::property_map::lemma_find_after_insert(
                old(self).obj(o).values,
                self.obj(o).values,
                name@,
                true,
                gp,
            );
        }
    }

    /// The value a side-effect-free data read of the name gives: the
    /// stored data of the table slot the lookup resolves to, `undefined`
    /// where there is none or the slot is virtual.
    pub open spec fn spec_get_data(&self, o: Object, name: Seq<char>, case_sensitive: bool) -> ValueView {
        let t = self.obj(o).values;
        let i = t.spec_find(name, case_sensitive);
        if i >= 0 && !t.spec_val(i).spec_is_virtual() && t.spec_val(i).spec_data() is Some {
            t.spec_val(i).spec_data()->0@
        } else {
            ValueView::Undefined
        }
    }

    /// Reads the stored data of a property on this object alone: no
    /// prototype walk, no getter, no side effect.
    pub fn get_data(&self, o: Object, name: &str, ctx: &Context) -> (r: Value)
        requires
            self.wf(),
            self.has_obj(o),
        ensures
            r@ == self.spec_get_data(o, name@, ctx.spec_case_sensitive()),
            self.spec_wf_value(r@),
    {
        let cs = ctx.is_case_sensitive();
        proof {
            assert(self.spec_wf_obj_at(o.0 as int));
        }
        match self.objects[o.0].values.find(name, cs) {
            Some(i) => {
                let p = self.objects[o.0].values.val_at(i);
                proof {
                    assert(self.spec_wf_prop(self.obj(o).values.spec_val(i as int)));
                }
                if !p.is_virtual() {
                    match p.data() {
                        Some(v) => v.duplicate(),
                        None => Value::Undefined,
                    }
                } else {
                    Value::Undefined
                }
            },
            None => Value::Undefined,
        }
    }

    /// Sets a data property on this object alone: the slot the lookup
    /// resolves to is written through `Property::set` with its setter
    /// ignored, or a fresh unflagged stored slot is appended.
    pub fn set_data(&mut self, o: Object, name: &str, value: Value, ctx: &Context)
        requires
            old(self).wf(),
            old(self).has_obj(o),
            old(self).spec_wf_value(value@),
        ensures
            final(self).spec_values_op(old(self), o),
            ({
                let t = old(self).obj(o).values;
                let nt = final(self).obj(o).values;
                let i = t.spec_find(name@, ctx.spec_case_sensitive());
                if i >= 0 {
                    nt.spec_len() == t.spec_len() && (forall|j: int|
                        0 <= j < t.spec_len() && j != i ==> nt.spec_entries()[j]
                            == t.spec_entries()[j]) && nt.spec_key(i) == t.spec_key(i)
                        && nt.spec_val(i).spec_getter() == t.spec_val(i).spec_getter()
                        && nt.spec_val(i).spec_setter() == t.spec_val(i).spec_setter()
                        && nt.spec_val(i).spec_attributes() == t.spec_val(i).spec_attributes()
                        && (if t.spec_val(i).spec_setter() is None && t.spec_val(
                        i,
                    ).spec_is_overwritable() {
                        nt.spec_val(i).spec_data() == Some(value)
                    } else {
                        crate::property::spec_prop_like(nt.spec_val(i), t.spec_val(i))
                    })
                } else {
                    nt.spec_len() == t.spec_len() + 1 && nt.spec_entries().subrange(
                        0,
                        t.spec_len() as int,
                    ) == t.spec_entries() && nt.spec_key(t.spec_len() as int) == name@
                        && crate::property::spec_is_stored(
                        nt.spec_val(t.spec_len() as int),
                        value,
                        Attribute { dont_enum: false, dont_delete: false, read_only: false },
                    )
                }
            }),
    {
        let cs = ctx.is_case_sensitive();
        let found = self.objects[o.0].values.find(name, cs);
        match found {
            Some(i) => {
                let mut d = self.take_obj(o);
                let mut p = d.values.val_at(i).duplicate();
                let _ = p.set(value);
                let ghost gp = p;
                d.values.set_val_at(i, p);
                let ghost gd = d;
        self.put_obj(o, d);
                proof {
                    assert(self.objs() =~= old(self).objs().update(o.0 as int, gd));
                    assert(self.obj(o) == gd);
                    assert(old(self).spec_wf_obj_at(o.0 as int));
                    assert(old(self).spec_wf_prop(old(self).obj(o).values.spec_val(i as int)));
                    assert(self.spec_wf_prop(gp));
                    let t = old(self).obj(o).values;
                    let nt = self.obj(o).values;
                    assert forall|j: int|
                        0 <= j < t.spec_len() && j != i as int implies #[trigger] nt.spec_entries()[j]
                        == t.spec_entries()[j] by {
                        assert(t.spec_entries().update(
                            i as int,
                            (t.spec_entries()[i as int].0, gp),
                        )[j] == t.spec_entries()[j]);
                    };
                    assert(nt.spec_entries()[i as int] == (t.spec_entries()[i as int].0, gp));
                    assert(nt.spec_len() == t.spec_len());
                    Self::lemma_values_wf_carry(old(self), self, o.0 as int, i as int, gp);
                    Self::lemma_obj_wf_values_changed(old(self), self, o.0 as int);
                    Self::lemma_wf_after_update(old(self), self, o.0 as int);
                }
            },
            None => {
                let p = Property::new_stored(value, Attribute::empty());
                let ghost gp = p;
                self.values_insert(o, name, p, cs);
                proof {
                    assert(crate::property::spec_is_stored(
                        gp,
                        value,
                        Attribute { dont_enum: false, dont_delete: false, read_only: false },
                    ));
                    crate::property_map::lemma_inserted_frame(
                        old(self).obj(o).values,
                        self.obj(o).values,
                        name@,
                        cs,
                        gp,
                    );
                }
            },
        }
    }

    /// Defines a virtual (accessor) slot, replacing any slot of the
    /// name; the definition lookup is case-insensitive, as the earliest
    /// dialect defined it.
    pub fn add_property(
        &mut self,
        o: Object,
        name: &str,
        get: Object,
        set: Option<Object>,
        attributes: Attribute,
    )
        requires
            old(self).wf(),
            old(self).has_obj(o),
            old(self).has_obj(get),
            match set {
                Some(s) => old(self).has_obj(s),
                None => true,
            },
        ensures
            final(self).spec_values_op(old(self), o),
            old(self).obj(o).kind is Super ==> *final(self) == *old(self),
            !(old(self).obj(o).kind is Super) ==> exists|p: Property|
                crate::property::spec_is_accessor(p, get, set, attributes)
                    && crate::property_map::spec_inserted(
                    old(self).obj(o).values,
                    final(self).obj(o).values,
                    name@,
                    false,
                    p,
                ),
    {
        if matches!(&self.objects[o.0].kind, ObjectKind::Super(_)) {
            // accessors cannot be defined on a `super` proxy
            proof {
                Self::lemma_values_op_refl(self, o);
            }
            return ;
        }
        let p = Property::new_virtual(get, set, attributes);
        proof {
            assert(crate::property::spec_is_accessor(p, get, set, attributes));
        }
        self.values_insert(o, name, p, false);
    }

    /// Defines a virtual slot with the context's case sensitivity.
    pub fn add_property_with_case(
        &mut self,
        o: Object,
        name: &str,
        get: Object,
        set: Option<Object>,
        attributes: Attribute,
        ctx: &Context,
    )
        requires
            old(self).wf(),
            old(self).has_obj(o),
            old(self).has_obj(get),
            match set {
                Some(s) => old(self).has_obj(s),
                None => true,
            },
        ensures
            final(self).spec_values_op(old(self), o),
            old(self).obj(o).kind is Super ==> *final(self) == *old(self),
            !(old(self).obj(o).kind is Super) ==> exists|p: Property|
                crate::property::spec_is_accessor(p, get, set, attributes)
                    && crate::property_map::spec_inserted(
                    old(self).obj(o).values,
                    final(self).obj(o).values,
                    name@,
                    ctx.spec_case_sensitive(),
                    p,
                ),
    {
        if matches!(&self.objects[o.0].kind, ObjectKind::Super(_)) {
            // accessors cannot be defined on a `super` proxy
            proof {
                Self::lemma_values_op_refl(self, o);
            }
            return ;
        }
        let p = Property::new_virtual(get, set, attributes);
        proof {
            assert(crate::property::spec_is_accessor(p, get, set, attributes));
        }
        self.values_insert(o, name, p, ctx.is_case_sensitive());
    }

    /// Deletes the property the lookup resolves to, unless its
    /// cannot-delete flag is set; reports whether anything was removed.
    pub fn delete(&mut self, o: Object, name: &str, ctx: &Context) -> (r: bool)
        requires
            old(self).wf(),
            old(self).has_obj(o),
        ensures
            final(self).spec_values_op(old(self), o),
            old(self).obj(o).kind is Super ==> !r && *final(self) == *old(self),
            !(old(self).obj(o).kind is Super) ==> ({
                let t = old(self).obj(o).values;
                let i = t.spec_find(name@, ctx.spec_case_sensitive());
                if i >= 0 && t.spec_val(i).spec_can_delete() {
                    r && final(self).obj(o).values.spec_entries() == t.spec_entries().remove(i)
                } else {
                    !r && final(self).obj(o).values.spec_entries() == t.spec_entries()
                }
            }),
    {
        if matches!(&self.objects[o.0].kind, ObjectKind::Super(_)) {
            // nothing can be deleted through a `super` proxy
            proof {
                Self::lemma_values_op_refl(self, o);
            }
            return false;
        }
        let cs = ctx.is_case_sensitive();
        let found = self.objects[o.0].values.find(name, cs);
        match found {
            Some(i) => {
                let can = self.objects[o.0].values.val_at(i).can_delete();
                if can {
                    let mut d = self.take_obj(o);
                    let _ = d.values.remove(name, cs);
                    let ghost gd = d;
        self.put_obj(o, d);
                    proof {
                        assert(self.objs() =~= old(self).objs().update(o.0 as int, gd));
                        assert(self.obj(o) == gd);
                        let t = old(self).obj(o).values;
                        t.spec_entries().remove_ensures(i as int);
                        assert forall|j: int|
                            0 <= j < self.obj(o).values.spec_len() implies self.spec_wf_prop(
                            #[trigger] self.obj(o).values.spec_val(j),
                        ) by {
                            assert(old(self).spec_wf_obj_at(o.0 as int));
                            if j < i as int {
                                assert(self.obj(o).values.spec_entries()[j]
                                    == t.spec_entries()[j]);
                                assert(old(self).spec_wf_prop(t.spec_val(j)));
                            } else {
                                assert(self.obj(o).values.spec_entries()[j]
                                    == t.spec_entries()[j + 1]);
                                assert(old(self).spec_wf_prop(t.spec_val(j + 1)));
                            }
                        };
                        Self::lemma_obj_wf_values_changed(old(self), self, o.0 as int);
                        Self::lemma_wf_after_update(old(self), self, o.0 as int);
                    }
                    true
                } else {
                    proof {
                        assert(self.scope_seq().subrange(0, old(self).scope_seq().len() as int)
                            =~= old(self).scope_seq());
                    }
                    false
                }
            },
            None => {
                proof {
                    assert(self.scope_seq().subrange(0, old(self).scope_seq().len() as int)
                        =~= old(self).scope_seq());
                }
                false
            },
        }
    }

    /// How re-flagging changes a table: the slot the case-insensitive
    /// lookup of the name resolves to - or every slot, where no name is
    /// given - keeps its name, accessors and data, and has `clear`
    /// switched off its flags and then `set_to` switched on.
    pub open spec fn spec_attrs_applied(
        t: PropertyMap<Property>,
        nt: PropertyMap<Property>,
        name: Option<Seq<char>>,
        set_to: Attribute,
        clear: Attribute,
    ) -> bool {
        match name {
            Some(n) => {
                let i = t.spec_find(n, false);
                if i >= 0 {
                    &&& nt.spec_len() == t.spec_len()
                    &&& (forall|j: int|
                        0 <= j < t.spec_len() && j != i ==> nt.spec_entries()[j]
                            == t.spec_entries()[j])
                    &&& nt.spec_key(i) == t.spec_key(i)
                    &&& crate::property::spec_prop_like(nt.spec_val(i), t.spec_val(i))
                    &&& nt.spec_val(i).spec_attributes() == crate::property::spec_attr_apply(
                        t.spec_val(i).spec_attributes(),
                        set_to,
                        clear,
                    )
                } else {
                    nt.spec_entries() == t.spec_entries()
                }
            },
            None => {
                &&& nt.spec_len() == t.spec_len()
                &&& (forall|j: int|
                    0 <= j < t.spec_len() ==> #[trigger] nt.spec_key(j) == t.spec_key(j)
                        && crate::property::spec_prop_like(nt.spec_val(j), t.spec_val(j))
                        && nt.spec_val(j).spec_attributes() == crate::property::spec_attr_apply(
                        t.spec_val(j).spec_attributes(),
                        set_to,
                        clear,
                    ))
            },
        }
    }

    /// Re-flags properties: the one the (case-insensitive) lookup of
    /// `name` resolves to, or every property where no name is given.
    /// Each property's flags have `clear` switched off, then `set_to`
    /// switched on.
    #[verifier::rlimit(80)]
    #[verifier::spinoff_prover]
    pub fn set_attributes(
        &mut self,
        o: Object,
        name: Option<&str>,
        set_to: Attribute,
        clear: Attribute,
    )
        requires
            old(self).wf(),
            old(self).has_obj(o),
        ensures
            final(self).spec_values_op(old(self), o),
            old(self).obj(o).kind is Super ==> *final(self) == *old(self),
            !(old(self).obj(o).kind is Super) ==> Self::spec_attrs_applied(
                old(self).obj(o).values,
                final(self).obj(o).values,
                match name {
                    Some(n) => Some(n@),
                    None => None,
                },
                set_to,
                clear,
            ),
    {
        if matches!(&self.objects[o.0].kind, ObjectKind::Super(_)) {
            // flags on a `super` proxy are left untouched
            proof {
                Self::lemma_values_op_refl(self, o);
            }
            return ;
        }
        match name {
            Some(n) => {
                let found = self.objects[o.0].values.find(n, false);
                match found {
                    Some(i) => {
                        let mut d = self.take_obj(o);
                        let mut p = d.values.val_at(i).duplicate();
                        let new_attr = p.attributes().apply(set_to, clear);
                        p.set_attributes(new_attr);
                        let ghost gp = p;
                        d.values.set_val_at(i, p);
                        let ghost gd = d;
        self.put_obj(o, d);
                        proof {
                            assert(self.objs() =~= old(self).objs().update(o.0 as int, gd));
                            assert(self.obj(o) == gd);
                            assert(old(self).spec_wf_obj_at(o.0 as int));
                            assert(old(self).spec_wf_prop(
                                old(self).obj(o).values.spec_val(i as int),
                            ));
                            assert(self.spec_wf_prop(gp));
                            let t = old(self).obj(o).values;
                            let nt = self.obj(o).values;
                            assert forall|j: int|
                                0 <= j < t.spec_len() && j != i as int implies #[trigger] nt.spec_entries()[j]
                                == t.spec_entries()[j] by {
                                assert(t.spec_entries().update(
                                    i as int,
                                    (t.spec_entries()[i as int].0, gp),
                                )[j] == t.spec_entries()[j]);
                            };
                            assert(nt.spec_entries()[i as int] == (
                                t.spec_entries()[i as int].0,
                                gp,
                            ));
                            assert(nt.spec_len() == t.spec_len());
                            assert(crate::property::spec_prop_like(gp, t.spec_val(i as int)));
                            Self::lemma_values_wf_carry(old(self), self, o.0 as int, i as int, gp);
                            Self::lemma_obj_wf_values_changed(old(self), self, o.0 as int);
                            Self::lemma_wf_after_update(old(self), self, o.0 as int);
                            assert(Self::spec_attrs_applied(
                                old(self).obj(o).values,
                                self.obj(o).values,
                                Some(n@),
                                set_to,
                                clear,
                            ));
                        }
                    },
                    None => {
                        proof {
                            assert(self.scope_seq().subrange(
                                0,
                                old(self).scope_seq().len() as int,
                            ) =~= old(self).scope_seq());
                            assert(Self::spec_attrs_applied(
                                old(self).obj(o).values,
                                self.obj(o).values,
                                Some(n@),
                                set_to,
                                clear,
                            ));
                        }
                    },
                }
            },
            None => {
                self.set_attributes_all(o, set_to, clear);
            },
        }
    }

    /// Re-flags every property of the object.
    fn set_attributes_all(&mut self, o: Object, set_to: Attribute, clear: Attribute)
        requires
            old(self).wf(),
            old(self).has_obj(o),
        ensures
            final(self).spec_values_op(old(self), o),
            Self::spec_attrs_applied(
                old(self).obj(o).values,
                final(self).obj(o).values,
                None,
                set_to,
                clear,
            ),
    {
        {
                let mut d = self.take_obj(o);
                let mut rebuilt: PropertyMap<Property> = PropertyMap::new();
                let len = d.values.len();
                let mut j: usize = 0;
                while j < len
                    invariant
                        j <= len,
                        len == d.values.spec_len(),
                        d == old(self).obj(o),
                        rebuilt.spec_len() == j,
                        forall|k: int|
                            0 <= k < j ==> #[trigger] rebuilt.spec_key(k) == d.values.spec_key(k)
                                && crate::property::spec_prop_like(
                                rebuilt.spec_val(k),
                                d.values.spec_val(k),
                            ) && rebuilt.spec_val(k).spec_attributes()
                                == crate::property::spec_attr_apply(
                                d.values.spec_val(k).spec_attributes(),
                                set_to,
                                clear,
                            ),
                    decreases len - j,
                {
                    let ghost pre_map = rebuilt;
                    let mut p = d.values.val_at(j).duplicate();
                    let new_attr = p.attributes().apply(set_to, clear);
                    p.set_attributes(new_attr);
                    let ghost gp = p;
                    let key = d.values.key_at(j).clone();
                    rebuilt.push_entry(key.as_str(), p);
                    proof {
                        assert forall|k: int| 0 <= k < j implies #[trigger] rebuilt.spec_entries()[k]
                            == pre_map.spec_entries()[k] by {
                            assert(rebuilt.spec_entries().subrange(0, j as int)[k]
                                == rebuilt.spec_entries()[k]);
                        };
                        assert(rebuilt.spec_val(j as int) == gp);
                        assert(rebuilt.spec_key(j as int) == d.values.spec_key(j as int));
                        assert(crate::property::spec_prop_like(
                            rebuilt.spec_val(j as int),
                            d.values.spec_val(j as int),
                        ));
                        assert forall|k: int| 0 <= k < j + 1 implies #[trigger] rebuilt.spec_key(k)
                            == d.values.spec_key(k) && crate::property::spec_prop_like(
                            rebuilt.spec_val(k),
                            d.values.spec_val(k),
                        ) && rebuilt.spec_val(k).spec_attributes()
                            == crate::property::spec_attr_apply(
                            d.values.spec_val(k).spec_attributes(),
                            set_to,
                            clear,
                        ) by {
                            if k < j {
                                assert(pre_map.spec_key(k) == d.values.spec_key(k));
                                assert(crate::property::spec_prop_like(
                                    pre_map.spec_val(k),
                                    d.values.spec_val(k),
                                ));
                                assert(rebuilt.spec_entries()[k] == pre_map.spec_entries()[k]);
                            }
                        };
                    }
                    j += 1;
                }
                let ghost old_vals = d.values;
                let ghost gr = rebuilt;
                d.values = rebuilt;
                let ghost gd = d;
                self.put_obj(o, d);
                proof {
                    assert(self.objs() =~= old(self).objs().update(o.0 as int, gd));
                    assert(self.obj(o) == gd);
                    assert(old(self).spec_wf_obj_at(o.0 as int));
                    let t = old(self).obj(o).values;
                    let nt = self.obj(o).values;
                    assert(old_vals == t);
                    assert(nt == gr);
                    assert(nt.spec_len() == t.spec_len());
                    assert forall|k: int| 0 <= k < nt.spec_len() implies self.spec_wf_prop(
                        #[trigger] nt.spec_val(k),
                    ) by {
                        assert(gr.spec_key(k) == old_vals.spec_key(k));
                        assert(crate::property::spec_prop_like(
                            gr.spec_val(k),
                            old_vals.spec_val(k),
                        ));
                        assert(old(self).spec_wf_prop(t.spec_val(k)));
                    };
                    assert forall|k: int| 0 <= k < t.spec_len() implies #[trigger] nt.spec_key(k)
                        == t.spec_key(k) && crate::property::spec_prop_like(
                        nt.spec_val(k),
                        t.spec_val(k),
                    ) && nt.spec_val(k).spec_attributes() == crate::property::spec_attr_apply(
                        t.spec_val(k).spec_attributes(),
                        set_to,
                        clear,
                    ) by {
                        assert(gr.spec_key(k) == old_vals.spec_key(k));
                        assert(crate::property::spec_prop_like(
                            gr.spec_val(k),
                            old_vals.spec_val(k),
                        ));
                        assert(gr.spec_val(k).spec_attributes() == crate::property::spec_attr_apply(
                            old_vals.spec_val(k).spec_attributes(),
                            set_to,
                            clear,
                        ));
                    };
                    Self::lemma_obj_wf_values_changed(old(self), self, o.0 as int);
                    Self::lemma_wf_after_update(old(self), self, o.0 as int);
                    assert(Self::spec_attrs_applied(
                        old(self).obj(o).values,
                        self.obj(o).values,
                        None,
                        set_to,
                        clear,
                    ));
                }
        }
    }

    /// Installs a watcher on the named property (which need not exist).
    pub fn set_watcher(&mut self, o: Object, name: &str, callback: Object, user_data: Value, ctx: &Context)
        requires
            old(self).wf(),
            old(self).has_obj(o),
            old(self).has_obj(callback),
            old(self).spec_wf_value(user_data@),
        ensures
            final(self).wf(),
            final(self).objs().len() == old(self).objs().len(),
            final(self).grown_except(old(self), o.0 as int),
            final(self).obj(o).prototype == old(self).obj(o).prototype,
            final(self).obj(o).values == old(self).obj(o).values,
            final(self).obj(o).interfaces == old(self).obj(o).interfaces,
            final(self).obj(o).kind == old(self).obj(o).kind,
            old(self).obj(o).kind is Super ==> *final(self) == *old(self),
            !(old(self).obj(o).kind is Super) ==> exists|w: Watcher|
                w.callback == callback && w.user_data@ == user_data@
                    && crate::property_map::spec_inserted(
                    old(self).obj(o).watchers,
                    final(self).obj(o).watchers,
                    name@,
                    ctx.spec_case_sensitive(),
                    w,
                ),
    {
        if matches!(&self.objects[o.0].kind, ObjectKind::Super(_)) {
            // watchers cannot be installed on a `super` proxy
            return ;
        }
        let w = Watcher::new(callback, user_data);
        let ghost ww = w;
        let mut d = self.take_obj(o);
        d.watchers.insert(name, w, ctx.is_case_sensitive());
        let ghost gd = d;
        self.put_obj(o, d);
        proof {
            assert(self.objs() =~= old(self).objs().update(o.0 as int, gd));
            assert(self.obj(o) == gd);
            assert(old(self).spec_wf_obj_at(o.0 as int));
            let t = old(self).obj(o).watchers;
            let nt = self.obj(o).watchers;
            let i = t.spec_find(name@, ctx.spec_case_sensitive());
            let ghost target: int = if i >= 0 {
                i
            } else {
                t.spec_len() as int
            };
            crate::property_map::lemma_inserted_frame(t, nt, name@, ctx.spec_case_sensitive(), ww);
            assert forall|j: int| 0 <= j < nt.spec_len() implies self.has_obj(
                (#[trigger] nt.spec_val(j)).callback,
            ) && self.spec_wf_value(nt.spec_val(j).user_data@) by {
                if j == target {
                    assert(nt.spec_val(j) == ww);
                } else {
                    assert(nt.spec_entries()[j] == t.spec_entries()[j]);
                    assert(old(self).has_obj(t.spec_val(j).callback));
                    assert(old(self).spec_wf_value(t.spec_val(j).user_data@));
                }
            };
            Self::lemma_obj_wf_watchers_changed(old(self), self, o.0 as int);
            Self::lemma_wf_after_update(old(self), self, o.0 as int);
            assert(ww.callback == callback && ww.user_data@ == user_data@);
        }
    }

    /// Removes any watcher of the named property; reports whether one
    /// was there.
    pub fn remove_watcher(&mut self, o: Object, name: &str, ctx: &Context) -> (r: bool)
        requires
            old(self).wf(),
            old(self).has_obj(o),
        ensures
            final(self).wf(),
            final(self).objs().len() == old(self).objs().len(),
            final(self).grown_except(old(self), o.0 as int),
            final(self).obj(o).prototype == old(self).obj(o).prototype,
            final(self).obj(o).values == old(self).obj(o).values,
            final(self).obj(o).interfaces == old(self).obj(o).interfaces,
            final(self).obj(o).kind == old(self).obj(o).kind,
            ({
                let t = old(self).obj(o).watchers;
                let i = t.spec_find(name@, ctx.spec_case_sensitive());
                if i >= 0 {
                    r && final(self).obj(o).watchers.spec_entries() == t.spec_entries().remove(i)
                } else {
                    !r && final(self).obj(o).watchers.spec_entries() == t.spec_entries()
                }
            }),
    {
        let mut d = self.take_obj(o);
        let prev = d.watchers.remove(name, ctx.is_case_sensitive());
        let ghost gd = d;
        self.put_obj(o, d);
        proof {
            assert(self.objs() =~= old(self).objs().update(o.0 as int, gd));
            assert(self.obj(o) == gd);
            assert(old(self).spec_wf_obj_at(o.0 as int));
            let t = old(self).obj(o).watchers;
            let nt = self.obj(o).watchers;
            let i = t.spec_find(name@, ctx.spec_case_sensitive());
            crate::property_map::lemma_find_from_range(
                t.spec_entries(),
                name@,
                ctx.spec_case_sensitive(),
                0,
            );
            if i >= 0 {
                t.spec_entries().remove_ensures(i);
            }
            assert forall|j: int| 0 <= j < nt.spec_len() implies self.has_obj(
                (#[trigger] nt.spec_val(j)).callback,
            ) && self.spec_wf_value(nt.spec_val(j).user_data@) by {
                if i >= 0 && j >= i {
                    assert(nt.spec_entries()[j] == t.spec_entries()[j + 1]);
                    assert(old(self).has_obj(t.spec_val(j + 1).callback));
                    assert(old(self).spec_wf_value(t.spec_val(j + 1).user_data@));
                } else {
                    assert(nt.spec_entries()[j] == t.spec_entries()[j]);
                    assert(old(self).has_obj(t.spec_val(j).callback));
                    assert(old(self).spec_wf_value(t.spec_val(j).user_data@));
                }
            };
            Self::lemma_obj_wf_watchers_changed(old(self), self, o.0 as int);
            Self::lemma_wf_after_update(old(self), self, o.0 as int);
        }
        prev.is_some()
    }

    // -----------------------------------------------------------------
    // Prototype access and chain queries (no script runs here).
    // -----------------------------------------------------------------
    /// The raw prototype field of a value: `undefined` off an object.
    pub open spec fn spec_raw_proto(&self, v: ValueView) -> ValueView {
        match v {
            ValueView::Object(o) => if self.has_obj(o) {
                self.obj(o).prototype@
            } else {
                ValueView::Undefined
            },
            _ => ValueView::Undefined,
        }
    }

    /// The value `k` raw prototype steps up from `v`.
    pub open spec fn spec_walk_proto(&self, v: ValueView, k: nat) -> ValueView
        decreases k,
    {
        if k == 0 {
            v
        } else {
            self.spec_walk_proto(self.spec_raw_proto(v), (k - 1) as nat)
        }
    }

    /// The prototype an object answers: its prototype field, except that
    /// a `super` proxy answers the prototype one level above the link
    /// its depth names, computed over the raw chain of its `this`.
    pub open spec fn spec_object_proto(&self, o: Object) -> ValueView {
        match self.obj(o).kind {
            ObjectKind::Super(s) => self.spec_walk_proto(
                ValueView::Object(s.this_ref),
                s.depth as nat + 1,
            ),
            _ => self.obj(o).prototype@,
        }
    }

    /// Reads the prototype the object answers.
    pub fn proto(&self, o: Object) -> (r: Value)
        requires
            self.wf(),
            self.has_obj(o),
        ensures
            r@ == self.spec_object_proto(o),
            self.spec_wf_value(r@),
    {
        match &self.objects[o.0].kind {
            ObjectKind::Super(s) => {
                let sd = *s;
                proof {
                    assert(self.spec_wf_obj_at(o.0 as int));
                }
                let steps: u16 = sd.depth as u16 + 1;
                let mut cur = Value::Object(sd.this_ref);
                let mut i: u16 = 0;
                while i < steps
                    invariant
                        self.wf(),
                        i <= steps,
                        self.spec_wf_value(cur@),
                        self.spec_walk_proto(cur@, (steps - i) as nat) == self.spec_walk_proto(
                            ValueView::Object(sd.this_ref),
                            steps as nat,
                        ),
                    decreases steps - i,
                {
                    cur = match cur {
                        Value::Object(p) => {
                            proof {
                                assert(self.spec_wf_obj_at(p.0 as int));
                            }
                            self.objects[p.0].prototype.duplicate()
                        },
                        _ => Value::Undefined,
                    };
                    i += 1;
                }
                cur
            },
            _ => {
                proof {
                    assert(self.spec_wf_obj_at(o.0 as int));
                }
                self.objects[o.0].prototype.duplicate()
            },
        }
    }

    /// Sets the prototype field. Writing the prototype of a `super`
    /// proxy is discarded, as every write through `super` is.
    pub fn set_proto(&mut self, o: Object, prototype: Value)
        requires
            old(self).wf(),
            old(self).has_obj(o),
            old(self).spec_wf_value(prototype@),
        ensures
            final(self).wf(),
            final(self).objs().len() == old(self).objs().len(),
            final(self).grown_except(old(self), o.0 as int),
            final(self).obj(o).values == old(self).obj(o).values,
            final(self).obj(o).watchers == old(self).obj(o).watchers,
            final(self).obj(o).interfaces == old(self).obj(o).interfaces,
            final(self).obj(o).kind == old(self).obj(o).kind,
            final(self).obj(o).prototype@ == (if old(self).obj(o).kind is Super {
                old(self).obj(o).prototype@
            } else {
                prototype@
            }),
    {
        let is_super = matches!(&self.objects[o.0].kind, ObjectKind::Super(_));
        if is_super {
            proof {
                assert(self.scope_seq().subrange(0, old(self).scope_seq().len() as int) =~= old(self).scope_seq());
            }
            return ;
        }
        let mut d = self.take_obj(o);
        d.prototype = prototype;
        let ghost gd = d;
        self.put_obj(o, d);
        proof {
            assert(self.objs() =~= old(self).objs().update(o.0 as int, gd));
            assert(self.obj(o) == gd);
            assert(old(self).spec_wf_obj_at(o.0 as int));
            assert forall|j: int| 0 <= j < self.obj(o).values.spec_len() implies self.spec_wf_prop(
                #[trigger] self.obj(o).values.spec_val(j),
            ) by {
                assert(old(self).spec_wf_prop(old(self).obj(o).values.spec_val(j)));
            };
            assert forall|j: int| 0 <= j < self.obj(o).watchers.spec_len() implies self.has_obj(
                (#[trigger] self.obj(o).watchers.spec_val(j)).callback,
            ) && self.spec_wf_value(self.obj(o).watchers.spec_val(j).user_data@) by {
                assert(old(self).has_obj(old(self).obj(o).watchers.spec_val(j).callback));
                assert(old(self).spec_wf_value(old(self).obj(o).watchers.spec_val(j).user_data@));
            };
            assert forall|j: int| 0 <= j < self.obj(o).interfaces@.len() implies self.has_obj(
                #[trigger] self.obj(o).interfaces@[j],
            ) by {
                assert(old(self).has_obj(old(self).obj(o).interfaces@[j]));
            };
            assert(old(self).spec_wf_kind(old(self).obj(o).kind, o.0 as int));
            assert(self.spec_wf_obj_at(o.0 as int));
            Self::lemma_wf_after_update(old(self), self, o.0 as int);
        }
    }

    /// The interface list, shared for instance checks.
    pub fn interfaces(&self, o: Object) -> (r: Vec<Object>)
        requires
            self.wf(),
            self.has_obj(o),
        ensures
            r@ == self.obj(o).interfaces@,
    {
        let mut r: Vec<Object> = Vec::new();
        let src = &self.objects[o.0].interfaces;
        let mut i: usize = 0;
        while i < src.len()
            invariant
                i <= src@.len(),
                src@ == self.obj(o).interfaces@,
                r@ == src@.subrange(0, i as int),
            decreases src@.len() - i,
        {
            r.push(src[i]);
            i += 1;
        }
        proof {
            assert(r@ =~= self.obj(o).interfaces@);
        }
        r
    }

    /// Replaces the interface list.
    pub fn set_interfaces(&mut self, o: Object, iface_list: Vec<Object>)
        requires
            old(self).wf(),
            old(self).has_obj(o),
            forall|j: int| 0 <= j < iface_list@.len() ==> old(self).has_obj(#[trigger] iface_list@[j]),
        ensures
            final(self).wf(),
            final(self).objs().len() == old(self).objs().len(),
            final(self).grown_except(old(self), o.0 as int),
            final(self).obj(o).values == old(self).obj(o).values,
            final(self).obj(o).watchers == old(self).obj(o).watchers,
            final(self).obj(o).prototype == old(self).obj(o).prototype,
            final(self).obj(o).kind == old(self).obj(o).kind,
            final(self).obj(o).interfaces@ == iface_list@,
    {
        let ghost gi = iface_list;
        let mut d = self.take_obj(o);
        d.interfaces = iface_list;
        let ghost gd = d;
        self.put_obj(o, d);
        proof {
            assert(self.objs() =~= old(self).objs().update(o.0 as int, gd));
            assert(self.obj(o) == gd);
            assert(old(self).spec_wf_obj_at(o.0 as int));
            assert forall|j: int| 0 <= j < self.obj(o).values.spec_len() implies self.spec_wf_prop(
                #[trigger] self.obj(o).values.spec_val(j),
            ) by {
                assert(old(self).spec_wf_prop(old(self).obj(o).values.spec_val(j)));
            };
            assert forall|j: int| 0 <= j < self.obj(o).watchers.spec_len() implies self.has_obj(
                (#[trigger] self.obj(o).watchers.spec_val(j)).callback,
            ) && self.spec_wf_value(self.obj(o).watchers.spec_val(j).user_data@) by {
                assert(old(self).has_obj(old(self).obj(o).watchers.spec_val(j).callback));
                assert(old(self).spec_wf_value(old(self).obj(o).watchers.spec_val(j).user_data@));
            };
            assert(old(self).spec_wf_kind(old(self).obj(o).kind, o.0 as int));
            assert(self.spec_wf_obj_at(o.0 as int));
            Self::lemma_wf_after_update(old(self), self, o.0 as int);
        }
    }

    /// What `typeof` prints for this object.
    pub fn type_of(&self, o: Object) -> (r: &'static str)
        requires
            self.wf(),
            self.has_obj(o),
        ensures
            r@ == Self::spec_type_text(self.obj(o).type_tag),
    {
        match self.objects[o.0].type_tag {
            TypeTag::Object => "object",
            TypeTag::Function => "function",
            TypeTag::MovieClip => "movieclip",
        }
    }

    /// What `typeof` prints for a value: primitives by their kind,
    /// objects by their tag.
    pub fn type_of_value(&self, v: &Value) -> (r: &'static str)
        requires
            self.wf(),
            self.spec_wf_value(v@),
        ensures
            v@ is Undefined ==> r@ == "undefined"@,
            v@ is Null ==> r@ == "null"@,
            v@ is Number ==> r@ == "number"@,
            v@ is Bool ==> r@ == "boolean"@,
            v@ is Str ==> r@ == "string"@,
            v@ matches ValueView::Object(o) ==> r@ == Self::spec_type_text(self.obj(o).type_tag),
    {
        match v {
            Value::Undefined => "undefined",
            Value::Null => "null",
            Value::Number(_) => "number",
            Value::Bool(_) => "boolean",
            Value::Str(_) => "string",
            Value::Object(o) => self.type_of(*o),
        }
    }

    pub open spec fn spec_type_text(t: TypeTag) -> Seq<char> {
        match t {
            TypeTag::Object => "object"@,
            TypeTag::Function => "function"@,
            TypeTag::MovieClip => "movieclip"@,
        }
    }

    /// The first attribute of the node with the given (exact) name.
    pub open spec fn spec_xml_attr(n: XmlNodeData, name: Seq<char>) -> Option<Seq<char>> {
        Self::spec_xml_attr_from(n.attributes@, name, 0)
    }

    pub open spec fn spec_xml_attr_from(
        attrs: Seq<(String, String)>,
        name: Seq<char>,
        i: int,
    ) -> Option<Seq<char>>
        decreases attrs.len() - i,
    {
        if i < 0 || i >= attrs.len() {
            None
        } else if attrs[i].0@ == name {
            Some(attrs[i].1@)
        } else {
            Self::spec_xml_attr_from(attrs, name, i + 1)
        }
    }

    /// What a lookup on this object alone answers, before any getter
    /// runs: nothing, plain data, a getter to invoke, or - for the
    /// id-map proxy - a document node to materialise.
    pub open spec fn spec_local_slot(&self, o: Object, name: Seq<char>, cs: bool) -> LocalSlot {
        match self.obj(o).kind {
            ObjectKind::Super(_) => LocalSlot::Stored(ValueView::Undefined),
            ObjectKind::XmlAttributes(n) => if n.0 < self.xml_node_seq().len() {
                match Self::spec_xml_attr(self.xml_node_seq()[n.0 as int], name) {
                    Some(s) => LocalSlot::Stored(ValueView::Str(s)),
                    None => LocalSlot::Absent,
                }
            } else {
                LocalSlot::Absent
            },
            ObjectKind::XmlIdMap(d) => if d.0 < self.xml_doc_seq().len() {
                match Self::spec_doc_id_from(self.xml_doc_seq()[d.0 as int].ids@, name, 0) {
                    Some(n) => LocalSlot::IdNode(n),
                    None => self.spec_table_slot(o, name, cs),
                }
            } else {
                self.spec_table_slot(o, name, cs)
            },
            _ => self.spec_table_slot(o, name, cs),
        }
    }

    /// The first node the document's id map lists under the name.
    pub open spec fn spec_doc_id_from(
        ids: Seq<(String, XmlNodeRef)>,
        name: Seq<char>,
        i: int,
    ) -> Option<XmlNodeRef>
        decreases ids.len() - i,
    {
        if i < 0 || i >= ids.len() {
            None
        } else if ids[i].0@ == name {
            Some(ids[i].1)
        } else {
            Self::spec_doc_id_from(ids, name, i + 1)
        }
    }

    /// The slot the object's own table resolves the name to.
    pub open spec fn spec_table_slot(&self, o: Object, name: Seq<char>, cs: bool) -> LocalSlot {
        let t = self.obj(o).values;
        let i = t.spec_find(name, cs);
        if i < 0 {
            LocalSlot::Absent
        } else if t.spec_val(i).spec_is_virtual() {
            let g = t.spec_val(i).spec_getter()->0;
            if self.has_obj(g) && self.obj(g).kind is Function {
                LocalSlot::Getter(g)
            } else {
                // a virtual slot whose getter is not callable answers
                // nothing, and the chain walk passes it by
                LocalSlot::Absent
            }
        } else {
            match t.spec_val(i).spec_data() {
                Some(v) => LocalSlot::Stored(v@),
                None => LocalSlot::Stored(ValueView::Undefined),
            }
        }
    }

    /// Whether the object itself answers for the name: the prototype
    /// pseudo-property always does; the attribute proxy asks its node;
    /// a `super` proxy asks its `this`.
    pub open spec fn spec_has_own(&self, o: Object, name: Seq<char>, cs: bool) -> bool
        decreases o.0,
    {
        match self.obj(o).kind {
            ObjectKind::Super(s) => if s.this_ref.0 < o.0 {
                self.spec_has_own(s.this_ref, name, cs)
            } else {
                false
            },
            ObjectKind::XmlAttributes(n) => n.0 < self.xml_node_seq().len() && Self::spec_xml_attr(
                self.xml_node_seq()[n.0 as int],
                name,
            ) is Some,
            _ => name == "__proto__"@ || self.obj(o).values.spec_contains(name, cs),
        }
    }

    /// Whether the object has a given named property on itself alone.
    pub fn has_own_property(&self, o: Object, name: &str, ctx: &Context) -> (r: bool)
        requires
            self.wf(),
            self.has_obj(o),
        ensures
            r == self.spec_has_own(o, name@, ctx.spec_case_sensitive()),
    {
        let cs = ctx.is_case_sensitive();
        let mut cur = o;
        loop
            invariant
                self.wf(),
                self.has_obj(cur),
                cs == ctx.spec_case_sensitive(),
                self.spec_has_own(o, name@, cs) == self.spec_has_own(cur, name@, cs),
            decreases cur.0,
        {
            proof {
                assert(self.spec_wf_obj_at(cur.0 as int));
            }
            match &self.objects[cur.0].kind {
                ObjectKind::Super(s) => {
                    cur = s.this_ref;
                },
                ObjectKind::XmlAttributes(n) => {
                    let node = *n;
                    return self.xml_attr_lookup(node, name).is_some();
                },
                _ => {
                    if crate::strings::str_eq(name, "__proto__") {
                        return true;
                    }
                    return self.objects[cur.0].values.contains_key(name, cs);
                },
            }
        }
    }

    /// Reads an attribute of a markup node by exact name.
    fn xml_attr_lookup(&self, n: XmlNodeRef, name: &str) -> (r: Option<String>)
        requires
            self.wf(),
            n.0 < self.xml_node_seq().len(),
        ensures
            match r {
                Some(s) => Self::spec_xml_attr(self.xml_node_seq()[n.0 as int], name@) == Some(s@),
                None => Self::spec_xml_attr(self.xml_node_seq()[n.0 as int], name@) is None,
            },
    {
        let attrs = &self.xml_nodes[n.0].attributes;
        let mut i: usize = 0;
        while i < attrs.len()
            invariant
                i <= attrs@.len(),
                attrs@ == self.xml_node_seq()[n.0 as int].attributes@,
                Self::spec_xml_attr_from(attrs@, name@, 0) == Self::spec_xml_attr_from(
                    attrs@,
                    name@,
                    i as int,
                ),
            decreases attrs@.len() - i,
        {
            if crate::strings::str_eq(attrs[i].0.as_str(), name) {
                return Some(attrs[i].1.clone());
            }
            i += 1;
        }
        None
    }

    /// Whether the object's own slot for the name is virtual.
    pub open spec fn spec_has_own_virtual(&self, o: Object, name: Seq<char>, cs: bool) -> bool
        decreases o.0,
    {
        match self.obj(o).kind {
            ObjectKind::Super(s) => if s.this_ref.0 < o.0 {
                self.spec_has_own_virtual(s.this_ref, name, cs)
            } else {
                false
            },
            _ => ({
                let t = self.obj(o).values;
                let i = t.spec_find(name, cs);
                i >= 0 && t.spec_val(i).spec_is_virtual()
            }),
        }
    }

    pub fn has_own_virtual(&self, o: Object, name: &str, ctx: &Context) -> (r: bool)
        requires
            self.wf(),
            self.has_obj(o),
        ensures
            r == self.spec_has_own_virtual(o, name@, ctx.spec_case_sensitive()),
    {
        let cs = ctx.is_case_sensitive();
        let mut cur = o;
        loop
            invariant
                self.wf(),
                self.has_obj(cur),
                cs == ctx.spec_case_sensitive(),
                self.spec_has_own_virtual(o, name@, cs) == self.spec_has_own_virtual(
                    cur,
                    name@,
                    cs,
                ),
            decreases cur.0,
        {
            proof {
                assert(self.spec_wf_obj_at(cur.0 as int));
            }
            match &self.objects[cur.0].kind {
                ObjectKind::Super(s) => {
                    cur = s.this_ref;
                },
                _ => {
                    let found = self.objects[cur.0].values.find(name, cs);
                    return match found {
                        Some(i) => self.objects[cur.0].values.val_at(i).is_virtual(),
                        None => false,
                    };
                },
            }
        }
    }

    /// Whether the name appears when the object is enumerated.
    pub open spec fn spec_own_enumerable(&self, o: Object, name: Seq<char>, cs: bool) -> bool
        decreases o.0,
    {
        match self.obj(o).kind {
            ObjectKind::Super(s) => if s.this_ref.0 < o.0 {
                self.spec_own_enumerable(s.this_ref, name, cs)
            } else {
                false
            },
            _ => {
                let t = self.obj(o).values;
                let i = t.spec_find(name, cs);
                i >= 0 && t.spec_val(i).spec_is_enumerable()
            },
        }
    }

    pub fn is_property_enumerable(&self, o: Object, name: &str, ctx: &Context) -> (r: bool)
        requires
            self.wf(),
            self.has_obj(o),
        ensures
            r == self.spec_own_enumerable(o, name@, ctx.spec_case_sensitive()),
    {
        let cs = ctx.is_case_sensitive();
        let mut cur = o;
        loop
            invariant
                self.wf(),
                self.has_obj(cur),
                cs == ctx.spec_case_sensitive(),
                self.spec_own_enumerable(o, name@, cs) == self.spec_own_enumerable(cur, name@, cs),
            decreases cur.0,
        {
            proof {
                assert(self.spec_wf_obj_at(cur.0 as int));
            }
            match &self.objects[cur.0].kind {
                ObjectKind::Super(s) => {
                    cur = s.this_ref;
                },
                _ => {
                    let found = self.objects[cur.0].values.find(name, cs);
                    return match found {
                        Some(i) => self.objects[cur.0].values.val_at(i).is_enumerable(),
                        None => false,
                    };
                },
            }
        }
    }

    /// Whether the name resolves somewhere on the object or its
    /// prototype chain, within the chain bound.
    pub open spec fn spec_has_property(&self, v: ValueView, name: Seq<char>, cs: bool, k: nat) -> bool
        decreases k,
    {
        match v {
            ValueView::Object(o) => if !self.has_obj(o) || k == 0 {
                false
            } else {
                self.spec_has_own(o, name, cs) || self.spec_has_property(
                    self.spec_object_proto(o),
                    name,
                    cs,
                    (k - 1) as nat,
                )
            },
            _ => false,
        }
    }

    /// Whether the object or any prototype answers for the name. The
    /// walk stops at the chain bound, as every chain walk here does.
    pub fn has_property(&self, o: Object, name: &str, ctx: &Context) -> (r: bool)
        requires
            self.wf(),
            self.has_obj(o),
        ensures
            r == self.spec_has_property(
                ValueView::Object(o),
                name@,
                ctx.spec_case_sensitive(),
                255,
            ),
    {
        let cs = ctx.is_case_sensitive();
        let mut cur = Value::Object(o);
        let mut k: u32 = 255;
        loop
            invariant
                self.wf(),
                self.spec_wf_value(cur@),
                k <= 255,
                cs == ctx.spec_case_sensitive(),
                self.spec_has_property(ValueView::Object(o), name@, cs, 255)
                    == self.spec_has_property(cur@, name@, cs, k as nat),
            decreases k,
        {
            match &cur {
                Value::Object(p) => {
                    let po = *p;
                    if k == 0 {
                        return false;
                    }
                    if self.has_own_property(po, name, ctx) {
                        return true;
                    }
                    cur = self.proto(po);
                    k -= 1;
                },
                _ => {
                    return false;
                },
            }
        }
    }
}

impl Heap {
    // -----------------------------------------------------------------
    // Invocation and property access that may run script. Reentrancy is
    // bounded by an explicit execution budget: every nested engine call
    // hands on one unit less, and an exhausted budget surfaces as the
    // execution-limit error (which the getter policy, like every
    // non-thrown failure there, degrades to `undefined`).
    // -----------------------------------------------------------------
    /// Where a name resolves along a prototype chain, `k` the remaining
    /// chain budget.
    pub open spec fn spec_search(&self, v: ValueView, name: Seq<char>, cs: bool, k: nat) -> SearchResult
        decreases k,
    {
        match v {
            ValueView::Object(o) => if !self.has_obj(o) {
                SearchResult::Missing
            } else if k == 0 {
                SearchResult::Limit
            } else {
                match self.spec_local_slot(o, name, cs) {
                    LocalSlot::Absent => match self.spec_search(
                        self.spec_object_proto(o),
                        name,
                        cs,
                        (k - 1) as nat,
                    ) {
                        SearchResult::Hit { depth, holder, slot } => SearchResult::Hit {
                            depth: depth + 1,
                            holder,
                            slot,
                        },
                        other => other,
                    },
                    slot => SearchResult::Hit { depth: 0, holder: o, slot },
                }
            },
            _ => SearchResult::Missing,
        }
    }

    /// Runs a native behaviour with the given `this` and arguments.
    /// The behaviours that invoke other script hand on a smaller
    /// budget; the fixed behaviours are exact whatever the budget.
    pub fn exec_native(
        &mut self,
        f: NativeFunction,
        this: Object,
        args: &Vec<Value>,
        ctx: &Context,
        fuel: u32,
    ) -> (r: Result<Value, AvmError>)
        requires
            old(self).wf(),
            old(self).has_obj(this),
            old(self).spec_valid_ctx(*ctx),
            match f {
                NativeFunction::Constant(v) => old(self).spec_wf_value(v@),
                NativeFunction::Throws(v) => old(self).spec_wf_value(v@),
                _ => true,
            },
            forall|i: int| 0 <= i < args@.len() ==> old(self).spec_wf_value((#[trigger] args@[i])@),
        ensures
            final(self).wf(),
            final(self).grown_from(old(self)),
            final(self).spec_valid_ctx(*ctx),
            match r {
                Ok(v) => final(self).spec_wf_value(v@),
                Err(e) => match e@ {
                    crate::error::AvmErrorView::Thrown(v) => final(self).spec_wf_value(v),
                    _ => true,
                },
            },
            f is Constant ==> r is Ok && r->Ok_0@ == f->Constant_0@ && *final(self) == *old(self),
            f is Throws ==> r is Err && r->Err_0@ == crate::error::AvmErrorView::Thrown(
                f->Throws_0@,
            ) && *final(self) == *old(self),
            f is FunctionToString ==> r is Ok && r->Ok_0@ == ValueView::Str("[type Function]"@)
                && *final(self) == *old(self),
            f is FunctionConstructor ==> r is Ok && r->Ok_0@ == ValueView::Object(this) && *final(self) == *old(self),
        decreases fuel, 0int,
    {
        match f {
            NativeFunction::Constant(v) => Ok(v.duplicate()),
            NativeFunction::Throws(v) => Err(AvmError::ThrownValue(v.duplicate())),
            NativeFunction::FunctionToString => Ok(Value::Str(String::from_str("[type Function]"))),
            NativeFunction::FunctionConstructor => Ok(Value::Object(this)),
            NativeFunction::FunctionFunction => {
                if args.len() > 0 {
                    Ok(args[0].duplicate())
                } else {
                    let o = self.new_object(None);
                    Ok(Value::Object(o))
                }
            },
            NativeFunction::FunctionCall => {
                if fuel == 0 {
                    return Err(AvmError::ExecutionLimit);
                }
                let this2 = if args.len() == 0 {
                    ctx.globals
                } else {
                    match &args[0] {
                        Value::Undefined => ctx.globals,
                        Value::Null => ctx.globals,
                        other => {
                            let v = other.duplicate();
                            self.coerce_to_object(&v, ctx)
                        },
                    }
                };
                let mut rest: Vec<Value> = Vec::new();
                let mut i: usize = 1;
                while i < args.len()
                    invariant
                        self.wf(),
                        self.has_obj(this2),
                        1 <= i,
                        forall|k: int|
                            0 <= k < args@.len() ==> self.spec_wf_value((#[trigger] args@[k])@),
                        forall|k: int|
                            0 <= k < rest@.len() ==> self.spec_wf_value((#[trigger] rest@[k])@),
                    decreases args@.len() - i,
                {
                    rest.push(args[i].duplicate());
                    i += 1;
                }
                self.call_function(this, this2, &rest, ctx, (fuel - 1) as u32)
            },
            NativeFunction::FunctionApply => {
                if fuel == 0 {
                    return Err(AvmError::ExecutionLimit);
                }
                let this2 = if args.len() == 0 {
                    ctx.globals
                } else {
                    match &args[0] {
                        Value::Undefined => ctx.globals,
                        Value::Null => ctx.globals,
                        other => {
                            let v = other.duplicate();
                            self.coerce_to_object(&v, ctx)
                        },
                    }
                };
                let mut child_args: Vec<Value> = Vec::new();
                if args.len() > 1 {
                    if let Value::Object(a) = &args[1] {
                        let ao = *a;
                        let length_val = match self.get(ao, "length", ctx, (fuel - 1) as u32) {
                            Ok(v) => v,
                            Err(e) => { return Err(e) },
                        };
                        let length_bits = match self.coerce_to_f64(
                            &length_val,
                            ctx,
                            (fuel - 1) as u32,
                        ) {
                            Ok(b) => b,
                            Err(e) => { return Err(e) },
                        };
                        let length = crate::number::f64_to_saturating_u32(length_bits);
                        let mut j: u32 = 0;
                        while j < length
                            invariant
                                self.wf(),
                                self.spec_valid_ctx(*ctx),
                                self.has_obj(ao),
                                self.has_obj(this),
                                self.has_obj(this2),
                                self.grown_from(old(self)),
                                fuel >= 1,
                                f is FunctionApply,
                                forall|k: int|
                                    0 <= k < child_args@.len() ==> self.spec_wf_value(
                                        (#[trigger] child_args@[k])@,
                                    ),
                            decreases length - j,
                        {
                            let name = crate::number::u32_to_string(j);
                            let next = match self.get(ao, name.as_str(), ctx, (fuel - 1) as u32) {
                                Ok(v) => v,
                                Err(e) => { return Err(e) },
                            };
                            child_args.push(next);
                            j += 1;
                        }
                    }
                }
                self.call_function(this, this2, &child_args, ctx, (fuel - 1) as u32)
            },
        }
    }

    /// Invokes `func` (the object being called) with the given `this`;
    /// a non-callable object answers `undefined`.
    fn call_function(
        &mut self,
        func: Object,
        this: Object,
        args: &Vec<Value>,
        ctx: &Context,
        fuel: u32,
    ) -> (r: Result<Value, AvmError>)
        requires
            old(self).wf(),
            old(self).has_obj(func),
            old(self).has_obj(this),
            old(self).spec_valid_ctx(*ctx),
            forall|i: int| 0 <= i < args@.len() ==> old(self).spec_wf_value((#[trigger] args@[i])@),
        ensures
            final(self).wf(),
            final(self).grown_from(old(self)),
            final(self).spec_valid_ctx(*ctx),
            match r {
                Ok(v) => final(self).spec_wf_value(v@),
                Err(e) => match e@ {
                    crate::error::AvmErrorView::Thrown(v) => final(self).spec_wf_value(v),
                    _ => true,
                },
            },
            old(self).obj(func).kind matches ObjectKind::Function(
                NativeFunction::Constant(c),
            ) ==> (fuel >= 1 ==> r is Ok && r->Ok_0@ == c@ && *final(self) == *old(self)),
            old(self).obj(func).kind matches ObjectKind::Function(
                NativeFunction::Throws(t),
            ) ==> (fuel >= 1 ==> r is Err && r->Err_0@ == crate::error::AvmErrorView::Thrown(t@)
                && *final(self) == *old(self)),
            fuel >= 1 && !(old(self).obj(func).kind is Function) ==> r is Ok && r->Ok_0@
                == ValueView::Undefined && *final(self) == *old(self),
        decreases fuel, 1int,
    {
        if fuel == 0 {
            return Err(AvmError::ExecutionLimit);
        }
        proof {
            assert(self.spec_wf_obj_at(func.0 as int));
        }
        let nf = match &self.objects[func.0].kind {
            ObjectKind::Function(nf) => nf.duplicate(),
            _ => { return Ok(Value::Undefined) },
        };
        self.exec_native(nf, this, args, ctx, (fuel - 1) as u32)
    }

    /// The capability-trait `call`: dispatches on the object's kind.
    /// Non-callable kinds answer `undefined`; a `super` proxy invokes
    /// the constructor found on its effective prototype with the
    /// original `this`.
    pub fn call(
        &mut self,
        o: Object,
        name: &str,
        this: Object,
        depth: u8,
        args: &Vec<Value>,
        ctx: &Context,
        fuel: u32,
    ) -> (r: Result<Value, AvmError>)
        requires
            old(self).wf(),
            old(self).has_obj(o),
            old(self).has_obj(this),
            old(self).spec_valid_ctx(*ctx),
            forall|i: int| 0 <= i < args@.len() ==> old(self).spec_wf_value((#[trigger] args@[i])@),
        ensures
            final(self).wf(),
            final(self).grown_from(old(self)),
            final(self).spec_valid_ctx(*ctx),
            match r {
                Ok(v) => final(self).spec_wf_value(v@),
                Err(e) => match e@ {
                    crate::error::AvmErrorView::Thrown(v) => final(self).spec_wf_value(v),
                    _ => true,
                },
            },
            old(self).obj(o).kind matches ObjectKind::Function(
                NativeFunction::Constant(c),
            ) ==> (fuel >= 2 ==> r is Ok && r->Ok_0@ == c@ && *final(self) == *old(self)),
            old(self).obj(o).kind matches ObjectKind::Function(
                NativeFunction::Throws(t),
            ) ==> (fuel >= 2 ==> r is Err && r->Err_0@ == crate::error::AvmErrorView::Thrown(t@)
                && *final(self) == *old(self)),
            old(self).obj(o).kind is Plain || old(self).obj(o).kind is Boxed ==> r is Ok
                && r->Ok_0@ == ValueView::Undefined && *final(self) == *old(self),
        decreases fuel, 2int,
    {
        let _ = name;
        let _ = depth;
        match &self.objects[o.0].kind {
            ObjectKind::Function(_) => {
                if fuel == 0 {
                    return Err(AvmError::ExecutionLimit);
                }
                self.call_function(o, this, args, ctx, (fuel - 1) as u32)
            },
            ObjectKind::Super(s) => {
                let sd = *s;
                proof {
                    assert(self.spec_wf_obj_at(o.0 as int));
                }
                if fuel == 0 {
                    return Err(AvmError::ExecutionLimit);
                }
                let sp = self.proto(o);
                match sp {
                    Value::Object(super_proto) => {
                        let constructor_val = match self.get(
                            super_proto,
                            "__constructor__",
                            ctx,
                            (fuel - 1) as u32,
                        ) {
                            Ok(v) => v,
                            Err(e) => { return Err(e) },
                        };
                        let constructor = self.coerce_to_object(&constructor_val, ctx);
                        proof {
                            assert(self.has_obj(sd.this_ref));
                        }
                        self.call(
                            constructor,
                            name,
                            sd.this_ref,
                            depth,
                            args,
                            ctx,
                            (fuel - 1) as u32,
                        )
                    },
                    _ => Ok(Value::Undefined),
                }
            },
            _ => Ok(Value::Undefined),
        }
    }

    /// Calls a value: an object reference dispatches as a call on the
    /// object; a primitive is not callable and answers `undefined`.
    pub fn call_value(
        &mut self,
        v: &Value,
        name: &str,
        this: Object,
        depth: u8,
        args: &Vec<Value>,
        ctx: &Context,
        fuel: u32,
    ) -> (r: Result<Value, AvmError>)
        requires
            old(self).wf(),
            old(self).spec_wf_value(v@),
            old(self).has_obj(this),
            old(self).spec_valid_ctx(*ctx),
            forall|i: int| 0 <= i < args@.len() ==> old(self).spec_wf_value((#[trigger] args@[i])@),
        ensures
            final(self).wf(),
            final(self).grown_from(old(self)),
            final(self).spec_valid_ctx(*ctx),
            !(v@ is Object) ==> r is Ok && (r matches Ok(x) ==> x@ == ValueView::Undefined)
                && *final(self) == *old(self),
            match r {
                Ok(x) => final(self).spec_wf_value(x@),
                Err(e) => match e@ {
                    crate::error::AvmErrorView::Thrown(t) => final(self).spec_wf_value(t),
                    _ => true,
                },
            },
        decreases fuel, 3int,
    {
        match v {
            Value::Object(o) => {
                if fuel == 0 {
                    return Err(AvmError::ExecutionLimit);
                }
                self.call(*o, name, this, depth, args, ctx, (fuel - 1) as u32)
            },
            _ => Ok(Value::Undefined),
        }
    }

    /// Boxes a primitive so it can stand where an object is needed; an
    /// object reference passes through.
    pub fn coerce_to_object(&mut self, v: &Value, ctx: &Context) -> (r: Object)
        requires
            old(self).wf(),
            old(self).spec_wf_value(v@),
            old(self).spec_valid_ctx(*ctx),
        ensures
            final(self).wf(),
            final(self).grown_from(old(self)),
            final(self).spec_valid_ctx(*ctx),
            final(self).has_obj(r),
            v@ is Object ==> r == v@->Object_0 && *final(self) == *old(self),
            !(v@ is Object) ==> final(self).obj(r).kind == ObjectKind::Boxed(
                final(self).obj(r).kind->Boxed_0,
            ) && final(self).obj(r).kind->Boxed_0@ == v@,
    {
        match v {
            Value::Object(o) => *o,
            other => {
                let ghost pre = *self;
                let b = other.duplicate();
                let ghost gb = b;
                let r = self.new_boxed(b, Some(ctx.object_proto));
                proof {
                    assert(self.obj(r).kind == ObjectKind::Boxed(gb));
                }
                r
            },
        }
    }
}

impl Heap {
    /// Looks a name up on this object alone: no prototype walk. `None`
    /// lets the caller continue up the chain. A virtual slot invokes its
    /// getter with `this` bound and the `super` depth handed through;
    /// of the getter's failures only thrown values propagate, every
    /// other failure degrades to `undefined`.
    pub fn get_local(
        &mut self,
        o: Object,
        name: &str,
        this: Object,
        depth: u8,
        ctx: &Context,
        fuel: u32,
    ) -> (r: Option<Result<Value, AvmError>>)
        requires
            old(self).wf(),
            old(self).has_obj(o),
            old(self).has_obj(this),
            old(self).spec_valid_ctx(*ctx),
        ensures
            final(self).wf(),
            final(self).grown_from(old(self)),
            final(self).spec_valid_ctx(*ctx),
            match r {
                Some(Ok(v)) => final(self).spec_wf_value(v@),
                Some(Err(e)) => match e@ {
                    crate::error::AvmErrorView::Thrown(v) => final(self).spec_wf_value(v),
                    _ => true,
                },
                None => true,
            },
            match old(self).spec_local_slot(o, name@, ctx.spec_case_sensitive()) {
                LocalSlot::Absent => r is None && *final(self) == *old(self),
                LocalSlot::Stored(v) => r matches Some(Ok(x)) && (r matches Some(Ok(x)) ==> x@
                    == v) && *final(self) == *old(self),
                LocalSlot::Getter(g) => r is Some && (match old(self).obj(g).kind {
                    ObjectKind::Function(NativeFunction::Constant(c)) => fuel >= 1 ==> (r matches Some(
                        Ok(x),
                    ) && (r matches Some(Ok(x)) ==> x@ == c@) && *final(self) == *old(self)),
                    ObjectKind::Function(NativeFunction::Throws(t)) => fuel >= 1 ==> (r matches Some(
                        Err(e),
                    ) && (r matches Some(Err(e)) ==> e@ == crate::error::AvmErrorView::Thrown(t@))
                        && *final(self) == *old(self)),
                    _ => true,
                }),
                LocalSlot::IdNode(_) => r matches Some(Ok(x)) && (r matches Some(Ok(x)) ==> x@
                    is Object),
            },
        decreases fuel, 1int,
    {
        let cs = ctx.is_case_sensitive();
        proof {
            assert(self.spec_wf_obj_at(o.0 as int));
        }
        match &self.objects[o.0].kind {
            ObjectKind::Super(_) => Some(Ok(Value::Undefined)),
            ObjectKind::XmlAttributes(n) => {
                let node = *n;
                match self.xml_attr_lookup(node, name) {
                    Some(s) => Some(Ok(Value::Str(s))),
                    None => None,
                }
            },
            ObjectKind::XmlIdMap(d) => {
                let doc = *d;
                match self.doc_id_lookup(doc, name) {
                    Some(node) => Some(Ok(Value::Object(self.materialize_node(node, ctx)))),
                    None => self.table_get_local(o, name, this, depth, ctx, fuel),
                }
            },
            _ => self.table_get_local(o, name, this, depth, ctx, fuel),
        }
    }

    /// Looks an id up in a document's id map.
    fn doc_id_lookup(&self, d: XmlDocRef, name: &str) -> (r: Option<XmlNodeRef>)
        requires
            self.wf(),
            d.0 < self.xml_doc_seq().len(),
        ensures
            r == Self::spec_doc_id_from(self.xml_doc_seq()[d.0 as int].ids@, name@, 0),
            r is Some ==> (r->0).0 < self.xml_node_seq().len(),
    {
        let ids = &self.xml_docs[d.0].ids;
        let mut i: usize = 0;
        proof {
            assert(self.spec_wf_xml_doc_at(d.0 as int));
        }
        while i < ids.len()
            invariant
                i <= ids@.len(),
                ids@ == self.xml_doc_seq()[d.0 as int].ids@,
                self.spec_wf_xml_doc_at(d.0 as int),
                Self::spec_doc_id_from(ids@, name@, 0) == Self::spec_doc_id_from(
                    ids@,
                    name@,
                    i as int,
                ),
            decreases ids@.len() - i,
        {
            if crate::strings::str_eq(ids[i].0.as_str(), name) {
                return Some(ids[i].1);
            }
            i += 1;
        }
        None
    }

    /// The script object attached to a document node, created on first
    /// use.
    fn materialize_node(&mut self, n: XmlNodeRef, ctx: &Context) -> (r: Object)
        requires
            old(self).wf(),
            n.0 < old(self).xml_node_seq().len(),
            old(self).spec_valid_ctx(*ctx),
        ensures
            final(self).wf(),
            final(self).grown_from(old(self)),
            final(self).spec_valid_ctx(*ctx),
            final(self).has_obj(r),
        decreases 1u32,
    {
        proof {
            assert(self.spec_wf_xml_node_at(n.0 as int));
        }
        let existing = self.xml_nodes[n.0].script_object;
        match existing {
            Some(o) => o,
            None => {
                let o = self.new_object(Some(ctx.object_proto));
                let ghost mid = *self;
                let mut nd = self.xml_nodes.remove(n.0);
                nd.script_object = Some(o);
                let ghost gnd = nd;
                self.xml_nodes.insert(n.0, nd);
                proof {
                    assert(self.xml_node_seq() =~= mid.xml_node_seq().update(n.0 as int, gnd));
                    assert(self.objs() == mid.objs());
                    assert(self.scope_seq() == mid.scope_seq());
                    assert(self.xml_doc_seq() == mid.xml_doc_seq());
                    assert forall|k: int|
                        0 <= k < self.objs().len() implies self.spec_wf_obj_at(k) by {
                        assert(mid.spec_wf_obj_at(k));
                        let dk = self.objs()[k];
                        assert forall|j: int|
                            0 <= j < dk.values.spec_len() implies self.spec_wf_prop(
                            #[trigger] dk.values.spec_val(j),
                        ) by {
                            assert(mid.spec_wf_prop(dk.values.spec_val(j)));
                        };
                        assert forall|j: int| 0 <= j < dk.interfaces@.len() implies self.has_obj(
                            #[trigger] dk.interfaces@[j],
                        ) by {
                            assert(mid.has_obj(dk.interfaces@[j]));
                        };
                        assert forall|j: int| 0 <= j < dk.watchers.spec_len() implies self.has_obj(
                            (#[trigger] dk.watchers.spec_val(j)).callback,
                        ) && self.spec_wf_value(dk.watchers.spec_val(j).user_data@) by {
                            assert(mid.has_obj(dk.watchers.spec_val(j).callback));
                            assert(mid.spec_wf_value(dk.watchers.spec_val(j).user_data@));
                        };
                        assert(mid.spec_wf_kind(dk.kind, k));
                        assert(self.spec_wf_kind(dk.kind, k));
                    };
                    assert forall|k: int|
                        0 <= k < self.scope_seq().len() implies self.spec_wf_scope_at(k) by {
                        assert(mid.spec_wf_scope_at(k));
                    };
                    assert forall|k: int|
                        0 <= k < self.xml_node_seq().len() implies self.spec_wf_xml_node_at(k) by {
                        if k != n.0 as int {
                            assert(mid.spec_wf_xml_node_at(k));
                        }
                    };
                    assert forall|k: int|
                        0 <= k < self.xml_doc_seq().len() implies self.spec_wf_xml_doc_at(k) by {
                        assert(mid.spec_wf_xml_doc_at(k));
                    };
                }
                o
            },
        }
    }

    /// The table path of `get_local`, shared by the plain kinds.
    fn table_get_local(
        &mut self,
        o: Object,
        name: &str,
        this: Object,
        depth: u8,
        ctx: &Context,
        fuel: u32,
    ) -> (r: Option<Result<Value, AvmError>>)
        requires
            old(self).wf(),
            old(self).has_obj(o),
            old(self).has_obj(this),
            old(self).spec_valid_ctx(*ctx),
            !(old(self).obj(o).kind is Super),
            !(old(self).obj(o).kind is XmlAttributes),
        ensures
            final(self).wf(),
            final(self).grown_from(old(self)),
            final(self).spec_valid_ctx(*ctx),
            match r {
                Some(Ok(v)) => final(self).spec_wf_value(v@),
                Some(Err(e)) => match e@ {
                    crate::error::AvmErrorView::Thrown(v) => final(self).spec_wf_value(v),
                    _ => true,
                },
                None => true,
            },
            match old(self).spec_table_slot(o, name@, ctx.spec_case_sensitive()) {
                LocalSlot::Absent => r is None && *final(self) == *old(self),
                LocalSlot::Stored(v) => r matches Some(Ok(x)) && (r matches Some(Ok(x)) ==> x@
                    == v) && *final(self) == *old(self),
                LocalSlot::Getter(g) => r is Some && (match old(self).obj(g).kind {
                    ObjectKind::Function(NativeFunction::Constant(c)) => fuel >= 1 ==> (r matches Some(
                        Ok(x),
                    ) && (r matches Some(Ok(x)) ==> x@ == c@) && *final(self) == *old(self)),
                    ObjectKind::Function(NativeFunction::Throws(t)) => fuel >= 1 ==> (r matches Some(
                        Err(e),
                    ) && (r matches Some(Err(e)) ==> e@ == crate::error::AvmErrorView::Thrown(t@))
                        && *final(self) == *old(self)),
                    _ => true,
                }),
                LocalSlot::IdNode(_) => true,
            },
        decreases fuel, 0int,
    {
        let cs = ctx.is_case_sensitive();
        proof {
            assert(self.spec_wf_obj_at(o.0 as int));
        }
        let found = self.objects[o.0].values.find(name, cs);
        let getter: Object = match found {
            Some(i) => {
                let p = self.objects[o.0].values.val_at(i);
                if !p.is_virtual() {
                    return Some(
                        Ok(
                            match p.data() {
                                Some(v) => v.duplicate(),
                                None => Value::Undefined,
                            },
                        ),
                    );
                }
                match p.getter() {
                    Some(g) => g,
                    None => { return None },
                }
            },
            None => { return None },
        };
        proof {
            assert(self.spec_wf_prop(self.obj(o).values.spec_val(
                self.obj(o).values.spec_find(name@, cs),
            )));
        }
        let nf = match &self.objects[getter.0].kind {
            ObjectKind::Function(nf) => nf.duplicate(),
            _ => { return None },
        };
        proof {
            assert(self.spec_wf_obj_at(getter.0 as int));
        }
        if fuel == 0 {
            // an exhausted budget inside a getter is a non-thrown
            // failure: it degrades to `undefined`
            return Some(Ok(Value::Undefined));
        }
        let empty_args: Vec<Value> = Vec::new();
        let result = self.exec_native(nf, this, &empty_args, ctx, (fuel - 1) as u32);
        let _ = depth;
        match result {
            Ok(v) => Some(Ok(v)),
            Err(e) => {
                if e.is_thrown() {
                    Some(Err(e))
                } else {
                    Some(Ok(Value::Undefined))
                }
            },
        }
    }

    /// Walks `get_local` up the prototype chain from `start`; hands back
    /// the value and the depth at which it was found, for `super`
    /// correctness. A chain longer than the bound is the hard
    /// prototype-recursion error.
    pub fn search_prototype(
        &mut self,
        start: &Value,
        name: &str,
        this: Object,
        ctx: &Context,
        fuel: u32,
    ) -> (r: Result<(Value, u8), AvmError>)
        requires
            old(self).wf(),
            old(self).spec_wf_value(start@),
            old(self).has_obj(this),
            old(self).spec_valid_ctx(*ctx),
        ensures
            final(self).wf(),
            final(self).grown_from(old(self)),
            final(self).spec_valid_ctx(*ctx),
            match r {
                Ok((v, _)) => final(self).spec_wf_value(v@),
                Err(e) => match e@ {
                    crate::error::AvmErrorView::Thrown(v) => final(self).spec_wf_value(v),
                    _ => true,
                },
            },
            match old(self).spec_search(start@, name@, ctx.spec_case_sensitive(), 255) {
                SearchResult::Missing => r is Ok && (r matches Ok((v, d)) ==> v@
                    == ValueView::Undefined && d == 0) && *final(self) == *old(self),
                SearchResult::Limit => r is Err && (r matches Err(e) ==> e@
                    == crate::error::AvmErrorView::PrototypeRecursionLimit) && *final(self) == *old(self),
                SearchResult::Hit { depth, holder, slot } => match slot {
                    LocalSlot::Stored(v) => r is Ok && (r matches Ok((x, d)) ==> x@ == v
                        && d as nat == depth) && *final(self) == *old(self),
                    LocalSlot::Getter(g) => match old(self).obj(g).kind {
                        ObjectKind::Function(NativeFunction::Constant(c)) => fuel >= 1 ==> (r
                            is Ok && (r matches Ok((x, d)) ==> x@ == c@ && d as nat == depth)
                            && *final(self) == *old(self)),
                        ObjectKind::Function(NativeFunction::Throws(t)) => fuel >= 1 ==> (r is Err
                            && (r matches Err(e) ==> e@ == crate::error::AvmErrorView::Thrown(t@))
                            && *final(self) == *old(self)),
                        _ => true,
                    },
                    _ => true,
                },
            },
        decreases fuel, 2int,
    {
        let cs = ctx.is_case_sensitive();
        let mut proto = start.duplicate();
        let mut depth: u8 = 0;
        loop
            invariant
                self.wf(),
                self.spec_wf_value(proto@),
                self.has_obj(this),
                self.spec_valid_ctx(*ctx),
                self.grown_from(old(self)),
                cs == ctx.spec_case_sensitive(),
                *self == *old(self),
                depth <= 255,
                ({
                    let outer = old(self).spec_search(start@, name@, cs, 255);
                    let inner = self.spec_search(proto@, name@, cs, (255 - depth) as nat);
                    match inner {
                        SearchResult::Missing => outer is Missing,
                        SearchResult::Limit => outer is Limit,
                        SearchResult::Hit { depth: d, holder, slot } => outer == (SearchResult::Hit {
                            depth: d + depth as nat,
                            holder,
                            slot,
                        }),
                    }
                }),
            decreases 255 - depth,
        {
            let p = match &proto {
                Value::Object(p) => *p,
                _ => {
                    return Ok((Value::Undefined, 0));
                },
            };
            if depth == 255 {
                return Err(AvmError::PrototypeRecursionLimit);
            }
            let ghost pre = *self;
            let ghost slot_now = self.spec_local_slot(p, name@, cs);
            let local = self.get_local(p, name, this, depth, ctx, fuel);
            match local {
                Some(res) => {
                    match res {
                        Ok(v) => {
                            return Ok((v, depth));
                        },
                        Err(e) => {
                            return Err(e);
                        },
                    }
                },
                None => {},
            }
            proto = self.proto(p);
            depth += 1;
        }
    }

    /// Retrieves a named property from the object or its prototype
    /// chain; the pseudo-property exposing the prototype reference is
    /// answered directly.
    pub fn get(&mut self, o: Object, name: &str, ctx: &Context, fuel: u32) -> (r: Result<
        Value,
        AvmError,
    >)
        requires
            old(self).wf(),
            old(self).has_obj(o),
            old(self).spec_valid_ctx(*ctx),
        ensures
            final(self).wf(),
            final(self).grown_from(old(self)),
            final(self).spec_valid_ctx(*ctx),
            match r {
                Ok(v) => final(self).spec_wf_value(v@),
                Err(e) => match e@ {
                    crate::error::AvmErrorView::Thrown(v) => final(self).spec_wf_value(v),
                    _ => true,
                },
            },
            name@ == "__proto__"@ ==> r is Ok && (r matches Ok(v) ==> v@ == old(self).spec_object_proto(o)) && *final(self) == *old(self),
            name@ != "__proto__"@ ==> match old(self).spec_search(
                ValueView::Object(o),
                name@,
                ctx.spec_case_sensitive(),
                255,
            ) {
                SearchResult::Missing => r is Ok && (r matches Ok(v) ==> v@
                    == ValueView::Undefined) && *final(self) == *old(self),
                SearchResult::Limit => r is Err && (r matches Err(e) ==> e@
                    == crate::error::AvmErrorView::PrototypeRecursionLimit) && *final(self) == *old(self),
                SearchResult::Hit { depth, holder, slot } => match slot {
                    LocalSlot::Stored(v) => r is Ok && (r matches Ok(x) ==> x@ == v) && *final(self) == *old(self),
                    LocalSlot::Getter(g) => match old(self).obj(g).kind {
                        ObjectKind::Function(NativeFunction::Constant(c)) => fuel >= 1 ==> (r
                            is Ok && (r matches Ok(x) ==> x@ == c@) && *final(self) == *old(self)),
                        ObjectKind::Function(NativeFunction::Throws(t)) => fuel >= 1 ==> (r is Err
                            && (r matches Err(e) ==> e@ == crate::error::AvmErrorView::Thrown(t@))
                            && *final(self) == *old(self)),
                        _ => true,
                    },
                    _ => true,
                },
            },
        decreases fuel, 3int,
    {
        if crate::strings::str_eq(name, "__proto__") {
            return Ok(self.proto(o));
        }
        let start = Value::Object(o);
        match self.search_prototype(&start, name, o, ctx, fuel) {
            Ok((v, _)) => Ok(v),
            Err(e) => Err(e),
        }
    }

    /// Retrieves a method and invokes it on this object, the `super`
    /// depth set to where the method was found.
    pub fn call_method(
        &mut self,
        o: Object,
        name: &str,
        depth: u8,
        args: &Vec<Value>,
        ctx: &Context,
        fuel: u32,
    ) -> (r: Result<Value, AvmError>)
        requires
            old(self).wf(),
            old(self).has_obj(o),
            old(self).spec_valid_ctx(*ctx),
            forall|i: int| 0 <= i < args@.len() ==> old(self).spec_wf_value((#[trigger] args@[i])@),
        ensures
            final(self).wf(),
            final(self).grown_from(old(self)),
            final(self).spec_valid_ctx(*ctx),
            match r {
                Ok(v) => final(self).spec_wf_value(v@),
                Err(e) => match e@ {
                    crate::error::AvmErrorView::Thrown(v) => final(self).spec_wf_value(v),
                    _ => true,
                },
            },
            old(self).spec_search(
                old(self).spec_method_search_start(o),
                name@,
                ctx.spec_case_sensitive(),
                255,
            ) is Limit ==> (fuel >= 1 ==> r is Err && (r matches Err(e) ==> e@
                == crate::error::AvmErrorView::PrototypeRecursionLimit) && *final(self) == *old(self)),
            match old(self).spec_method_call_result(o, name@, ctx.spec_case_sensitive()) {
                MethodOutcome::Answers(v) => fuel >= 3 ==> r is Ok && (r matches Ok(x) ==> x@ == v)
                    && *final(self) == *old(self),
                MethodOutcome::Raises(t) => fuel >= 3 ==> r is Err && (r matches Err(e) ==> e@
                    == crate::error::AvmErrorView::Thrown(t)) && *final(self) == *old(self),
                MethodOutcome::Unknown => true,
            },
        decreases fuel, 4int,
    {
        if fuel == 0 {
            return Err(AvmError::ExecutionLimit);
        }
        // a `super` proxy resolves methods from its effective prototype
        // and keeps the original `this`
        let (start, this): (Value, Object) = match &self.objects[o.0].kind {
            ObjectKind::Super(s) => {
                let sd = *s;
                proof {
                    assert(self.spec_wf_obj_at(o.0 as int));
                }
                (self.proto(o), sd.this_ref)
            },
            _ => (Value::Object(o), o),
        };
        let (method, d) = match self.search_prototype(&start, name, this, ctx, (fuel - 1) as u32) {
            Ok(x) => x,
            Err(e) => { return Err(e) },
        };
        let dm: u8 = if d == 0 {
            1
        } else {
            d
        };
        let dd: u8 = if depth as u16 + dm as u16 > 255 {
            255
        } else {
            depth + dm
        };
        match method {
            Value::Object(m) => self.call(m, name, this, dd, args, ctx, (fuel - 1) as u32),
            _ => Ok(Value::Undefined),
        }
    }
}

impl Heap {
    /// How a plain write (no watcher, no setter invocation) changes a
    /// table: the resolved slot is written through `Property::set` with
    /// any setter ignored, or a fresh unflagged stored slot is appended.
    pub open spec fn spec_plain_write(
        t: PropertyMap<Property>,
        nt: PropertyMap<Property>,
        name: Seq<char>,
        cs: bool,
        value: Value,
    ) -> bool {
        let i = t.spec_find(name, cs);
        if i >= 0 {
            &&& nt.spec_len() == t.spec_len()
            &&& (forall|j: int|
                0 <= j < t.spec_len() && j != i ==> nt.spec_entries()[j] == t.spec_entries()[j])
            &&& nt.spec_key(i) == t.spec_key(i)
            &&& nt.spec_val(i).spec_getter() == t.spec_val(i).spec_getter()
            &&& nt.spec_val(i).spec_setter() == t.spec_val(i).spec_setter()
            &&& nt.spec_val(i).spec_attributes() == t.spec_val(i).spec_attributes()
            &&& (if t.spec_val(i).spec_setter() is None && t.spec_val(i).spec_is_overwritable() {
                nt.spec_val(i).spec_data() == Some(value)
            } else {
                crate::property::spec_prop_like(nt.spec_val(i), t.spec_val(i))
            })
        } else {
            &&& nt.spec_len() == t.spec_len() + 1
            &&& nt.spec_entries().subrange(0, t.spec_len() as int) == t.spec_entries()
            &&& nt.spec_key(t.spec_len() as int) == name
            &&& crate::property::spec_is_stored(
                nt.spec_val(t.spec_len() as int),
                value,
                Attribute { dont_enum: false, dont_delete: false, read_only: false },
            )
        }
    }

    /// Whether a write of this name runs no watcher and no setter: no
    /// watcher is installed, and the resolved slot (if any) is not
    /// virtual.
    pub open spec fn spec_clean_write(&self, o: Object, name: Seq<char>, cs: bool) -> bool {
        &&& self.obj(o).watchers.spec_find(name, cs) < 0
        &&& ({
            let t = self.obj(o).values;
            let i = t.spec_find(name, cs);
            i < 0 || t.spec_val(i).spec_setter() is None
        })
    }

    /// Sets a named property on this object alone. The watcher of the
    /// name, where one is installed, runs before storage and may rewrite
    /// the stored value (a throwing watcher stores `undefined` and the
    /// thrown value propagates after the store); the slot's setter,
    /// where the slot is virtual, runs after.
    pub fn set_local(
        &mut self,
        o: Object,
        name: &str,
        value: Value,
        this: Object,
        depth: u8,
        ctx: &Context,
        fuel: u32,
    ) -> (r: Result<(), AvmError>)
        requires
            old(self).wf(),
            old(self).has_obj(o),
            old(self).has_obj(this),
            old(self).spec_wf_value(value@),
            old(self).spec_valid_ctx(*ctx),
        ensures
            final(self).wf(),
            final(self).extends(old(self)),
            final(self).spec_valid_ctx(*ctx),
            match r {
                Ok(_) => true,
                Err(e) => match e@ {
                    crate::error::AvmErrorView::Thrown(v) => final(self).spec_wf_value(v),
                    _ => true,
                },
            },
            old(self).obj(o).kind is Super ==> r is Ok && *final(self) == *old(self),
            (!(old(self).obj(o).kind is Super) && !(old(self).obj(o).kind is XmlAttributes)
                && !(old(self).obj(o).kind is XmlIdMap) && old(self).spec_clean_write(
                o,
                name@,
                ctx.spec_case_sensitive(),
            )) ==> r is Ok && final(self).objs().len() == old(self).objs().len()
                && final(self).grown_except(old(self), o.0 as int) && Self::spec_same_but_values(
                old(self).obj(o),
                final(self).obj(o),
            ) && Self::spec_plain_write(
                old(self).obj(o).values,
                final(self).obj(o).values,
                name@,
                ctx.spec_case_sensitive(),
                value,
            ),
            ({
                // a watcher with a fixed behaviour runs before storage:
                // its answer (or, if it throws, the absent value) is
                // what a plain own slot stores, and its thrown value
                // comes back after the store
                let cs = ctx.spec_case_sensitive();
                let wt = old(self).obj(o).watchers;
                let wi = wt.spec_find(name@, cs);
                let t = old(self).obj(o).values;
                let i = t.spec_find(name@, cs);
                (!(old(self).obj(o).kind is Super) && !(old(self).obj(o).kind is XmlAttributes)
                    && !(old(self).obj(o).kind is XmlIdMap) && wi >= 0 && old(self).has_obj(
                    wt.spec_val(wi).callback,
                ) && i >= 0 && !t.spec_val(i).spec_is_virtual() && t.spec_val(i).spec_setter()
                    is None && fuel >= 2) ==> match old(self).obj(wt.spec_val(wi).callback).kind {
                    ObjectKind::Function(NativeFunction::Constant(c)) => r is Ok && final(self).objs().len() == old(self).objs().len() && final(self).grown_except(
                        old(self),
                        o.0 as int,
                    ) && Self::spec_same_but_values(old(self).obj(o), final(self).obj(o))
                        && Self::spec_slot_written(t, final(self).obj(o).values, name@, cs, c@),
                    ObjectKind::Function(NativeFunction::Throws(tv)) => r is Err && (r matches Err(
                        e,
                    ) ==> e@ == crate::error::AvmErrorView::Thrown(tv@)) && final(self).objs().len() == old(self).objs().len() && final(self).grown_except(
                        old(self),
                        o.0 as int,
                    ) && Self::spec_same_but_values(old(self).obj(o), final(self).obj(o))
                        && Self::spec_slot_written(
                        t,
                        final(self).obj(o).values,
                        name@,
                        cs,
                        ValueView::Undefined,
                    ),
                    _ => true,
                }
            }),
            ({
                // a virtual slot's setter runs after storage (which a
                // setter-bearing slot absorbs without storing); its
                // thrown value propagates
                let cs = ctx.spec_case_sensitive();
                let t = old(self).obj(o).values;
                let i = t.spec_find(name@, cs);
                (!(old(self).obj(o).kind is Super) && !(old(self).obj(o).kind is XmlAttributes)
                    && !(old(self).obj(o).kind is XmlIdMap) && old(self).obj(
                    o,
                ).watchers.spec_find(name@, cs) < 0 && i >= 0 && t.spec_val(i).spec_is_virtual()
                    && t.spec_val(i).spec_setter() is Some && old(self).has_obj(
                    t.spec_val(i).spec_setter()->0,
                ) && fuel >= 2) ==> match old(self).obj(t.spec_val(i).spec_setter()->0).kind {
                    ObjectKind::Function(NativeFunction::Constant(_)) => r is Ok && final(self).objs().len() == old(self).objs().len() && final(self).grown_except(
                        old(self),
                        o.0 as int,
                    ) && Self::spec_same_but_values(old(self).obj(o), final(self).obj(o))
                        && Self::spec_slot_rewritten(t, final(self).obj(o).values, name@, cs),
                    ObjectKind::Function(NativeFunction::Throws(tv)) => r is Err && (r matches Err(
                        e,
                    ) ==> e@ == crate::error::AvmErrorView::Thrown(tv@)) && final(self).objs().len() == old(self).objs().len() && final(self).grown_except(
                        old(self),
                        o.0 as int,
                    ) && Self::spec_same_but_values(old(self).obj(o), final(self).obj(o))
                        && Self::spec_slot_rewritten(t, final(self).obj(o).values, name@, cs),
                    _ => true,
                }
            }),
        decreases fuel, 3int,
    {
        let cs = ctx.is_case_sensitive();
        proof {
            assert(self.spec_wf_obj_at(o.0 as int));
        }
        match &self.objects[o.0].kind {
            ObjectKind::Super(_) => {
                // writes through `super` are discarded
                return Ok(());
            },
            ObjectKind::XmlAttributes(n) => {
                let node = *n;
                if fuel == 0 {
                    return Err(AvmError::ExecutionLimit);
                }
                let text = match self.coerce_to_string(&value, ctx, (fuel - 1) as u32) {
                    Ok(s) => s,
                    Err(e) => { return Err(e) },
                };
                self.xml_set_attr(node, name, text);
                return Ok(());
            },
            _ => {},
        }
        // watcher invocation comes before storage
        let watcher_found = self.objects[o.0].watchers.find(name, cs);
        let mut to_store = value;
        let mut pending: Result<(), AvmError> = Ok(());
        match watcher_found {
            Some(wi) => {
                if fuel == 0 {
                    return Err(AvmError::ExecutionLimit);
                }
                let w = self.objects[o.0].watchers.val_at(wi).duplicate();
                proof {
                    assert(self.obj(o).watchers.spec_val(wi as int).callback == w.callback);
                    let t0 = self.obj(o).values;
                    let i0 = t0.spec_find(name@, cs);
                    if !(self.obj(o).kind is Super) && !(self.obj(o).kind is XmlAttributes) && !(
                    self.obj(o).kind is XmlIdMap) && i0 >= 0 && !t0.spec_val(
                        i0,
                    ).spec_is_virtual() {
                        // a stored own slot makes the lookup a shallow
                        // hit, so the pre-write read cannot fail
                        assert(self.spec_local_slot(o, name@, cs) matches LocalSlot::Stored(_));
                        assert(self.spec_search(
                            ValueView::Object(o),
                            name@,
                            cs,
                            255,
                        ) matches SearchResult::Hit { depth: _, holder: _, slot: LocalSlot::Stored(_) });
                    }
                }
                let old_value = match self.get(o, name, ctx, (fuel - 1) as u32) {
                    Ok(v) => v,
                    Err(e) => { return Err(e) },
                };
                let mut wargs: Vec<Value> = Vec::new();
                wargs.push(Value::Str(String::from_str(name)));
                wargs.push(old_value);
                wargs.push(to_store.duplicate());
                wargs.push(w.user_data);
                match self.call_function(w.callback, this, &wargs, ctx, (fuel - 1) as u32) {
                    Ok(v) => {
                        to_store = v;
                    },
                    Err(e) => {
                        if e.is_thrown() {
                            to_store = Value::Undefined;
                            pending = Err(e);
                        } else {
                            to_store = Value::Undefined;
                        }
                    },
                }
            },
            None => {},
        }
        // storage, through the slot's own write rule
        let ghost pre_store = *self;
        let setter_arg = to_store.duplicate();
        let found = self.objects[o.0].values.find(name, cs);
        let setter: Option<Object> = match found {
            Some(i) => {
                let mut d = self.take_obj(o);
                let mut p = d.values.val_at(i).duplicate();
                let s = p.set(to_store);
                let ghost gp = p;
                d.values.set_val_at(i, p);
                let ghost gd = d;
                self.put_obj(o, d);
                proof {
                    assert(self.objs() =~= pre_store.objs().update(o.0 as int, gd));
                    assert(self.obj(o) == gd);
                    assert(pre_store.spec_wf_obj_at(o.0 as int));
                    assert(pre_store.spec_wf_prop(pre_store.obj(o).values.spec_val(i as int)));
                    assert(self.spec_wf_prop(gp));
                    let t = pre_store.obj(o).values;
                    let nt = self.obj(o).values;
                    assert forall|j: int|
                        0 <= j < t.spec_len() && j != i as int implies #[trigger] nt.spec_entries()[j]
                        == t.spec_entries()[j] by {
                        assert(t.spec_entries().update(
                            i as int,
                            (t.spec_entries()[i as int].0, gp),
                        )[j] == t.spec_entries()[j]);
                    };
                    assert(nt.spec_entries()[i as int] == (t.spec_entries()[i as int].0, gp));
                    assert(nt.spec_len() == t.spec_len());
                    Self::lemma_values_wf_carry(&pre_store, self, o.0 as int, i as int, gp);
                    Self::lemma_obj_wf_values_changed(&pre_store, self, o.0 as int);
                    Self::lemma_wf_after_update(&pre_store, self, o.0 as int);
                }
                s
            },
            None => {
                let p = Property::new_stored(to_store, Attribute::empty());
                let ghost gp = p;
                self.values_insert(o, name, p, cs);
                proof {
                    crate::property_map::lemma_inserted_frame(
                        pre_store.obj(o).values,
                        self.obj(o).values,
                        name@,
                        cs,
                        gp,
                    );
                }
                None
            },
        };
        proof {
            let wt = old(self).obj(o).watchers;
            let wi = wt.spec_find(name@, cs);
            let t = old(self).obj(o).values;
            let i = t.spec_find(name@, cs);
            if !(old(self).obj(o).kind is Super) && !(old(self).obj(o).kind is XmlAttributes)
                && !(old(self).obj(o).kind is XmlIdMap) && wi >= 0 && old(self).has_obj(
                wt.spec_val(wi).callback,
            ) && i >= 0 && !t.spec_val(i).spec_is_virtual() && t.spec_val(i).spec_setter()
                is None && fuel >= 2 && (old(self).obj(
                wt.spec_val(wi).callback,
            ).kind matches ObjectKind::Function(NativeFunction::Constant(_)) || old(self).obj(
                wt.spec_val(wi).callback,
            ).kind matches ObjectKind::Function(NativeFunction::Throws(_))) {
                // a fixed watcher leaves the heap alone, so the write
                // lands on the slot the contract names
                assert(pre_store == *old(self));
                assert(setter is None);
                assert(Self::spec_slot_written(t, self.obj(o).values, name@, cs, to_store@));
                assert(Self::spec_same_but_values(old(self).obj(o), self.obj(o)));
                assert(self.grown_except(old(self), o.0 as int));
            }
        }
        // setter invocation comes after storage
        match setter {
            Some(st) => {
                if fuel == 0 {
                    return Err(AvmError::ExecutionLimit);
                }
                let mut sargs: Vec<Value> = Vec::new();
                sargs.push(setter_arg);
                proof {
                    let t = old(self).obj(o).values;
                    let i = t.spec_find(name@, cs);
                    if !(old(self).obj(o).kind is Super) && !(old(self).obj(o).kind
                        is XmlAttributes) && !(old(self).obj(o).kind is XmlIdMap) && old(self).obj(
                        o,
                    ).watchers.spec_find(name@, cs) < 0 && i >= 0 && t.spec_val(
                        i,
                    ).spec_is_virtual() && t.spec_val(i).spec_setter() is Some && old(
                        self,
                    ).has_obj(t.spec_val(i).spec_setter()->0) && fuel >= 2 {
                        assert(pre_store == *old(self));
                        assert(st == t.spec_val(i).spec_setter()->0);
                        assert(self.obj(st).kind == old(self).obj(st).kind);
                        assert(Self::spec_slot_rewritten(t, self.obj(o).values, name@, cs));
                        assert(Self::spec_same_but_values(old(self).obj(o), self.obj(o)));
                        assert(self.grown_except(old(self), o.0 as int));
                    }
                }
                match self.call_function(st, this, &sargs, ctx, (fuel - 1) as u32) {
                    Ok(_) => {},
                    Err(e) => {
                        if e.is_thrown() {
                            return Err(e);
                        }
                    },
                }
            },
            None => {},
        }
        let _ = depth;
        pending
    }
}

impl Heap {
    /// Writes one attribute of a markup node (replacing the first entry
    /// of that exact name, appending otherwise).
    fn xml_set_attr(&mut self, n: XmlNodeRef, name: &str, text: String)
        requires
            old(self).wf(),
            n.0 < old(self).xml_node_seq().len(),
        ensures
            final(self).wf(),
            final(self).extends(old(self)),
            final(self).objs() == old(self).objs(),
            final(self).scope_seq() == old(self).scope_seq(),
    {
        let mut nd = self.xml_nodes.remove(n.0);
        let mut i: usize = 0;
        let mut replaced = false;
        while i < nd.attributes.len() && !replaced
            invariant
                i <= nd.attributes@.len(),
                nd.script_object == old(self).xml_node_seq()[n.0 as int].script_object,
            decreases nd.attributes@.len() - i,
        {
            if crate::strings::str_eq(nd.attributes[i].0.as_str(), name) {
                let _ = nd.attributes.remove(i);
                replaced = true;
            } else {
                i += 1;
            }
        }
        if replaced {
            nd.attributes.insert(i, (name.to_owned(), text));
        } else {
            nd.attributes.push((name.to_owned(), text));
        }
        let ghost gnd = nd;
        self.xml_nodes.insert(n.0, nd);
        proof {
            assert(self.xml_node_seq() =~= old(self).xml_node_seq().update(n.0 as int, gnd));
            assert(self.objs() == old(self).objs());
            assert forall|k: int| 0 <= k < self.objs().len() implies self.spec_wf_obj_at(k) by {
                assert(old(self).spec_wf_obj_at(k));
                let dk = self.objs()[k];
                assert forall|j: int| 0 <= j < dk.values.spec_len() implies self.spec_wf_prop(
                    #[trigger] dk.values.spec_val(j),
                ) by {
                    assert(old(self).spec_wf_prop(dk.values.spec_val(j)));
                };
                assert forall|j: int| 0 <= j < dk.interfaces@.len() implies self.has_obj(
                    #[trigger] dk.interfaces@[j],
                ) by {
                    assert(old(self).has_obj(dk.interfaces@[j]));
                };
                assert forall|j: int| 0 <= j < dk.watchers.spec_len() implies self.has_obj(
                    (#[trigger] dk.watchers.spec_val(j)).callback,
                ) && self.spec_wf_value(dk.watchers.spec_val(j).user_data@) by {
                    assert(old(self).has_obj(dk.watchers.spec_val(j).callback));
                    assert(old(self).spec_wf_value(dk.watchers.spec_val(j).user_data@));
                };
                assert(old(self).spec_wf_kind(dk.kind, k));
                assert(self.spec_wf_kind(dk.kind, k));
            };
            assert forall|k: int|
                0 <= k < self.scope_seq().len() implies self.spec_wf_scope_at(k) by {
                assert(old(self).spec_wf_scope_at(k));
            };
            assert forall|k: int|
                0 <= k < self.xml_node_seq().len() implies self.spec_wf_xml_node_at(k) by {
                if k != n.0 as int {
                    assert(old(self).spec_wf_xml_node_at(k));
                } else {
                    assert(old(self).spec_wf_xml_node_at(k));
                    assert(self.xml_node_seq()[k].script_object == old(self).xml_node_seq()[k].script_object);
                }
            };
            assert forall|k: int|
                0 <= k < self.xml_doc_seq().len() implies self.spec_wf_xml_doc_at(k) by {
                assert(old(self).spec_wf_xml_doc_at(k));
            };
        }
    }

    /// Invokes no script: where the slot the lookup resolves to is
    /// virtual, writes it through `Property::set` (which stores nothing
    /// on a virtual slot) and hands back its setter for the caller to
    /// run. A `super` proxy forwards to its `this`.
    pub fn call_setter(&mut self, o: Object, name: &str, value: Value, ctx: &Context) -> (r:
        Option<Object>)
        requires
            old(self).wf(),
            old(self).has_obj(o),
            old(self).spec_wf_value(value@),
        ensures
            final(self).wf(),
            final(self).extends(old(self)),
            final(self).objs().len() == old(self).objs().len(),
            match r {
                Some(s) => final(self).has_obj(s),
                None => true,
            },
            !(old(self).obj(o).kind is Super) ==> ({
                let t = old(self).obj(o).values;
                let i = t.spec_find(name@, ctx.spec_case_sensitive());
                if i >= 0 && t.spec_val(i).spec_is_virtual() {
                    &&& r == t.spec_val(i).spec_setter()
                    &&& final(self).objs().len() == old(self).objs().len()
                    &&& final(self).grown_except(old(self), o.0 as int)
                    &&& Self::spec_same_but_values(old(self).obj(o), final(self).obj(o))
                    &&& Self::spec_slot_rewritten(
                        t,
                        final(self).obj(o).values,
                        name@,
                        ctx.spec_case_sensitive(),
                    )
                } else {
                    r is None && *final(self) == *old(self)
                }
            }),
        decreases o.0,
    {
        let cs = ctx.is_case_sensitive();
        proof {
            assert(self.spec_wf_obj_at(o.0 as int));
        }
        match &self.objects[o.0].kind {
            ObjectKind::Super(s) => {
                let t = s.this_ref;
                return self.call_setter(t, name, value, ctx);
            },
            _ => {},
        }
        let found = self.objects[o.0].values.find(name, cs);
        match found {
            Some(i) => {
                let is_virtual = self.objects[o.0].values.val_at(i).is_virtual();
                if !is_virtual {
                    return None;
                }
                let ghost pre_store = *self;
                let mut d = self.take_obj(o);
                let mut p = d.values.val_at(i).duplicate();
                let st = p.set(value);
                let ghost gp = p;
                d.values.set_val_at(i, p);
                let ghost gd = d;
                self.put_obj(o, d);
                proof {
                    assert(self.objs() =~= pre_store.objs().update(o.0 as int, gd));
                    assert(self.obj(o) == gd);
                    assert(pre_store.spec_wf_obj_at(o.0 as int));
                    assert(pre_store.spec_wf_prop(pre_store.obj(o).values.spec_val(i as int)));
                    assert(self.spec_wf_prop(gp));
                    let t = pre_store.obj(o).values;
                    let nt = self.obj(o).values;
                    assert forall|j: int|
                        0 <= j < t.spec_len() && j != i as int implies #[trigger] nt.spec_entries()[j]
                        == t.spec_entries()[j] by {
                        assert(t.spec_entries().update(
                            i as int,
                            (t.spec_entries()[i as int].0, gp),
                        )[j] == t.spec_entries()[j]);
                    };
                    assert(nt.spec_len() == t.spec_len());
                    Self::lemma_values_wf_carry(&pre_store, self, o.0 as int, i as int, gp);
                    Self::lemma_obj_wf_values_changed(&pre_store, self, o.0 as int);
                    Self::lemma_wf_after_update(&pre_store, self, o.0 as int);
                }
                st
            },
            None => None,
        }
    }

    /// Whether some link of the prototype chain (within the bound) has
    /// a virtual own slot for the name: the walk `set` makes before
    /// creating a fresh own property.
    pub open spec fn spec_chain_has_virtual(
        &self,
        v: ValueView,
        name: Seq<char>,
        cs: bool,
        k: nat,
    ) -> bool {
        self.spec_first_virtual(v, name, cs, k) is Some
    }

    /// A write of this name to this object runs no script at all: the
    /// object is a plain table kind, no watcher and no virtual slot of
    /// the name is involved anywhere the write could reach.
    pub open spec fn spec_set_clean(&self, o: Object, name: Seq<char>, cs: bool) -> bool {
        &&& !(self.obj(o).kind is Super)
        &&& !(self.obj(o).kind is XmlAttributes)
        &&& !(self.obj(o).kind is XmlIdMap)
        &&& (self.spec_has_own(o, name, cs) || !self.spec_chain_has_virtual(
            ValueView::Object(o),
            name,
            cs,
            255,
        ))
        &&& self.spec_clean_write(o, name, cs)
    }

    /// The table after a write that the resolved slot absorbed without
    /// storing: every entry as it was (the resolved slot up to string
    /// identity, its accessors and flags exactly kept).
    pub open spec fn spec_slot_rewritten(
        t: PropertyMap<Property>,
        nt: PropertyMap<Property>,
        name: Seq<char>,
        cs: bool,
    ) -> bool {
        let i = t.spec_find(name, cs);
        &&& nt.spec_len() == t.spec_len()
        &&& (forall|j: int|
            0 <= j < t.spec_len() && j != i ==> #[trigger] nt.spec_entries()[j]
                == t.spec_entries()[j])
        &&& (i >= 0 ==> nt.spec_key(i) == t.spec_key(i) && nt.spec_val(i).spec_getter()
            == t.spec_val(i).spec_getter() && nt.spec_val(i).spec_setter() == t.spec_val(
            i,
        ).spec_setter() && nt.spec_val(i).spec_attributes() == t.spec_val(i).spec_attributes()
            && crate::property::spec_prop_like(nt.spec_val(i), t.spec_val(i)))
    }

    /// The table after a write whose resolved slot stored the given
    /// value (by its view): everything else as it was, the slot's
    /// accessors and flags kept, the data stored exactly when the
    /// slot's own rule stores (no setter and not read-only).
    pub open spec fn spec_slot_written(
        t: PropertyMap<Property>,
        nt: PropertyMap<Property>,
        name: Seq<char>,
        cs: bool,
        stored: ValueView,
    ) -> bool {
        let i = t.spec_find(name, cs);
        &&& nt.spec_len() == t.spec_len()
        &&& (forall|j: int|
            0 <= j < t.spec_len() && j != i ==> #[trigger] nt.spec_entries()[j]
                == t.spec_entries()[j])
        &&& (i >= 0 ==> nt.spec_key(i) == t.spec_key(i) && nt.spec_val(i).spec_getter()
            == t.spec_val(i).spec_getter() && nt.spec_val(i).spec_setter() == t.spec_val(
            i,
        ).spec_setter() && nt.spec_val(i).spec_attributes() == t.spec_val(i).spec_attributes()
            && (if t.spec_val(i).spec_setter() is None && t.spec_val(i).spec_is_overwritable() {
            nt.spec_val(i).spec_data() matches Some(d) && d@ == stored
        } else {
            crate::property::spec_prop_like(nt.spec_val(i), t.spec_val(i))
        }))
    }

    /// The setter of a slot is absent or a fixed native behaviour, so
    /// running it changes nothing the contracts track.
    pub open spec fn spec_fixed_setter(&self, setter: Option<Object>) -> bool {
        match setter {
            None => true,
            Some(st) => self.has_obj(st) && (self.obj(st).kind matches ObjectKind::Function(
                NativeFunction::Constant(_),
            ) || self.obj(st).kind matches ObjectKind::Function(NativeFunction::Throws(_))),
        }
    }

    /// Sets a named property on the object or through the chain: an
    /// empty name is ignored; the prototype pseudo-property writes the
    /// prototype; a fresh own property is only created after a walk up
    /// the chain finds no ancestor with a virtual slot of the name - an
    /// ancestor that has one receives the write through its setter
    /// instead. The shadowing walk is bounded; a longer chain is the
    /// hard recursion error.
    pub fn set(&mut self, o: Object, name: &str, value: Value, ctx: &Context, fuel: u32) -> (r:
        Result<(), AvmError>)
        requires
            old(self).wf(),
            old(self).has_obj(o),
            old(self).spec_wf_value(value@),
            old(self).spec_valid_ctx(*ctx),
        ensures
            final(self).wf(),
            final(self).extends(old(self)),
            final(self).spec_valid_ctx(*ctx),
            match r {
                Ok(_) => true,
                Err(e) => match e@ {
                    crate::error::AvmErrorView::Thrown(v) => final(self).spec_wf_value(v),
                    _ => true,
                },
            },
            name@.len() == 0 ==> r is Ok && *final(self) == *old(self),
            name@ == "__proto__"@ ==> r is Ok && final(self).objs().len() == old(self).objs().len() && final(self).grown_except(old(self), o.0 as int) && final(self).obj(
                o,
            ).values == old(self).obj(o).values && final(self).obj(o).watchers == old(self).obj(
                o,
            ).watchers && final(self).obj(o).interfaces == old(self).obj(o).interfaces && final(self).obj(o).kind == old(self).obj(o).kind && final(self).obj(o).prototype@ == (if old(self).obj(o).kind is Super {
                old(self).obj(o).prototype@
            } else {
                value@
            }),
            ({
                let cs = ctx.spec_case_sensitive();
                (fuel >= 1 && name@ != "__proto__"@ && name@.len() != 0 && !old(self).spec_has_own(
                    o,
                    name@,
                    cs,
                ) && old(self).spec_first_virtual(ValueView::Object(o), name@, cs, 255) is Some)
                    ==> r is Ok
            }),
            ({
                let cs = ctx.spec_case_sensitive();
                match old(self).spec_first_virtual(ValueView::Object(o), name@, cs, 255) {
                    Some(anc) => ({
                        let t = old(self).obj(anc).values;
                        let i = t.spec_find(name@, cs);
                        (fuel >= 2 && name@ != "__proto__"@ && name@.len() != 0 && !old(self).spec_has_own(o, name@, cs) && !(old(self).obj(anc).kind is Super) && !(old(self).obj(anc).kind is XmlAttributes) && old(self).spec_fixed_setter(t.spec_val(i).spec_setter())) ==> (r is Ok && final(self).objs().len() == old(self).objs().len() && final(self).grown_except(
                            old(self),
                            anc.0 as int,
                        ) && final(self).obj(o).values == old(self).obj(o).values
                            && Self::spec_same_but_values(old(self).obj(anc), final(self).obj(anc))
                            && Self::spec_slot_rewritten(
                            t,
                            final(self).obj(anc).values,
                            name@,
                            cs,
                        ))
                    }),
                    None => true,
                }
            }),
            (fuel >= 1 && name@ != "__proto__"@ && name@.len() != 0 && old(self).spec_set_clean(
                o,
                name@,
                ctx.spec_case_sensitive(),
            )) ==> ((
            r matches Err(e) ==> e@ == crate::error::AvmErrorView::PrototypeRecursionLimit) && (r
                is Ok ==> final(self).objs().len() == old(self).objs().len() && final(self).grown_except(old(self), o.0 as int) && Self::spec_same_but_values(
                old(self).obj(o),
                final(self).obj(o),
            ) && Self::spec_plain_write(
                old(self).obj(o).values,
                final(self).obj(o).values,
                name@,
                ctx.spec_case_sensitive(),
                value,
            ))),
        decreases fuel, 5int,
    {
        proof {
            reveal_strlit("__proto__");
        }
        if name.unicode_len() == 0 {
            return Ok(());
        }
        if crate::strings::str_eq(name, "__proto__") {
            self.set_proto(o, value);
            return Ok(());
        }
        if fuel == 0 {
            return Err(AvmError::ExecutionLimit);
        }
        let cs = ctx.is_case_sensitive();
        if !self.has_own_property(o, name, ctx) {
            // crawl the chain for virtual setters before creating a
            // fresh own property
            let mut proto = Value::Object(o);
            let mut steps: u16 = 0;
            loop
                invariant
                    self.wf(),
                    self.spec_wf_value(proto@),
                    self.has_obj(o),
                    self.spec_valid_ctx(*ctx),
                    self.spec_wf_value(value@),
                    steps <= 255,
                    cs == ctx.spec_case_sensitive(),
                    *self == *old(self),
                    fuel >= 1,
                    self.spec_first_virtual(ValueView::Object(o), name@, cs, 255)
                        == self.spec_first_virtual(proto@, name@, cs, (255 - steps) as nat),
                    !self.spec_has_own(o, name@, cs),
                    name@ != "__proto__"@,
                    name@.len() != 0,
                ensures
                    *self == *old(self),
                    self.spec_first_virtual(ValueView::Object(o), name@, cs, 255) is None,
                    !self.spec_has_own(o, name@, cs),
                decreases 255 - steps,
            {
                let p = match &proto {
                    Value::Object(p) => *p,
                    _ => {
                        proof {
                            assert(self.spec_first_virtual(proto@, name@, cs, (255 - steps) as nat)
                                is None);
                        }
                        break ;
                    },
                };
                if steps == 255 {
                    proof {
                        assert(self.spec_first_virtual(proto@, name@, cs, 0) is None);
                    }
                    return Err(AvmError::PrototypeRecursionLimit);
                }
                if self.has_own_virtual(p, name, ctx) {
                    proof {
                        // the walk's hit is exactly the nearest virtual
                        // ancestor, and (having an own slot) it is not
                        // the starting object itself
                        assert(self.spec_first_virtual(proto@, name@, cs, (255 - steps) as nat)
                            == Some(p));
                        if !(self.obj(p).kind is Super) && !(self.obj(p).kind is XmlAttributes) {
                            assert(self.spec_has_own(p, name@, cs));
                            assert(p != o);
                        }
                    }
                    let ghost mid0 = *self;
                    let setter = self.call_setter(p, name, value.duplicate(), ctx);
                    let ghost mid1 = *self;
                    match setter {
                        Some(st) => {
                            // every failure of a shadowing setter is
                            // swallowed, thrown values included
                            let mut sargs: Vec<Value> = Vec::new();
                            sargs.push(value.duplicate());
                            proof {
                                if !(mid0.obj(p).kind is Super) && mid0.spec_fixed_setter(
                                    mid0.obj(p).values.spec_val(
                                        mid0.obj(p).values.spec_find(name@, cs),
                                    ).spec_setter(),
                                ) {
                                    assert(mid1.obj(st).kind == mid0.obj(st).kind);
                                }
                            }
                            let _ = self.call_function(st, o, &sargs, ctx, (fuel - 1) as u32);
                        },
                        None => {},
                    }
                    return Ok(());
                }
                proto = self.proto(p);
                steps += 1;
            }
            self.set_local(o, name, value, o, 0, ctx, (fuel - 1) as u32)
        } else {
            self.set_local(o, name, value, o, 0, ctx, (fuel - 1) as u32)
        }
    }
}

/// The character sequences of a vector of strings.
pub open spec fn spec_strs_view(v: Seq<String>) -> Seq<Seq<char>> {
    Seq::new(v.len(), |i: int| v[i]@)
}

impl Heap {
    /// The names of the enumerable entries of a table from `i` on, in
    /// insertion order.
    pub open spec fn spec_enum_keys_from(t: Seq<(String, Property)>, i: int) -> Seq<Seq<char>>
        decreases t.len() - i,
    {
        if i < 0 || i >= t.len() {
            Seq::empty()
        } else if t[i].1.spec_is_enumerable() {
            seq![t[i].0@] + Self::spec_enum_keys_from(t, i + 1)
        } else {
            Self::spec_enum_keys_from(t, i + 1)
        }
    }

    /// The attribute names of a markup node from `i` on.
    pub open spec fn spec_attr_names_from(attrs: Seq<(String, String)>, i: int) -> Seq<Seq<char>>
        decreases attrs.len() - i,
    {
        if i < 0 || i >= attrs.len() {
            Seq::empty()
        } else {
            seq![attrs[i].0@] + Self::spec_attr_names_from(attrs, i + 1)
        }
    }

    /// The prototype keys from `i` on that the object's own table does
    /// not shadow.
    pub open spec fn spec_filter_keys(
        &self,
        pk: Seq<Seq<char>>,
        o: Object,
        cs: bool,
        i: int,
    ) -> Seq<Seq<char>>
        decreases pk.len() - i,
    {
        if i < 0 || i >= pk.len() {
            Seq::empty()
        } else if self.obj(o).values.spec_contains(pk[i], cs) {
            self.spec_filter_keys(pk, o, cs, i + 1)
        } else {
            seq![pk[i]] + self.spec_filter_keys(pk, o, cs, i + 1)
        }
    }

    /// What enumerating a value yields, within the chain bound:
    /// prototype keys come first, minus any the object's own table
    /// shadows, then the own enumerable keys in insertion order. A
    /// `super` proxy enumerates nothing; the attribute proxy appends its
    /// node's attribute names.
    pub open spec fn spec_keys(&self, v: ValueView, cs: bool, k: nat) -> Seq<Seq<char>>
        decreases k,
    {
        match v {
            ValueView::Object(o) => if !self.has_obj(o) || k == 0 {
                Seq::empty()
            } else {
                match self.obj(o).kind {
                    ObjectKind::Super(_) => Seq::empty(),
                    ObjectKind::XmlAttributes(n) => {
                        let pk = self.spec_keys(self.obj(o).prototype@, cs, (k - 1) as nat);
                        self.spec_filter_keys(pk, o, cs, 0) + Self::spec_enum_keys_from(
                            self.obj(o).values.spec_entries(),
                            0,
                        ) + (if n.0 < self.xml_node_seq().len() {
                            Self::spec_attr_names_from(
                                self.xml_node_seq()[n.0 as int].attributes@,
                                0,
                            )
                        } else {
                            Seq::empty()
                        })
                    },
                    _ => {
                        let pk = self.spec_keys(self.obj(o).prototype@, cs, (k - 1) as nat);
                        self.spec_filter_keys(pk, o, cs, 0) + Self::spec_enum_keys_from(
                            self.obj(o).values.spec_entries(),
                            0,
                        )
                    },
                }
            },
            _ => Seq::empty(),
        }
    }

    /// Enumerates a value's keys, within the chain bound.
    fn keys_bounded(&self, v: &Value, ctx: &Context, k: u32) -> (r: Vec<String>)
        requires
            self.wf(),
            self.spec_wf_value(v@),
        ensures
            spec_strs_view(r@) == self.spec_keys(v@, ctx.spec_case_sensitive(), k as nat),
        decreases k,
    {
        let cs = ctx.is_case_sensitive();
        let o: Object = match v {
            Value::Object(o) => *o,
            _ => {
                let r: Vec<String> = Vec::new();
                proof {
                    assert(spec_strs_view(r@) =~= self.spec_keys(v@, cs, k as nat));
                }
                return r;
            },
        };
        if k == 0 {
            let r: Vec<String> = Vec::new();
            proof {
                assert(spec_strs_view(r@) =~= self.spec_keys(v@, cs, k as nat));
            }
            return r;
        }
        proof {
            assert(self.spec_wf_obj_at(o.0 as int));
        }
        if matches!(&self.objects[o.0].kind, ObjectKind::Super(_)) {
            let r: Vec<String> = Vec::new();
            proof {
                assert(spec_strs_view(r@) =~= self.spec_keys(v@, cs, k as nat));
            }
            return r;
        }
        let proto_v = self.objects[o.0].prototype.duplicate();
        let pk = self.keys_bounded(&proto_v, ctx, k - 1);
        let ghost pks = spec_strs_view(pk@);
        let mut out: Vec<String> = Vec::new();
        let mut i: usize = 0;
        proof {
            assert(spec_strs_view(out@) =~= Seq::<Seq<char>>::empty());
        }
        while i < pk.len()
            invariant
                self.wf(),
                self.has_obj(o),
                i <= pk@.len(),
                cs == ctx.spec_case_sensitive(),
                pks == spec_strs_view(pk@),
                self.spec_filter_keys(pks, o, cs, 0) == spec_strs_view(out@)
                    + self.spec_filter_keys(pks, o, cs, i as int),
            decreases pk@.len() - i,
        {
            let ghost pre_out = out@;
            if !self.objects[o.0].values.contains_key(pk[i].as_str(), cs) {
                out.push(pk[i].clone());
                proof {
                    assert(spec_strs_view(out@) =~= spec_strs_view(pre_out) + seq![pks[i as int]]);
                }
            }
            proof {
                assert(spec_strs_view(out@) + self.spec_filter_keys(pks, o, cs, i + 1)
                    =~= spec_strs_view(pre_out) + self.spec_filter_keys(pks, o, cs, i as int));
            }
            i += 1;
        }
        proof {
            assert(self.spec_filter_keys(pks, o, cs, pks.len() as int) =~= Seq::<Seq<char>>::empty());
            assert(spec_strs_view(out@) =~= self.spec_filter_keys(pks, o, cs, 0));
        }
        let ghost filtered = spec_strs_view(out@);
        let n_own = self.objects[o.0].values.len();
        let mut j: usize = 0;
        while j < n_own
            invariant
                self.wf(),
                self.has_obj(o),
                j <= self.obj(o).values.spec_len(),
                n_own == self.obj(o).values.spec_len(),
                filtered + Self::spec_enum_keys_from(self.obj(o).values.spec_entries(), 0)
                    == spec_strs_view(out@) + Self::spec_enum_keys_from(
                    self.obj(o).values.spec_entries(),
                    j as int,
                ),
            decreases n_own - j,
        {
            let ghost pre_out = out@;
            let enumerable = self.objects[o.0].values.val_at(j).is_enumerable();
            if enumerable {
                let key = self.objects[o.0].values.key_at(j).clone();
                out.push(key);
                proof {
                    assert(spec_strs_view(out@) =~= spec_strs_view(pre_out) + seq![self.obj(
                        o,
                    ).values.spec_key(j as int)]);
                }
            }
            proof {
                assert(spec_strs_view(out@) + Self::spec_enum_keys_from(
                    self.obj(o).values.spec_entries(),
                    j + 1,
                ) =~= spec_strs_view(pre_out) + Self::spec_enum_keys_from(
                    self.obj(o).values.spec_entries(),
                    j as int,
                ));
            }
            j += 1;
        }
        proof {
            assert(Self::spec_enum_keys_from(self.obj(o).values.spec_entries(), n_own as int)
                =~= Seq::<Seq<char>>::empty());
        }
        match &self.objects[o.0].kind {
            ObjectKind::XmlAttributes(nref) => {
                let node = *nref;
                let ghost base = spec_strs_view(out@);
                let n_attr = self.xml_nodes[node.0].attributes.len();
                let mut a: usize = 0;
                while a < n_attr
                    invariant
                        self.wf(),
                        node.0 < self.xml_node_seq().len(),
                        a <= self.xml_node_seq()[node.0 as int].attributes@.len(),
                        n_attr == self.xml_node_seq()[node.0 as int].attributes@.len(),
                        base + Self::spec_attr_names_from(
                            self.xml_node_seq()[node.0 as int].attributes@,
                            0,
                        ) == spec_strs_view(out@) + Self::spec_attr_names_from(
                            self.xml_node_seq()[node.0 as int].attributes@,
                            a as int,
                        ),
                    decreases n_attr - a,
                {
                    let ghost pre_out = out@;
                    let key = self.xml_nodes[node.0].attributes[a].0.clone();
                    out.push(key);
                    proof {
                        assert(spec_strs_view(out@) =~= spec_strs_view(pre_out) + seq![self.xml_node_seq()[node.0 as int].attributes@[a as int].0@]);
                        assert(spec_strs_view(out@) + Self::spec_attr_names_from(
                            self.xml_node_seq()[node.0 as int].attributes@,
                            a + 1,
                        ) =~= spec_strs_view(pre_out) + Self::spec_attr_names_from(
                            self.xml_node_seq()[node.0 as int].attributes@,
                            a as int,
                        ));
                    }
                    a += 1;
                }
                proof {
                    assert(Self::spec_attr_names_from(
                        self.xml_node_seq()[node.0 as int].attributes@,
                        n_attr as int,
                    ) =~= Seq::<Seq<char>>::empty());
                    assert(spec_strs_view(out@) =~= self.spec_keys(v@, cs, k as nat));
                }
            },
            _ => {
                proof {
                    assert(spec_strs_view(out@) =~= self.spec_keys(v@, cs, k as nat));
                }
            },
        }
        out
    }

    /// Enumerates the object: prototype keys first (minus any its own
    /// table shadows), then its own enumerable keys in insertion order.
    pub fn get_keys(&self, o: Object, ctx: &Context) -> (r: Vec<String>)
        requires
            self.wf(),
            self.has_obj(o),
        ensures
            spec_strs_view(r@) == self.spec_keys(
                ValueView::Object(o),
                ctx.spec_case_sensitive(),
                255,
            ),
    {
        let v = Value::Object(o);
        self.keys_bounded(&v, ctx, 255)
    }
}

impl Heap {
    /// Whether this object sits on the prototype chain of `other`,
    /// within the chain bound, each step taken as the object answers it.
    pub open spec fn spec_in_proto_chain(&self, me: Object, v: ValueView, k: nat) -> bool
        decreases k,
    {
        match v {
            ValueView::Object(p) => if k == 0 || !self.has_obj(p) {
                false
            } else {
                p == me || self.spec_in_proto_chain(me, self.spec_object_proto(p), (k - 1) as nat)
            },
            _ => false,
        }
    }

    /// Whether this object is on the prototype chain of `other`.
    pub fn is_prototype_of(&self, me: Object, other: Object) -> (r: bool)
        requires
            self.wf(),
            self.has_obj(me),
            self.has_obj(other),
        ensures
            r == self.spec_in_proto_chain(me, self.spec_object_proto(other), 255),
    {
        let mut proto = self.proto(other);
        let mut k: u32 = 255;
        loop
            invariant
                self.wf(),
                self.spec_wf_value(proto@),
                k <= 255,
                self.spec_in_proto_chain(me, self.spec_object_proto(other), 255)
                    == self.spec_in_proto_chain(me, proto@, k as nat),
            decreases k,
        {
            let p = match &proto {
                Value::Object(p) => *p,
                _ => {
                    return false;
                },
            };
            if k == 0 {
                return false;
            }
            if p.0 == me.0 {
                return true;
            }
            proto = self.proto(p);
            k -= 1;
        }
    }

    /// The depth-first instance check over the prototype chain and, at
    /// or above the version that introduced interfaces, each node's
    /// interface list (a graph search with a bounded work budget; an
    /// exhausted budget is the hard recursion error).
    pub fn is_instance_of(
        &mut self,
        o: Object,
        constructor: Object,
        prototype: Object,
        ctx: &Context,
        fuel: u32,
    ) -> (r: Result<bool, AvmError>)
        requires
            old(self).wf(),
            old(self).has_obj(o),
            old(self).has_obj(constructor),
            old(self).has_obj(prototype),
            old(self).spec_valid_ctx(*ctx),
        ensures
            final(self).wf(),
            final(self).grown_from(old(self)),
            final(self).spec_valid_ctx(*ctx),
            ctx.swf_version < 7 && fuel >= 1 ==> (r matches Ok(b) ==> b == old(self).spec_in_proto_chain(prototype, old(self).spec_object_proto(o), 255)) && *final(self)
                == *old(self),
        decreases fuel,
    {
        if fuel == 0 {
            return Err(AvmError::ExecutionLimit);
        }
        if ctx.swf_version < 7 {
            // interfaces do not exist in the older dialect, so only
            // the plain prototype chain is walked
            let mut proto = self.proto(o);
            let mut k: u32 = 255;
            loop
                invariant
                    self.wf(),
                    *self == *old(self),
                    self.spec_valid_ctx(*ctx),
                    self.spec_wf_value(proto@),
                    k <= 255,
                    self.has_obj(prototype),
                    self.has_obj(o),
                    self.spec_in_proto_chain(prototype, self.spec_object_proto(o), 255)
                        == self.spec_in_proto_chain(prototype, proto@, k as nat),
                decreases k,
            {
                let p = match &proto {
                    Value::Object(p) => *p,
                    _ => {
                        return Ok(false);
                    },
                };
                if k == 0 {
                    return Err(AvmError::PrototypeRecursionLimit);
                }
                if Object::ptr_eq(p, prototype) {
                    return Ok(true);
                }
                proto = self.proto(p);
                k -= 1;
            }
        }
        let mut stack: Vec<Object> = Vec::new();
        match self.proto(o) {
            Value::Object(p) => {
                stack.push(p);
            },
            _ => {},
        }
        let mut budget: u32 = 1024;
        loop
            invariant
                self.wf(),
                self.grown_from(old(self)),
                self.spec_valid_ctx(*ctx),
                self.has_obj(constructor),
                self.has_obj(prototype),
                fuel >= 1,
                ctx.swf_version >= 7,
                forall|i: int| 0 <= i < stack@.len() ==> self.has_obj(#[trigger] stack@[i]),
            decreases budget,
        {
            let this_proto = match stack.pop() {
                Some(p) => p,
                None => {
                    return Ok(false);
                },
            };
            if Object::ptr_eq(this_proto, prototype) {
                return Ok(true);
            }
            if budget == 0 {
                return Err(AvmError::PrototypeRecursionLimit);
            }
            budget -= 1;
            match self.proto(this_proto) {
                Value::Object(p) => {
                    stack.push(p);
                },
                _ => {},
            }
            if ctx.swf_version >= 7 {
                let ifaces = self.interfaces(this_proto);
                let mut i: usize = 0;
                proof {
                    assert(self.spec_wf_obj_at(this_proto.0 as int));
                    assert forall|j: int| 0 <= j < ifaces@.len() implies self.has_obj(
                        #[trigger] ifaces@[j],
                    ) by {
                        assert(self.has_obj(self.obj(this_proto).interfaces@[j]));
                    };
                }
                while i < ifaces.len()
                    invariant
                        self.wf(),
                        self.grown_from(old(self)),
                        self.spec_valid_ctx(*ctx),
                        self.has_obj(constructor),
                        self.has_obj(prototype),
                        fuel >= 1,
                        ctx.swf_version >= 7,
                        i <= ifaces@.len(),
                        forall|j: int| 0 <= j < ifaces@.len() ==> self.has_obj(#[trigger] ifaces@[j]),
                        forall|j: int| 0 <= j < stack@.len() ==> self.has_obj(#[trigger] stack@[j]),
                    decreases ifaces@.len() - i,
                {
                    let interface = ifaces[i];
                    if Object::ptr_eq(interface, constructor) {
                        return Ok(true);
                    }
                    match self.get(interface, "prototype", ctx, (fuel - 1) as u32) {
                        Ok(Value::Object(p)) => {
                            stack.push(p);
                        },
                        Ok(_) => {},
                        Err(e) => {
                            return Err(e);
                        },
                    }
                    i += 1;
                }
            }
        }
    }

    /// The first step of construction: a bare object whose prototype is
    /// this object (the constructor body runs against it afterwards). A
    /// `super` proxy forwards to its effective prototype.
    pub fn create_bare_object(&mut self, o: Object, ctx: &Context) -> (r: Object)
        requires
            old(self).wf(),
            old(self).has_obj(o),
            old(self).spec_valid_ctx(*ctx),
        ensures
            final(self).wf(),
            final(self).grown_from(old(self)),
            final(self).spec_valid_ctx(*ctx),
            final(self).has_obj(r),
            !(old(self).obj(o).kind is Super) ==> final(self).obj(r).kind is Plain && final(self).obj(r).prototype@ == ValueView::Object(o) && final(self).obj(r).values.spec_len()
                == 0,
    {
        match &self.objects[o.0].kind {
            ObjectKind::Super(_) => {
                let sp = self.proto(o);
                match sp {
                    Value::Object(p) => self.new_object(Some(p)),
                    _ => self.new_object(Some(ctx.object_proto)),
                }
            },
            _ => self.new_object(Some(o)),
        }
    }

    /// The default construction protocol: an object that is not
    /// function-like constructs nothing.
    pub fn construct(&mut self, o: Object, args: &Vec<Value>, ctx: &Context) -> (r: Result<
        Value,
        AvmError,
    >)
        requires
            old(self).wf(),
            old(self).has_obj(o),
            old(self).spec_valid_ctx(*ctx),
        ensures
            final(self).wf(),
            *final(self) == *old(self),
            r is Ok && r->Ok_0@ == ValueView::Undefined,
    {
        let _ = args;
        let _ = ctx;
        Ok(Value::Undefined)
    }

    /// Performing the default constructor on an existing object changes
    /// nothing.
    pub fn construct_on_existing(
        &mut self,
        o: Object,
        this: Object,
        args: &Vec<Value>,
        ctx: &Context,
    ) -> (r: Result<(), AvmError>)
        requires
            old(self).wf(),
            old(self).has_obj(o),
            old(self).has_obj(this),
            old(self).spec_valid_ctx(*ctx),
        ensures
            final(self).wf(),
            *final(self) == *old(self),
            r is Ok,
    {
        let _ = args;
        let _ = ctx;
        Ok(())
    }

    /// The length of the object as an array: its `length` data
    /// property, numerically coerced.
    pub fn length(&mut self, o: Object, ctx: &Context, fuel: u32) -> (r: Result<i32, AvmError>)
        requires
            old(self).wf(),
            old(self).has_obj(o),
            old(self).spec_valid_ctx(*ctx),
        ensures
            final(self).wf(),
            final(self).grown_from(old(self)),
            final(self).spec_valid_ctx(*ctx),
            !(old(self).spec_get_data(o, "length"@, ctx.spec_case_sensitive()) is Object) ==> r
                is Ok && (r matches Ok(n) ==> n as int == ({
                let w = crate::number::spec_trunc(
                    crate::value::spec_primitive_as_number(
                        old(self).spec_get_data(o, "length"@, ctx.spec_case_sensitive()),
                        ctx.swf_version,
                    ),
                ) % 0x1_0000_0000;
                if w < 0x8000_0000 {
                    w
                } else {
                    w - 0x1_0000_0000
                }
            })) && *final(self) == *old(self),
        decreases fuel,
    {
        let v = self.get_data(o, "length", ctx);
        self.coerce_to_i32(&v, ctx, fuel)
    }

    /// Sets the object's `length` data property.
    pub fn set_length(&mut self, o: Object, new_length: i32, ctx: &Context) -> (r: Result<
        (),
        AvmError,
    >)
        requires
            old(self).wf(),
            old(self).has_obj(o),
            old(self).spec_valid_ctx(*ctx),
        ensures
            final(self).wf(),
            final(self).extends(old(self)),
            final(self).spec_valid_ctx(*ctx),
            r is Ok,
            final(self).spec_values_op(old(self), o),
            Self::spec_plain_write(
                old(self).obj(o).values,
                final(self).obj(o).values,
                "length"@,
                ctx.spec_case_sensitive(),
                Value::Number(crate::number::spec_double_of_int(new_length as int)),
            ),
    {
        let bits = crate::number::from_i32_bits(new_length);
        self.set_data(o, "length", Value::Number(bits), ctx);
        Ok(())
    }

    /// Whether the object has an own property named by the index.
    pub fn has_element(&self, o: Object, index: i32, ctx: &Context) -> (r: bool)
        requires
            self.wf(),
            self.has_obj(o),
        ensures
            r == self.spec_has_own(
                o,
                crate::number::spec_i32_text(index as int),
                ctx.spec_case_sensitive(),
            ),
    {
        let name = crate::number::i32_to_string(index);
        self.has_own_property(o, name.as_str(), ctx)
    }

    /// Reads the indexed element as a side-effect-free data read.
    pub fn get_element(&self, o: Object, index: i32, ctx: &Context) -> (r: Value)
        requires
            self.wf(),
            self.has_obj(o),
        ensures
            r@ == self.spec_get_data(
                o,
                crate::number::spec_i32_text(index as int),
                ctx.spec_case_sensitive(),
            ),
            self.spec_wf_value(r@),
    {
        let name = crate::number::i32_to_string(index);
        self.get_data(o, name.as_str(), ctx)
    }

    /// Writes the indexed element as a data write.
    pub fn set_element(&mut self, o: Object, index: i32, value: Value, ctx: &Context) -> (r:
        Result<(), AvmError>)
        requires
            old(self).wf(),
            old(self).has_obj(o),
            old(self).spec_wf_value(value@),
            old(self).spec_valid_ctx(*ctx),
        ensures
            final(self).wf(),
            final(self).extends(old(self)),
            final(self).spec_valid_ctx(*ctx),
            r is Ok,
            final(self).spec_values_op(old(self), o),
            Self::spec_plain_write(
                old(self).obj(o).values,
                final(self).obj(o).values,
                crate::number::spec_i32_text(index as int),
                ctx.spec_case_sensitive(),
                value,
            ),
    {
        let name = crate::number::i32_to_string(index);
        self.set_data(o, name.as_str(), value, ctx);
        Ok(())
    }

    /// Deletes the indexed element.
    pub fn delete_element(&mut self, o: Object, index: i32, ctx: &Context) -> (r: bool)
        requires
            old(self).wf(),
            old(self).has_obj(o),
        ensures
            final(self).wf(),
            final(self).extends(old(self)),
            final(self).spec_values_op(old(self), o),
            old(self).obj(o).kind is Super ==> !r && *final(self) == *old(self),
            !(old(self).obj(o).kind is Super) ==> ({
                let t = old(self).obj(o).values;
                let i = t.spec_find(
                    crate::number::spec_i32_text(index as int),
                    ctx.spec_case_sensitive(),
                );
                if i >= 0 && t.spec_val(i).spec_can_delete() {
                    r && final(self).obj(o).values.spec_entries() == t.spec_entries().remove(i)
                } else {
                    !r && final(self).obj(o).values.spec_entries() == t.spec_entries()
                }
            }),
    {
        let name = crate::number::i32_to_string(index);
        self.delete(o, name.as_str(), ctx)
    }
}

/// What a lookup on one object alone answers, before any getter runs.
pub enum LocalSlot {
    /// The object does not answer; the caller walks on up the chain.
    Absent,
    /// Plain data (also what a `super` proxy and the attribute proxy
    /// answer).
    Stored(ValueView),
    /// A virtual slot: this getter is to be invoked.
    Getter(Object),
    /// The id-map proxy answers with this document node, whose script
    /// object is materialised on demand.
    IdNode(XmlNodeRef),
}

/// Where a prototype-chain search ends.
pub enum SearchResult {
    /// The chain ended without an answer.
    Missing,
    /// The chain outran the recursion bound.
    Limit,
    /// An object answered, `depth` raw steps from the start.
    Hit { depth: nat, holder: Object, slot: LocalSlot },
}

/// What a method invocation is bound to answer, as far as the chain and
/// the closed native behaviours determine it.
pub enum MethodOutcome {
    /// The method resolution or behaviour is beyond the contracts (a
    /// getter on the way, a scripted callable, a chain past the bound).
    Unknown,
    /// The invocation answers this value (also the degraded answer for
    /// a missing or non-callable method).
    Answers(ValueView),
    /// The invocation propagates this thrown value.
    Raises(ValueView),
}

impl Heap {
    /// Where a method call on this object resolves from: a `super`
    /// proxy resolves from its effective prototype, everything else
    /// from itself.
    pub open spec fn spec_method_search_start(&self, o: Object) -> ValueView {
        if self.obj(o).kind is Super {
            self.spec_object_proto(o)
        } else {
            ValueView::Object(o)
        }
    }

    /// The outcome a method call is bound to, where the chain pins it:
    /// a missing or non-object method degrades to `undefined`; a stored
    /// constant-returning native answers its value; a stored throwing
    /// native raises its value; anything else is beyond the contract.
    pub open spec fn spec_method_call_result(&self, o: Object, name: Seq<char>, cs: bool) -> MethodOutcome {
        match self.spec_search(self.spec_method_search_start(o), name, cs, 255) {
            SearchResult::Missing => MethodOutcome::Answers(ValueView::Undefined),
            SearchResult::Hit { slot: LocalSlot::Stored(v), .. } => match v {
                ValueView::Object(m) => if self.has_obj(m) {
                    match self.obj(m).kind {
                        ObjectKind::Function(NativeFunction::Constant(c)) => MethodOutcome::Answers(
                            c@,
                        ),
                        ObjectKind::Function(NativeFunction::Throws(t)) => MethodOutcome::Raises(
                            t@,
                        ),
                        _ => MethodOutcome::Unknown,
                    }
                } else {
                    MethodOutcome::Unknown
                },
                _ => MethodOutcome::Answers(ValueView::Undefined),
            },
            _ => MethodOutcome::Unknown,
        }
    }

    /// The primitive a value is bound to reduce to, where the chain
    /// pins it: a primitive is itself; an object reduces per its
    /// `valueOf` outcome.
    pub open spec fn spec_to_primitive_outcome(&self, v: ValueView, cs: bool) -> MethodOutcome {
        match v {
            ValueView::Object(o) => self.spec_method_call_result(o, "valueOf"@, cs),
            other => MethodOutcome::Answers(other),
        }
    }

    /// The nearest link of the prototype chain (within the bound) with
    /// a virtual own slot for the name: the ancestor an unqualified
    /// write is redirected to.
    pub open spec fn spec_first_virtual(
        &self,
        v: ValueView,
        name: Seq<char>,
        cs: bool,
        k: nat,
    ) -> Option<Object>
        decreases k,
    {
        match v {
            ValueView::Object(o) => if !self.has_obj(o) || k == 0 {
                None
            } else if self.spec_has_own_virtual(o, name, cs) {
                Some(o)
            } else {
                self.spec_first_virtual(self.spec_object_proto(o), name, cs, (k - 1) as nat)
            },
            _ => None,
        }
    }
}

} // verus!
