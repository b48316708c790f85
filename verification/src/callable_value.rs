//! The result of identifier resolution: a value together with the
//! object that owns it, so that an unqualified call binds `this` to the
//! owner rather than to the global object.
use crate::error::AvmError;
use crate::heap::{Context, Heap};
use crate::object::Object;
use crate::value::Value;
use vstd::prelude::*;

verus! {

/// A resolved value, with the owner to bind as `this` where one is
/// known.
pub enum CallableValue {
    /// No owner is known; a call binds the caller's default `this`.
    UnCallable(Value),
    /// The value and the object resolution found it on.
    Callable(Object, Value),
}

impl CallableValue {
    /// The bare value, the owner forgotten.
    pub fn into_value(self) -> (r: Value)
        ensures
            match self {
                CallableValue::UnCallable(v) => r@ == v@,
                CallableValue::Callable(_, v) => r@ == v@,
            },
    {
        match self {
            CallableValue::UnCallable(v) => v,
            CallableValue::Callable(_, v) => v,
        }
    }

    /// Calls the value as a function, binding `this` to the owner where
    /// resolution found one and to the given default otherwise; a
    /// non-object value is not callable and answers `undefined`.
    pub fn call_with_default_this(
        self,
        heap: &mut Heap,
        default_this: Object,
        name: &str,
        depth: u8,
        args: &Vec<Value>,
        ctx: &Context,
        fuel: u32,
    ) -> (r: Result<Value, AvmError>)
        requires
            old(heap).wf(),
            old(heap).has_obj(default_this),
            old(heap).spec_valid_ctx(*ctx),
            match self {
                CallableValue::UnCallable(v) => old(heap).spec_wf_value(v@),
                CallableValue::Callable(t, v) => old(heap).has_obj(t) && old(heap).spec_wf_value(
                    v@,
                ),
            },
            forall|i: int| 0 <= i < args@.len() ==> old(heap).spec_wf_value((#[trigger] args@[i])@),
        ensures
            final(heap).wf(),
            final(heap).grown_from(old(heap)),
            final(heap).spec_valid_ctx(*ctx),
            ({
                let v = match self {
                    CallableValue::UnCallable(v) => v,
                    CallableValue::Callable(_, v) => v,
                };
                !(v@ is Object) ==> r is Ok && (r matches Ok(x) ==> x@
                    == crate::value::ValueView::Undefined) && *final(heap) == *old(heap)
            }),
            ({
                let v = match self {
                    CallableValue::UnCallable(v) => v,
                    CallableValue::Callable(_, v) => v,
                };
                v@ matches crate::value::ValueView::Object(m) ==> match old(heap).obj(m).kind {
                    crate::heap::ObjectKind::Function(crate::heap::NativeFunction::Constant(c)) =>
                        fuel >= 2 ==> r is Ok && (r matches Ok(x) ==> x@ == c@) && *final(heap)
                        == *old(heap),
                    crate::heap::ObjectKind::Function(crate::heap::NativeFunction::Throws(t)) =>
                        fuel >= 2 ==> r is Err && (r matches Err(e) ==> e@
                        == crate::error::AvmErrorView::Thrown(t@)) && *final(heap) == *old(heap),
                    crate::heap::ObjectKind::Plain => r is Ok && (r matches Ok(x) ==> x@
                        == crate::value::ValueView::Undefined) && *final(heap) == *old(heap),
                    crate::heap::ObjectKind::Boxed(_) => r is Ok && (r matches Ok(x) ==> x@
                        == crate::value::ValueView::Undefined) && *final(heap) == *old(heap),
                    _ => true,
                }
            }),
    {
        match self {
            CallableValue::Callable(this, v) => match v {
                Value::Object(o) => match heap.call(o, name, this, depth, args, ctx, fuel) {
                    Ok(x) => Ok(x),
                    Err(e) => Err(e),
                },
                _ => Ok(Value::Undefined),
            },
            CallableValue::UnCallable(v) => match v {
                Value::Object(o) => match heap.call(o, name, default_this, depth, args, ctx, fuel) {
                    Ok(x) => Ok(x),
                    Err(e) => Err(e),
                },
                _ => Ok(Value::Undefined),
            },
        }
    }
}

} // verus!
