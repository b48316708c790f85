//! The function prototype: the object every callable inherits, carrying
//! the `call`, `apply` and `toString` natives. The prototype is built
//! bare here; linking it under the object prototype and cross-linking
//! the constructor is the caller's bootstrapping step.
use crate::error::AvmError;
use crate::heap::{Context, Heap, NativeFunction, ObjectKind};
use crate::object::Object;
use crate::property::{Attribute, Property};
use crate::property_map::{lemma_find_other_after_insert, spec_inserted};
use crate::value::{Value, ValueView};
use vstd::prelude::*;

verus! {

/// Builds the function prototype over the given parent: a fresh object
/// whose `call`, `apply` and `toString` are the corresponding native
/// behaviours, each hidden from enumeration and protected from
/// deletion.
pub fn create_proto(heap: &mut Heap, proto: Object) -> (r: Object)
    requires
        old(heap).wf(),
        old(heap).has_obj(proto),
    ensures
        final(heap).wf(),
        final(heap).grown_from(old(heap)),
        final(heap).has_obj(r),
        exists|f: Object|
            final(heap).spec_get_data(r, "call"@, true) == ValueView::Object(f) && final(heap).has_obj(f) && #[trigger] final(heap).obj(f).kind == ObjectKind::Function(
                NativeFunction::FunctionCall,
            ),
        exists|f: Object|
            final(heap).spec_get_data(r, "apply"@, true) == ValueView::Object(f) && final(heap).has_obj(f) && #[trigger] final(heap).obj(f).kind == ObjectKind::Function(
                NativeFunction::FunctionApply,
            ),
        exists|f: Object|
            final(heap).spec_get_data(r, "toString"@, true) == ValueView::Object(f) && final(heap).has_obj(f) && #[trigger] final(heap).obj(f).kind == ObjectKind::Function(
                NativeFunction::FunctionToString,
            ),
{
    let function_proto = heap.new_object(Some(proto));
    let method_attrs = Attribute::dont_enum().or(Attribute::dont_delete());
    let fp = function_proto;

    let call_fn = heap.new_function(NativeFunction::FunctionCall, Some(function_proto));
    let ghost m1 = *heap;
    heap.define_value(function_proto, "call", Value::Object(call_fn), method_attrs);
    let ghost h1 = *heap;

    let apply_fn = heap.new_function(NativeFunction::FunctionApply, Some(function_proto));
    let ghost m2 = *heap;
    heap.define_value(function_proto, "apply", Value::Object(apply_fn), method_attrs);
    let ghost h2 = *heap;

    let to_string_fn = heap.new_function(NativeFunction::FunctionToString, Some(function_proto));
    let ghost m3 = *heap;
    heap.define_value(function_proto, "toString", Value::Object(to_string_fn), method_attrs);
    proof {
        reveal_strlit("call");
        reveal_strlit("apply");
        reveal_strlit("toString");
        // each later definition writes a different (exactly compared)
        // name, so the earlier slots keep their lookups and entries;
        // the prototype stays an ordinary object throughout
        assert(m1.obj(fp).kind is Plain);
        assert(h1.obj(fp).kind is Plain);
        assert(m2.obj(fp) == h1.obj(fp));
        assert(h2.obj(fp).kind is Plain);
        assert(m3.obj(fp) == h2.obj(fp));
        assert("apply"@.len() == 5 && "call"@.len() == 4 && "toString"@.len() == 8);
        assert(!crate::strings::spec_name_eq("apply"@, "call"@, true));
        assert(!crate::strings::spec_name_eq("toString"@, "call"@, true));
        assert(!crate::strings::spec_name_eq("toString"@, "apply"@, true));
        let p2 = choose|p: Property|
            spec_inserted(m2.obj(fp).values, h2.obj(fp).values, "apply"@, true, p);
        lemma_find_other_after_insert(
            m2.obj(fp).values,
            h2.obj(fp).values,
            "apply"@,
            true,
            p2,
            "call"@,
        );
        let p3 = choose|p: Property|
            spec_inserted(m3.obj(fp).values, heap.obj(fp).values, "toString"@, true, p);
        lemma_find_other_after_insert(
            m3.obj(fp).values,
            heap.obj(fp).values,
            "toString"@,
            true,
            p3,
            "call"@,
        );
        lemma_find_other_after_insert(
            m3.obj(fp).values,
            heap.obj(fp).values,
            "toString"@,
            true,
            p3,
            "apply"@,
        );
        assert(h1.spec_get_data(fp, "call"@, true) == ValueView::Object(call_fn));
        assert(h2.spec_get_data(fp, "call"@, true) == ValueView::Object(call_fn));
        assert(heap.spec_get_data(fp, "call"@, true) == ValueView::Object(call_fn));
        assert(h2.spec_get_data(fp, "apply"@, true) == ValueView::Object(apply_fn));
        assert(heap.spec_get_data(fp, "apply"@, true) == ValueView::Object(apply_fn));
        assert(heap.spec_get_data(fp, "toString"@, true) == ValueView::Object(to_string_fn));
        assert(heap.obj(call_fn).kind == ObjectKind::Function(NativeFunction::FunctionCall));
        assert(heap.obj(apply_fn).kind == ObjectKind::Function(NativeFunction::FunctionApply));
        assert(heap.obj(to_string_fn).kind == ObjectKind::Function(
            NativeFunction::FunctionToString,
        ));
    }
    function_proto
}

/// The behaviour of the `Function` constructor invoked with `new`: the
/// freshly created object itself is the result.
pub fn constructor(heap: &mut Heap, this: Object, args: &Vec<Value>, ctx: &Context, fuel: u32) -> (r:
    Result<Value, AvmError>)
    requires
        old(heap).wf(),
        old(heap).has_obj(this),
        old(heap).spec_valid_ctx(*ctx),
        forall|i: int| 0 <= i < args@.len() ==> old(heap).spec_wf_value((#[trigger] args@[i])@),
    ensures
        final(heap).wf(),
        final(heap).grown_from(old(heap)),
        r is Ok && (r matches Ok(v) ==> v@ == ValueView::Object(this)),
{
    let _ = args;
    let _ = ctx;
    let _ = fuel;
    Ok(Value::Object(this))
}

} // verus!
