//! The bridge to host-agnostic data: a recursive tree of null, boolean,
//! number, string, map and list, converted to and from engine values.
//! Arrays are told apart structurally, by prototype identity against
//! the array prototype, not by any tag.
use crate::error::AvmError;
use crate::heap::{Context, Heap};
use crate::object::Object;
use crate::value::{Value as EngineValue, ValueView};
use vstd::prelude::*;

verus! {

/// An intermediate, potentially lossy format for data shared between
/// the engine and everything else: recursion and metadata beyond this
/// shape are not carried over.
pub enum Value {
    Null,
    Bool(bool),
    /// A double, by its bit pattern.
    Number(u64),
    Str(String),
    /// Named members, in the order they were gathered.
    Object(Vec<(String, Value)>),
    List(Vec<Value>),
}

impl Value {
    /// The engine value this datum converts to. Maps become fresh
    /// ordinary objects; lists become fresh array-like objects filled
    /// element by element with a matching `length`.
    pub fn into_avm1(&self, heap: &mut Heap, ctx: &Context, fuel: u32) -> (r: Result<
        EngineValue,
        AvmError,
    >)
        requires
            old(heap).wf(),
            old(heap).spec_valid_ctx(*ctx),
        ensures
            final(heap).wf(),
            final(heap).extends(old(heap)),
            final(heap).spec_valid_ctx(*ctx),
            match r {
                Ok(v) => final(heap).spec_wf_value(v@),
                Err(_) => true,
            },
            self is Null ==> r is Ok && (r matches Ok(v) ==> v@ == ValueView::Null),
            self matches Value::Bool(b) ==> r is Ok && (r matches Ok(v) ==> v@ == ValueView::Bool(
                *b,
            )),
            self matches Value::Number(n) ==> r is Ok && (r matches Ok(v) ==> v@
                == ValueView::Number(*n)),
            self matches Value::Str(s) ==> r is Ok && (r matches Ok(v) ==> v@ == ValueView::Str(
                s@,
            )),
            (self is Object || self is List) ==> (r matches Ok(v) ==> v@ is Object),
        decreases fuel,
    {
        match self {
            Value::Null => Ok(EngineValue::Null),
            Value::Bool(b) => Ok(EngineValue::Bool(*b)),
            Value::Number(n) => Ok(EngineValue::Number(*n)),
            Value::Str(s) => Ok(EngineValue::Str(s.clone())),
            Value::Object(members) => {
                if fuel == 0 {
                    return Err(AvmError::ExecutionLimit);
                }
                let object = heap.new_object(Some(ctx.object_proto));
                let mut i: usize = 0;
                while i < members.len()
                    invariant
                        heap.wf(),
                        heap.extends(old(heap)),
                        heap.spec_valid_ctx(*ctx),
                        heap.has_obj(object),
                        fuel >= 1,
                        self is Object,
                    decreases members@.len() - i,
                {
                    let member = match members[i].1.into_avm1(heap, ctx, (fuel - 1) as u32) {
                        Ok(v) => v,
                        Err(e) => { return Err(e) },
                    };
                    match heap.set(object, members[i].0.as_str(), member, ctx, (fuel - 1) as u32) {
                        Ok(_) => {},
                        Err(e) => { return Err(e) },
                    }
                    i += 1;
                }
                Ok(EngineValue::Object(object))
            },
            Value::List(items) => {
                if fuel == 0 {
                    return Err(AvmError::ExecutionLimit);
                }
                let array = heap.new_object(Some(ctx.array_proto));
                let mut i: usize = 0;
                // indices beyond the signed 32-bit range cannot be
                // element names; nothing that fits in memory reaches it
                while i < items.len() && i < 0x7FFF_FFFF
                    invariant
                        heap.wf(),
                        heap.extends(old(heap)),
                        heap.spec_valid_ctx(*ctx),
                        heap.has_obj(array),
                        i <= items@.len(),
                        fuel >= 1,
                        self is List,
                    decreases items@.len() - i,
                {
                    let element = match items[i].into_avm1(heap, ctx, (fuel - 1) as u32) {
                        Ok(v) => v,
                        Err(e) => { return Err(e) },
                    };
                    match heap.set_element(array, i as i32, element, ctx) {
                        Ok(_) => {},
                        Err(e) => { return Err(e) },
                    }
                    i += 1;
                }
                let list_len: i32 = if items.len() < 0x7FFF_FFFF {
                    items.len() as i32
                } else {
                    0x7FFF_FFFF
                };
                match heap.set_length(array, list_len, ctx) {
                    Ok(_) => {},
                    Err(e) => { return Err(e) },
                }
                Ok(EngineValue::Object(array))
            },
        }
    }

    /// The datum an engine value flattens to. Both absent values fold
    /// to null; an object whose prototype chain carries the array
    /// prototype is read as a list of its elements, any other object as
    /// a map of its enumerable keys.
    pub fn from_avm1(heap: &mut Heap, value: &EngineValue, ctx: &Context, fuel: u32) -> (r: Result<
        Value,
        AvmError,
    >)
        requires
            old(heap).wf(),
            old(heap).spec_wf_value(value@),
            old(heap).spec_valid_ctx(*ctx),
        ensures
            final(heap).wf(),
            final(heap).grown_from(old(heap)),
            final(heap).spec_valid_ctx(*ctx),
            value@ is Undefined || value@ is Null ==> r is Ok && (r matches Ok(v) ==> v is Null)
                && *final(heap) == *old(heap),
            value@ matches ValueView::Bool(b) ==> r is Ok && (r matches Ok(v) ==> v
                matches Value::Bool(x) && x == b) && *final(heap) == *old(heap),
            value@ matches ValueView::Number(n) ==> r is Ok && (r matches Ok(v) ==> v
                matches Value::Number(x) && x == n) && *final(heap) == *old(heap),
            value@ matches ValueView::Str(s) ==> r is Ok && (r matches Ok(v) ==> v
                matches Value::Str(x) && x@ == s) && *final(heap) == *old(heap),
        decreases fuel,
    {
        match value {
            EngineValue::Undefined => Ok(Value::Null),
            EngineValue::Null => Ok(Value::Null),
            EngineValue::Bool(b) => Ok(Value::Bool(*b)),
            EngineValue::Number(n) => Ok(Value::Number(*n)),
            EngineValue::Str(s) => Ok(Value::Str(s.clone())),
            EngineValue::Object(o) => {
                let obj = *o;
                if fuel == 0 {
                    return Err(AvmError::ExecutionLimit);
                }
                if heap.is_prototype_of(ctx.array_proto, obj) {
                    let length = match heap.length(obj, ctx, (fuel - 1) as u32) {
                        Ok(n) => n,
                        Err(e) => { return Err(e) },
                    };
                    let mut items: Vec<Value> = Vec::new();
                    let mut i: i32 = 0;
                    while i < length
                        invariant
                            heap.wf(),
                            heap.grown_from(old(heap)),
                            heap.spec_valid_ctx(*ctx),
                            heap.has_obj(obj),
                            fuel >= 1,
                            value@ is Object,
                        decreases length - i,
                    {
                        let element = heap.get_element(obj, i, ctx);
                        let flattened = match Self::from_avm1(
                            heap,
                            &element,
                            ctx,
                            (fuel - 1) as u32,
                        ) {
                            Ok(v) => v,
                            Err(e) => { return Err(e) },
                        };
                        items.push(flattened);
                        i += 1;
                    }
                    Ok(Value::List(items))
                } else {
                    let keys = heap.get_keys(obj, ctx);
                    let mut members: Vec<(String, Value)> = Vec::new();
                    let mut i: usize = 0;
                    while i < keys.len()
                        invariant
                            heap.wf(),
                            heap.grown_from(old(heap)),
                            heap.spec_valid_ctx(*ctx),
                            heap.has_obj(obj),
                            fuel >= 1,
                            value@ is Object,
                        decreases keys@.len() - i,
                    {
                        let v = match heap.get(obj, keys[i].as_str(), ctx, (fuel - 1) as u32) {
                            Ok(v) => v,
                            Err(e) => { return Err(e) },
                        };
                        let flattened = match Self::from_avm1(heap, &v, ctx, (fuel - 1) as u32) {
                            Ok(v) => v,
                            Err(e) => { return Err(e) },
                        };
                        members.push((keys[i].clone(), flattened));
                        i += 1;
                    }
                    Ok(Value::Object(members))
                }
            },
        }
    }
}

/// A callback the host can invoke: a method and the `this` it runs
/// against.
pub enum Callback {
    Avm1 { this: EngineValue, method: Object },
}

impl Callback {
    /// Invokes the callback with host data: the arguments convert in,
    /// the result converts back out, and any failure flattens to null.
    pub fn call(
        &self,
        heap: &mut Heap,
        name: &str,
        args: &Vec<Value>,
        ctx: &Context,
        fuel: u32,
    ) -> (r: Value)
        requires
            old(heap).wf(),
            old(heap).spec_valid_ctx(*ctx),
            match self {
                Callback::Avm1 { this, method } => old(heap).spec_wf_value(this@) && old(
                    heap,
                ).has_obj(*method),
            },
        ensures
            final(heap).wf(),
            final(heap).extends(old(heap)),
            final(heap).spec_valid_ctx(*ctx),
        decreases fuel,
    {
        match self {
            Callback::Avm1 { this, method } => {
                if fuel == 0 {
                    return Value::Null;
                }
                let this_obj = heap.coerce_to_object(this, ctx);
                let mut engine_args: Vec<EngineValue> = Vec::new();
                let mut i: usize = 0;
                while i < args.len()
                    invariant
                        heap.wf(),
                        heap.extends(old(heap)),
                        heap.spec_valid_ctx(*ctx),
                        heap.has_obj(this_obj),
                        heap.has_obj(*method),
                        fuel >= 1,
                        forall|k: int|
                            0 <= k < engine_args@.len() ==> heap.spec_wf_value(
                                (#[trigger] engine_args@[k])@,
                            ),
                    decreases args@.len() - i,
                {
                    match args[i].into_avm1(heap, ctx, (fuel - 1) as u32) {
                        Ok(v) => {
                            engine_args.push(v);
                        },
                        Err(_) => {
                            return Value::Null;
                        },
                    }
                    i += 1;
                }
                let result = match heap.call(
                    *method,
                    name,
                    this_obj,
                    0,
                    &engine_args,
                    ctx,
                    (fuel - 1) as u32,
                ) {
                    Ok(v) => v,
                    Err(_) => {
                        return Value::Null;
                    },
                };
                match Value::from_avm1(heap, &result, ctx, (fuel - 1) as u32) {
                    Ok(v) => v,
                    Err(_) => Value::Null,
                }
            },
        }
    }
}

} // verus!
