//! Scope chains: resolution, writing, declaration, and the chain
//! constructions for closures and timeline redirection.
use avm1_engine::heap::{Context, Heap};
use avm1_engine::property::Attribute;
use avm1_engine::scope::ScopeClass;
use avm1_engine::value::Value;

const FUEL: u32 = 64;

fn setup(version: u8) -> (Heap, Context) {
    let mut heap = Heap::new();
    let globals = heap.new_object(None);
    let object_proto = heap.new_object(None);
    let function_proto = heap.new_object(Some(object_proto));
    let array_proto = heap.new_object(Some(object_proto));
    let ctx = Context { swf_version: version, globals, object_proto, function_proto, array_proto };
    (heap, ctx)
}

fn s(text: &str) -> Value {
    Value::Str(text.to_string())
}

#[test]
fn closure_derivation_drops_with_links() {
    // a chain [with(X), local(Y), target(Z)] reduces to
    // [local(Y), target(Z)], the surviving links sharing their locals
    let (mut heap, _ctx) = setup(6);
    let z = heap.new_object(None);
    let y = heap.new_object(None);
    let x = heap.new_object(None);

    let target = heap.new_scope(None, ScopeClass::Target, z);
    let local = heap.new_scope(Some(target), ScopeClass::Local, y);
    let with_link = heap.new_with_scope(local, x);

    let closure = heap.new_closure_scope(with_link);
    assert!(matches!(heap.scope_class(closure), ScopeClass::Local));
    assert_eq!(heap.locals_cell(closure), y);
    let parent = heap.parent_cell(closure).unwrap();
    assert!(matches!(heap.scope_class(parent), ScopeClass::Target));
    assert_eq!(heap.locals_cell(parent), z);
    assert!(heap.parent_cell(parent).is_none());
}

#[test]
fn closure_derivation_of_all_with_links_gives_a_fresh_global() {
    let (mut heap, _ctx) = setup(6);
    let x = heap.new_object(None);
    // a chain of nothing but with links (built artificially)
    let only_with = heap.new_scope(None, ScopeClass::With, x);
    let closure = heap.new_closure_scope(only_with);
    assert!(matches!(heap.scope_class(closure), ScopeClass::Global));
    assert!(heap.parent_cell(closure).is_none());
    assert!(heap.locals_cell(closure) != x);
}

#[test]
fn target_replacement_swaps_timeline_locals() {
    let (mut heap, _ctx) = setup(6);
    let z = heap.new_object(None);
    let y = heap.new_object(None);
    let clip = heap.new_object(None);

    let target = heap.new_scope(None, ScopeClass::Target, z);
    let local = heap.new_scope(Some(target), ScopeClass::Local, y);

    let redirected = heap.new_target_scope(local, clip);
    assert!(matches!(heap.scope_class(redirected), ScopeClass::Local));
    assert_eq!(heap.locals_cell(redirected), y);
    let parent = heap.parent_cell(redirected).unwrap();
    assert!(matches!(heap.scope_class(parent), ScopeClass::Target));
    assert_eq!(heap.locals_cell(parent), clip);
}

#[test]
fn resolution_walks_outward_and_binds_this() {
    let (mut heap, ctx) = setup(6);
    let z = heap.new_object(None);
    heap.define_value(z, "shared", s("from target"), Attribute::empty());
    let target = heap.new_scope(None, ScopeClass::Target, z);
    let local = heap.new_local_scope(target);

    assert!(heap.is_defined(local, "shared", &ctx));
    assert!(!heap.is_defined(local, "absent", &ctx));

    match heap.resolve(local, "shared", &ctx, FUEL).unwrap() {
        avm1_engine::callable_value::CallableValue::Callable(owner, v) => {
            assert_eq!(owner, z);
            assert_eq!(v, s("from target"));
        }
        other => panic!("expected resolution on the target scope, got {:?}", resolved_kind(&other)),
    }
    match heap.resolve(local, "absent", &ctx, FUEL).unwrap() {
        avm1_engine::callable_value::CallableValue::UnCallable(v) => {
            assert_eq!(v, Value::Undefined);
        }
        _ => panic!("expected an unowned undefined"),
    }
}

fn resolved_kind(cv: &avm1_engine::callable_value::CallableValue) -> &'static str {
    match cv {
        avm1_engine::callable_value::CallableValue::UnCallable(_) => "uncallable",
        avm1_engine::callable_value::CallableValue::Callable(_, _) => "callable",
    }
}

#[test]
fn writes_stop_at_the_target_scope() {
    let (mut heap, ctx) = setup(6);
    let z = heap.new_object(None);
    let target = heap.new_scope(None, ScopeClass::Target, z);
    let local = heap.new_local_scope(target);

    // no scope has the name: the write lands on the timeline scope
    heap.set_in_scope(local, "fresh", s("landed"), &ctx, FUEL).unwrap();
    assert_eq!(heap.get(z, "fresh", &ctx, FUEL).unwrap(), s("landed"));

    // a scope that already has the name receives the write instead
    let locals = heap.locals_cell(local);
    heap.define_value(locals, "mine", s("old"), Attribute::empty());
    heap.set_in_scope(local, "mine", s("new"), &ctx, FUEL).unwrap();
    assert_eq!(heap.get(locals, "mine", &ctx, FUEL).unwrap(), s("new"));
    assert_eq!(heap.get(z, "mine", &ctx, FUEL).unwrap(), Value::Undefined);
}

#[test]
fn define_writes_the_innermost_scope_only() {
    let (mut heap, ctx) = setup(6);
    let z = heap.new_object(None);
    let target = heap.new_scope(None, ScopeClass::Target, z);
    let local = heap.new_local_scope(target);

    heap.define(local, "param", s("value"), &ctx);
    let locals = heap.locals_cell(local);
    assert_eq!(heap.get(locals, "param", &ctx, FUEL).unwrap(), s("value"));
    assert_eq!(heap.get(z, "param", &ctx, FUEL).unwrap(), Value::Undefined);

    assert!(heap.delete_in_scope(local, "param", &ctx));
    assert!(!heap.is_defined(local, "param", &ctx));
    assert!(!heap.delete_in_scope(local, "param", &ctx));
}
