//! The object capability surface: property storage, virtual slots,
//! deletion flags, enumeration order, watchers and `super` dispatch.
use avm1_engine::heap::{Context, Heap, NativeFunction};
use avm1_engine::property::Attribute;
use avm1_engine::value::Value;

const FUEL: u32 = 64;

fn setup(version: u8) -> (Heap, Context) {
    let mut heap = Heap::new();
    let globals = heap.new_object(None);
    let object_proto = heap.new_object(None);
    let function_proto = heap.new_object(Some(object_proto));
    let array_proto = heap.new_object(Some(object_proto));
    let ctx = Context { swf_version: version, globals, object_proto, function_proto, array_proto };
    (heap, ctx)
}

fn s(text: &str) -> Value {
    Value::Str(text.to_string())
}

#[test]
fn test_get_undefined() {
    let (mut heap, ctx) = setup(0);
    let object = heap.new_object(Some(ctx.object_proto));
    assert_eq!(heap.get(object, "not_defined", &ctx, FUEL).unwrap(), Value::Undefined);
}

#[test]
fn test_set_get() {
    let (mut heap, ctx) = setup(0);
    let object = heap.new_object(Some(ctx.object_proto));
    heap.define_value(object, "forced", s("forced"), Attribute::empty());
    heap.set(object, "natural", s("natural"), &ctx, FUEL).unwrap();

    assert_eq!(heap.get(object, "forced", &ctx, FUEL).unwrap(), s("forced"));
    assert_eq!(heap.get(object, "natural", &ctx, FUEL).unwrap(), s("natural"));
}

#[test]
fn test_set_readonly() {
    let (mut heap, ctx) = setup(0);
    let object = heap.new_object(Some(ctx.object_proto));
    heap.define_value(object, "normal", s("initial"), Attribute::empty());
    heap.define_value(object, "readonly", s("initial"), Attribute::read_only());

    heap.set(object, "normal", s("replaced"), &ctx, FUEL).unwrap();
    heap.set(object, "readonly", s("replaced"), &ctx, FUEL).unwrap();

    assert_eq!(heap.get(object, "normal", &ctx, FUEL).unwrap(), s("replaced"));
    assert_eq!(heap.get(object, "readonly", &ctx, FUEL).unwrap(), s("initial"));
}

#[test]
fn test_deletable_not_readonly() {
    let (mut heap, ctx) = setup(0);
    let object = heap.new_object(Some(ctx.object_proto));
    heap.define_value(object, "test", s("initial"), Attribute::dont_delete());

    assert!(!heap.delete(object, "test", &ctx));
    assert_eq!(heap.get(object, "test", &ctx, FUEL).unwrap(), s("initial"));

    heap.set(object, "test", s("replaced"), &ctx, FUEL).unwrap();

    assert!(!heap.delete(object, "test", &ctx));
    assert_eq!(heap.get(object, "test", &ctx, FUEL).unwrap(), s("replaced"));
}

#[test]
fn test_virtual_get() {
    let (mut heap, ctx) = setup(0);
    let object = heap.new_object(Some(ctx.object_proto));
    let getter = heap.new_function(
        NativeFunction::Constant(s("Virtual!")),
        Some(ctx.function_proto),
    );
    heap.add_property(object, "test", getter, None, Attribute::empty());

    assert_eq!(heap.get(object, "test", &ctx, FUEL).unwrap(), s("Virtual!"));

    // this set should do nothing
    heap.set(object, "test", s("Ignored!"), &ctx, FUEL).unwrap();
    assert_eq!(heap.get(object, "test", &ctx, FUEL).unwrap(), s("Virtual!"));
}

#[test]
fn test_delete() {
    let (mut heap, ctx) = setup(0);
    let object = heap.new_object(Some(ctx.object_proto));
    let getter = heap.new_function(
        NativeFunction::Constant(s("Virtual!")),
        Some(ctx.function_proto),
    );

    heap.add_property(object, "virtual", getter, None, Attribute::empty());
    heap.add_property(object, "virtual_un", getter, None, Attribute::dont_delete());
    heap.define_value(object, "stored", s("Stored!"), Attribute::empty());
    heap.define_value(object, "stored_un", s("Stored!"), Attribute::dont_delete());

    assert!(heap.delete(object, "virtual", &ctx));
    assert!(!heap.delete(object, "virtual_un", &ctx));
    assert!(heap.delete(object, "stored", &ctx));
    assert!(!heap.delete(object, "stored_un", &ctx));
    assert!(!heap.delete(object, "non_existent", &ctx));

    assert_eq!(heap.get(object, "virtual", &ctx, FUEL).unwrap(), Value::Undefined);
    assert_eq!(heap.get(object, "virtual_un", &ctx, FUEL).unwrap(), s("Virtual!"));
    assert_eq!(heap.get(object, "stored", &ctx, FUEL).unwrap(), Value::Undefined);
    assert_eq!(heap.get(object, "stored_un", &ctx, FUEL).unwrap(), s("Stored!"));
}

#[test]
fn test_iter_values() {
    let (mut heap, ctx) = setup(0);
    let object = heap.new_object(Some(ctx.object_proto));
    let getter = heap.new_function(
        NativeFunction::Constant(Value::Null),
        Some(ctx.function_proto),
    );

    heap.define_value(object, "stored", Value::Null, Attribute::empty());
    heap.define_value(object, "stored_hidden", Value::Null, Attribute::dont_enum());
    heap.add_property(object, "virtual", getter, None, Attribute::empty());
    heap.add_property(object, "virtual_hidden", getter, None, Attribute::dont_enum());

    let keys = heap.get_keys(object, &ctx);
    assert_eq!(keys.len(), 2);
    assert!(keys.contains(&"stored".to_string()));
    assert!(!keys.contains(&"stored_hidden".to_string()));
    assert!(keys.contains(&"virtual".to_string()));
    assert!(!keys.contains(&"virtual_hidden".to_string()));
}

#[test]
fn enumeration_order_prototype_first() {
    // an object with own keys {a: enumerable, b: hidden} over a
    // prototype with own key {c: enumerable} enumerates as ["c", "a"]
    let (mut heap, ctx) = setup(0);
    let proto = heap.new_object(None);
    heap.define_value(proto, "c", Value::Null, Attribute::empty());
    let object = heap.new_object(Some(proto));
    heap.define_value(object, "a", Value::Null, Attribute::empty());
    heap.define_value(object, "b", Value::Null, Attribute::dont_enum());

    let keys = heap.get_keys(object, &ctx);
    assert_eq!(keys, vec!["c".to_string(), "a".to_string()]);
}

#[test]
fn enumeration_shadowed_prototype_keys() {
    let (mut heap, ctx) = setup(0);
    let proto = heap.new_object(None);
    heap.define_value(proto, "a", Value::Null, Attribute::empty());
    heap.define_value(proto, "c", Value::Null, Attribute::empty());
    let object = heap.new_object(Some(proto));
    heap.define_value(object, "a", Value::Null, Attribute::empty());

    // the shadowed prototype key appears once, own keys last
    let keys = heap.get_keys(object, &ctx);
    assert_eq!(keys, vec!["c".to_string(), "a".to_string()]);
}

#[test]
fn virtual_getter_only_set_is_discarded() {
    // defining a getter-only virtual property and then writing it: the
    // write is discarded and the getter still answers
    let (mut heap, ctx) = setup(6);
    let object = heap.new_object(Some(ctx.object_proto));
    let getter = heap.new_function(
        NativeFunction::Constant(s("Virtual!")),
        Some(ctx.function_proto),
    );
    heap.add_property(object, "test", getter, None, Attribute::empty());
    heap.set(object, "test", s("Another!"), &ctx, FUEL).unwrap();
    assert_eq!(heap.get(object, "test", &ctx, FUEL).unwrap(), s("Virtual!"));
}

#[test]
fn super_dispatch_skips_the_base_level() {
    // chain: instance -> A -> B -> C, with `m` on both B and C; a super
    // reference whose base depth points at B dispatches to C's `m`
    let (mut heap, ctx) = setup(6);
    let c = heap.new_object(None);
    let b = heap.new_object(Some(c));
    let a = heap.new_object(Some(b));
    let instance = heap.new_object(Some(a));

    let m_b = heap.new_function(NativeFunction::Constant(s("from B")), Some(ctx.function_proto));
    let m_c = heap.new_function(NativeFunction::Constant(s("from C")), Some(ctx.function_proto));
    heap.define_value(b, "m", Value::Object(m_b), Attribute::empty());
    heap.define_value(c, "m", Value::Object(m_c), Attribute::empty());

    // a plain method call resolves B's `m`
    let args = Vec::new();
    assert_eq!(heap.call_method(instance, "m", 0, &args, &ctx, FUEL).unwrap(), s("from B"));

    // the super reference rooted at the instance with base depth at B
    let sup = heap.new_super(instance, 2);
    assert_eq!(heap.call_method(sup, "m", 0, &args, &ctx, FUEL).unwrap(), s("from C"));
}

#[test]
fn super_writes_are_discarded() {
    let (mut heap, ctx) = setup(6);
    let proto = heap.new_object(None);
    heap.define_value(proto, "x", s("kept"), Attribute::empty());
    let this_obj = heap.new_object(Some(proto));
    let sup = heap.new_super(this_obj, 0);

    heap.set_local(sup, "x", s("discarded"), sup, 0, &ctx, FUEL).unwrap();
    assert_eq!(heap.get(proto, "x", &ctx, FUEL).unwrap(), s("kept"));
}

#[test]
fn watcher_rewrites_the_stored_value() {
    let (mut heap, ctx) = setup(6);
    let object = heap.new_object(Some(ctx.object_proto));
    let callback = heap.new_function(
        NativeFunction::Constant(s("rewritten")),
        Some(ctx.function_proto),
    );
    heap.define_value(object, "watched", s("before"), Attribute::empty());
    heap.set_watcher(object, "watched", callback, Value::Null, &ctx);
    heap.set(object, "watched", s("attempted"), &ctx, FUEL).unwrap();
    assert_eq!(heap.get(object, "watched", &ctx, FUEL).unwrap(), s("rewritten"));
    assert!(heap.remove_watcher(object, "watched", &ctx));
    assert!(!heap.remove_watcher(object, "watched", &ctx));
    heap.set(object, "watched", s("after"), &ctx, FUEL).unwrap();
    assert_eq!(heap.get(object, "watched", &ctx, FUEL).unwrap(), s("after"));
}

#[test]
fn setter_shadowing_walks_the_chain() {
    // a virtual slot with a setter on the prototype receives the write;
    // no own property is created on the child
    let (mut heap, ctx) = setup(6);
    let proto = heap.new_object(None);
    let getter = heap.new_function(
        NativeFunction::Constant(s("guarded")),
        Some(ctx.function_proto),
    );
    let setter = heap.new_function(
        NativeFunction::Constant(Value::Undefined),
        Some(ctx.function_proto),
    );
    heap.add_property(proto, "guard", getter, Some(setter), Attribute::empty());
    let child = heap.new_object(Some(proto));

    heap.set(child, "guard", s("poked"), &ctx, FUEL).unwrap();
    assert!(!heap.has_own_property(child, "guard", &ctx));
    assert_eq!(heap.get(child, "guard", &ctx, FUEL).unwrap(), s("guarded"));
}

#[test]
fn instance_checks_walk_the_chain() {
    let (mut heap, ctx) = setup(7);
    let proto = heap.new_object(None);
    let constructor = heap.new_object(None);
    let instance = heap.new_object(Some(proto));
    assert!(heap.is_instance_of(instance, constructor, proto, &ctx, FUEL).unwrap());
    let other = heap.new_object(None);
    assert!(!heap.is_instance_of(instance, constructor, other, &ctx, FUEL).unwrap());
    assert!(heap.is_prototype_of(proto, instance));
    assert!(!heap.is_prototype_of(other, instance));
}

#[test]
fn elements_are_string_keyed_properties() {
    let (mut heap, ctx) = setup(7);
    let object = heap.new_object(Some(ctx.object_proto));
    heap.set_length(object, 2, &ctx).unwrap();
    assert_eq!(heap.length(object, &ctx, FUEL).unwrap(), 2);
    heap.set_element(object, 0, s("zero"), &ctx).unwrap();
    heap.set_element(object, 1, s("one"), &ctx).unwrap();
    assert!(heap.has_element(object, 0, &ctx));
    assert!(!heap.has_element(object, 5, &ctx));
    assert_eq!(heap.get_element(object, 1, &ctx), s("one"));
    assert_eq!(heap.get(object, "1", &ctx, FUEL).unwrap(), s("one"));
    assert!(heap.delete_element(object, 0, &ctx));
    assert_eq!(heap.get_element(object, 0, &ctx), Value::Undefined);
}

#[test]
fn function_prototype_natives() {
    let (mut heap, ctx) = setup(7);
    let f = heap.new_function(NativeFunction::FunctionToString, Some(ctx.function_proto));
    let args = Vec::new();
    assert_eq!(
        heap.call(f, "toString", f, 0, &args, &ctx, FUEL).unwrap(),
        s("[type Function]")
    );
    // a plain object is not callable and answers undefined
    let o = heap.new_object(Some(ctx.object_proto));
    assert_eq!(heap.call(o, "o", o, 0, &args, &ctx, FUEL).unwrap(), Value::Undefined);
}

#[test]
fn case_sensitivity_is_version_gated() {
    // below version seven lookup folds case
    let (mut heap6, ctx6) = setup(6);
    let o6 = heap6.new_object(Some(ctx6.object_proto));
    heap6.define_value(o6, "Name", s("v"), Attribute::empty());
    assert_eq!(heap6.get(o6, "name", &ctx6, FUEL).unwrap(), s("v"));
    // from version seven on it does not
    let (mut heap7, ctx7) = setup(7);
    let o7 = heap7.new_object(Some(ctx7.object_proto));
    heap7.define_value(o7, "Name", s("v"), Attribute::empty());
    assert_eq!(heap7.get(o7, "name", &ctx7, FUEL).unwrap(), Value::Undefined);
}

#[test]
fn attribute_reflagging() {
    let (mut heap, ctx) = setup(6);
    let object = heap.new_object(Some(ctx.object_proto));
    heap.define_value(object, "x", s("first"), Attribute::empty());
    heap.set_attributes(object, Some("x"), Attribute::read_only(), Attribute::empty());
    heap.set(object, "x", s("second"), &ctx, FUEL).unwrap();
    assert_eq!(heap.get(object, "x", &ctx, FUEL).unwrap(), s("first"));
    heap.set_attributes(object, None, Attribute::empty(), Attribute::read_only());
    heap.set(object, "x", s("third"), &ctx, FUEL).unwrap();
    assert_eq!(heap.get(object, "x", &ctx, FUEL).unwrap(), s("third"));
}

#[test]
fn attribute_proxy_reads_and_writes_the_node() {
    let (mut heap, ctx) = setup(6);
    let node = heap.new_xml_node(vec![
        ("id".to_string(), "n1".to_string()),
        ("color".to_string(), "red".to_string()),
    ]);
    let attrs = heap.from_xml_node(node);

    // reads come from the node's attribute table, not a property table
    assert_eq!(heap.get(attrs, "color", &ctx, FUEL).unwrap(), s("red"));
    assert_eq!(heap.get(attrs, "missing", &ctx, FUEL).unwrap(), Value::Undefined);
    assert!(heap.has_own_property(attrs, "id", &ctx));
    assert!(!heap.has_own_property(attrs, "missing", &ctx));

    // writes coerce to text and land on the node
    heap.set_local(attrs, "color", s("blue"), attrs, 0, &ctx, FUEL).unwrap();
    assert_eq!(heap.get(attrs, "color", &ctx, FUEL).unwrap(), s("blue"));
    heap.set_local(attrs, "size", Value::Number((4.0f64).to_bits()), attrs, 0, &ctx, FUEL)
        .unwrap();
    assert_eq!(heap.get(attrs, "size", &ctx, FUEL).unwrap(), s("4"));

    // enumeration appends the attribute names
    let keys = heap.get_keys(attrs, &ctx);
    assert!(keys.contains(&"id".to_string()));
    assert!(keys.contains(&"color".to_string()));
    assert!(keys.contains(&"size".to_string()));
}

#[test]
fn id_map_proxy_materialises_nodes() {
    let (mut heap, ctx) = setup(6);
    let node = heap.new_xml_node(vec![("id".to_string(), "n1".to_string())]);
    let doc = heap.new_xml_document(vec![("n1".to_string(), node)]);
    let idmap = heap.from_xml_document(doc);

    // a known id materialises one script object, and keeps it
    let first = heap.get(idmap, "n1", &ctx, FUEL).unwrap();
    let second = heap.get(idmap, "n1", &ctx, FUEL).unwrap();
    assert!(matches!(first, Value::Object(_)));
    assert_eq!(first, second);

    // an unknown id falls through to the proxy's own table
    assert_eq!(heap.get(idmap, "n2", &ctx, FUEL).unwrap(), Value::Undefined);
    heap.define_value(idmap, "n2", s("plain"), Attribute::empty());
    assert_eq!(heap.get(idmap, "n2", &ctx, FUEL).unwrap(), s("plain"));
}

#[test]
fn super_ignores_definitions_and_deletion() {
    let (mut heap, ctx) = setup(6);
    let proto = heap.new_object(None);
    heap.define_value(proto, "kept", s("kept"), Attribute::empty());
    let base = heap.new_object(Some(proto));
    let sup = heap.new_super(base, 0);

    heap.define_value(sup, "planted", s("x"), Attribute::empty());
    let getter = heap.new_function(
        NativeFunction::Constant(s("virtual")),
        Some(ctx.function_proto),
    );
    heap.add_property(sup, "virtual", getter, None, Attribute::empty());
    heap.set_watcher(sup, "kept", getter, Value::Null, &ctx);
    assert!(!heap.delete(sup, "kept", &ctx));

    // none of it took: the proxy enumerates nothing and resolves
    // nothing of its own
    assert!(heap.get_keys(sup, &ctx).is_empty());
    assert!(!heap.remove_watcher(sup, "kept", &ctx));
}

#[test]
fn function_prototype_call_and_apply_bind_this() {
    let (mut heap, ctx) = setup(7);
    let fn_proto = avm1_engine::function::create_proto(&mut heap, ctx.object_proto);
    // the constructor native answers its `this`, which makes the
    // binding visible
    let f = heap.new_function(NativeFunction::FunctionConstructor, Some(fn_proto));
    let owner = heap.new_object(Some(ctx.object_proto));

    let args = vec![Value::Object(owner)];
    assert_eq!(
        heap.call_method(f, "call", 0, &args, &ctx, FUEL).unwrap(),
        Value::Object(owner)
    );

    // with no argument the global object is bound
    let none = Vec::new();
    assert_eq!(
        heap.call_method(f, "call", 0, &none, &ctx, FUEL).unwrap(),
        Value::Object(ctx.globals)
    );

    // apply reads its argument list from an array-like object
    let argobj = heap.new_object(Some(ctx.object_proto));
    heap.set_length(argobj, 1, &ctx).unwrap();
    heap.set_element(argobj, 0, s("ignored"), &ctx).unwrap();
    let apply_args = vec![Value::Object(owner), Value::Object(argobj)];
    assert_eq!(
        heap.call_method(f, "apply", 0, &apply_args, &ctx, FUEL).unwrap(),
        Value::Object(owner)
    );

    assert_eq!(
        heap.call_method(f, "toString", 0, &none, &ctx, FUEL).unwrap(),
        s("[type Function]")
    );
}

#[test]
fn watcher_throw_stores_undefined() {
    // a throwing watcher still rewrites the slot (to the absent value)
    // and its thrown value comes back after the store
    let (mut heap, ctx) = setup(6);
    let object = heap.new_object(Some(ctx.object_proto));
    let callback = heap.new_function(
        NativeFunction::Throws(s("nope")),
        Some(ctx.function_proto),
    );
    heap.define_value(object, "watched", s("before"), Attribute::empty());
    heap.set_watcher(object, "watched", callback, Value::Null, &ctx);
    match heap.set(object, "watched", s("attempted"), &ctx, FUEL) {
        Err(avm1_engine::error::AvmError::ThrownValue(v)) => assert_eq!(v, s("nope")),
        other => panic!("expected the watcher's thrown value, got {:?}", other),
    }
    assert_eq!(heap.get_data(object, "watched", &ctx), Value::Undefined);
}

#[test]
fn setter_throw_propagates() {
    // a throwing setter propagates after the slot absorbed the write
    // without storing it
    let (mut heap, ctx) = setup(6);
    let object = heap.new_object(Some(ctx.object_proto));
    let getter = heap.new_function(
        NativeFunction::Constant(s("kept")),
        Some(ctx.function_proto),
    );
    let setter = heap.new_function(NativeFunction::Throws(s("bad")), Some(ctx.function_proto));
    heap.add_property(object, "guard", getter, Some(setter), Attribute::empty());
    match heap.set(object, "guard", s("poked"), &ctx, FUEL) {
        Err(avm1_engine::error::AvmError::ThrownValue(v)) => assert_eq!(v, s("bad")),
        other => panic!("expected the setter's thrown value, got {:?}", other),
    }
    assert_eq!(heap.get_data(object, "guard", &ctx), Value::Undefined);
    assert_eq!(heap.get(object, "guard", &ctx, FUEL).unwrap(), s("kept"));
}

#[test]
fn getter_only_virtual_write_is_discarded() {
    // writing over a getter-only virtual slot succeeds and stores
    // nothing: the getter still answers, and no data appears
    let (mut heap, ctx) = setup(6);
    let object = heap.new_object(Some(ctx.object_proto));
    let getter = heap.new_function(
        NativeFunction::Constant(s("fixed")),
        Some(ctx.function_proto),
    );
    heap.add_property(object, "ro", getter, None, Attribute::empty());
    heap.set(object, "ro", s("ignored"), &ctx, FUEL).unwrap();
    assert_eq!(heap.get(object, "ro", &ctx, FUEL).unwrap(), s("fixed"));
    assert_eq!(heap.get_data(object, "ro", &ctx), Value::Undefined);
}
