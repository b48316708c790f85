//! The host-facing pieces: the display-list container, the external
//! value bridge, the variable codec, the locale backends and the
//! loader taxonomy.
use avm1_engine::container::{ChildContainer, DepthIter, DisplayHandle, RenderIter};
use avm1_engine::external::Value as ExternalValue;
use avm1_engine::heap::{Context, Heap, NativeFunction};
use avm1_engine::loader::{Error as LoadError, LoaderStatus};
use avm1_engine::locale::{DesktopLocaleBackend, LocaleBackend, NullLocaleBackend};
use avm1_engine::property::Attribute;
use avm1_engine::value::Value;

const FUEL: u32 = 64;

fn setup(version: u8) -> (Heap, Context) {
    let mut heap = Heap::new();
    let globals = heap.new_object(None);
    let object_proto = heap.new_object(None);
    let function_proto = heap.new_object(Some(object_proto));
    let array_proto = heap.new_object(Some(object_proto));
    let ctx = Context { swf_version: version, globals, object_proto, function_proto, array_proto };
    (heap, ctx)
}

fn child(id: u64, depth: i32, name: &str) -> DisplayHandle {
    DisplayHandle::new(id, depth, name)
}

#[test]
fn depth_list_insert_and_query() {
    let mut c = ChildContainer::new();
    assert!(c.is_empty());
    assert!(c.lowest_depth().is_none());

    assert!(c.insert_child_into_depth_list(5, child(1, 5, "five")).is_none());
    assert!(c.insert_child_into_depth_list(1, child(2, 1, "one")).is_none());
    assert!(c.insert_child_into_depth_list(9, child(3, 9, "nine")).is_none());

    assert_eq!(c.lowest_depth(), Some(1));
    assert_eq!(c.highest_depth(), Some(9));
    assert_eq!(c.get_depth(5).unwrap().id, 1);
    assert!(c.get_depth(2).is_none());

    // replacing a depth hands the previous occupant back
    let prev = c.insert_child_into_depth_list(5, child(4, 5, "newfive")).unwrap();
    assert_eq!(prev.id, 1);

    let by_depth = c.iter_children_by_depth();
    let depths: Vec<i32> = by_depth.iter().map(|e| e.0).collect();
    assert_eq!(depths, vec![1, 5, 9]);

    assert_eq!(c.get_name("one", true).unwrap().id, 2);
    assert!(c.get_name("ONE", true).is_none());
    assert_eq!(c.get_name("ONE", false).unwrap().id, 2);

    let ranged = c.iter_depth_range(1, 6);
    assert_eq!(ranged.len(), 2);

    assert!(c.remove_child_from_depth_list(&child(2, 1, "one")));
    assert!(!c.remove_child_from_depth_list(&child(2, 1, "one")));
    assert_eq!(c.lowest_depth(), Some(5));
}

#[test]
fn render_list_order_and_moves() {
    let mut c = ChildContainer::new();
    c.push_id(child(1, 0, "a"));
    c.push_id(child(2, 0, "b"));
    c.push_id(child(3, 0, "c"));
    assert_eq!(c.num_children(), 3);
    assert_eq!(c.get_id(1).unwrap().id, 2);
    assert!(c.get_id(9).is_none());

    // a new child is inserted; an existing one is moved
    assert!(c.insert_at_id(child(4, 0, "d"), 1));
    let ids: Vec<u64> = c.iter_render_list().iter().map(|h| h.id).collect();
    assert_eq!(ids, vec![1, 4, 2, 3]);

    assert!(!c.insert_at_id(child(1, 0, "a"), 3));
    let ids: Vec<u64> = c.iter_render_list().iter().map(|h| h.id).collect();
    assert_eq!(ids, vec![4, 2, 3, 1]);

    c.swap_at_id(0, 3);
    let ids: Vec<u64> = c.iter_render_list().iter().map(|h| h.id).collect();
    assert_eq!(ids, vec![1, 2, 3, 4]);

    c.replace_id(0, child(9, 0, "z"));
    assert_eq!(c.get_id(0).unwrap().id, 9);

    assert!(c.remove_child_from_render_list(&child(9, 0, "z")));
    let drained = c.drain_render_range(0, 2);
    assert_eq!(drained.len(), 2);
    assert_eq!(drained[0].id, 2);
    assert_eq!(c.num_children(), 1);
    c.clear();
    assert!(c.is_empty());
}

#[test]
fn external_bridge_round_trip() {
    let (mut heap, ctx) = setup(7);

    // a map with a nested list converts into objects and back
    let datum = ExternalValue::Object(vec![
        ("alpha".to_string(), ExternalValue::Str("one".to_string())),
        ("beta".to_string(), ExternalValue::Number((2.5f64).to_bits())),
        (
            "gamma".to_string(),
            ExternalValue::List(vec![
                ExternalValue::Bool(true),
                ExternalValue::Null,
            ]),
        ),
    ]);
    let engine = datum.into_avm1(&mut heap, &ctx, FUEL).unwrap();
    let obj = match engine {
        Value::Object(o) => o,
        other => panic!("expected an object, got {:?}", other),
    };
    assert_eq!(heap.get(obj, "alpha", &ctx, FUEL).unwrap(), Value::Str("one".to_string()));

    let back = ExternalValue::from_avm1(&mut heap, &Value::Object(obj), &ctx, FUEL).unwrap();
    match back {
        ExternalValue::Object(members) => {
            assert_eq!(members.len(), 3);
            assert_eq!(members[0].0, "alpha");
            assert!(matches!(&members[1].1, ExternalValue::Number(n) if *n == (2.5f64).to_bits()));
            match &members[2].1 {
                ExternalValue::List(items) => {
                    assert_eq!(items.len(), 2);
                    assert!(matches!(items[0], ExternalValue::Bool(true)));
                    assert!(matches!(items[1], ExternalValue::Null));
                }
                _ => panic!("expected the nested list to survive"),
            }
        }
        _ => panic!("expected a map back"),
    }

    // both absent values flatten to null
    assert!(matches!(
        ExternalValue::from_avm1(&mut heap, &Value::Undefined, &ctx, FUEL).unwrap(),
        ExternalValue::Null
    ));
}

#[test]
fn external_callback_flattens_results() {
    let (mut heap, ctx) = setup(7);
    let method = heap.new_function(
        NativeFunction::Constant(Value::Str("answered".to_string())),
        Some(ctx.function_proto),
    );
    let cb = avm1_engine::external::Callback::Avm1 { this: Value::Undefined, method };
    let args = vec![ExternalValue::Number((1.0f64).to_bits())];
    match cb.call(&mut heap, "cb", &args, &ctx, FUEL) {
        ExternalValue::Str(s) => assert_eq!(s, "answered"),
        _ => panic!("expected the constant text back"),
    }
    // a throwing callback flattens to null
    let thrower = heap.new_function(
        NativeFunction::Throws(Value::Bool(true)),
        Some(ctx.function_proto),
    );
    let cb2 = avm1_engine::external::Callback::Avm1 { this: Value::Undefined, method: thrower };
    assert!(matches!(cb2.call(&mut heap, "cb", &args, &ctx, FUEL), ExternalValue::Null));
}

#[test]
fn form_codec_round_trip() {
    let (mut heap, ctx) = setup(7);
    let this = heap.new_object(Some(ctx.object_proto));
    avm1_engine::load_vars::decode(&mut heap, this, "a=1&b=two%20words", &ctx, FUEL).unwrap();
    assert_eq!(heap.get(this, "a", &ctx, FUEL).unwrap(), Value::Str("1".to_string()));
    assert_eq!(heap.get(this, "b", &ctx, FUEL).unwrap(), Value::Str("two words".to_string()));

    let encoded = avm1_engine::load_vars::encode(&mut heap, this, &ctx, FUEL).unwrap();
    assert_eq!(encoded, "a=1&b=two+words");
}

#[test]
fn null_locale_is_the_fixed_nepali_moment() {
    let backend = NullLocaleBackend::new();
    assert_eq!(backend.time_since_launch_ms(), 0);
    assert_eq!(backend.get_timezone(), 20700);
    let utc = backend.get_current_date_time();
    // the local moment 2001-02-03 04:05:06 at +5:45 is the previous
    // day at the zero meridian
    assert_eq!(utc.year, 2001);
    assert_eq!(utc.month, 2);
    assert_eq!(utc.day, 2);
    assert_eq!(utc.hour, 22);
    assert_eq!(utc.minute, 20);
    assert_eq!(utc.second, 6);
}

#[test]
fn desktop_locale_answers_in_range() {
    let backend = DesktopLocaleBackend::new();
    let now = backend.get_current_date_time();
    assert!((1..=12).contains(&now.month));
    assert!((1..=31).contains(&now.day));
    assert!(now.hour < 24);
    let offset = backend.get_timezone();
    assert!(offset > -86400 && offset < 86400);
    let _ = backend.time_since_launch_ms();
}

#[test]
fn loader_taxonomy() {
    assert_eq!(LoaderStatus::Pending.settle(true), LoaderStatus::Succeeded);
    assert_eq!(LoaderStatus::Pending.settle(false), LoaderStatus::Failed);
    assert_eq!(LoaderStatus::Succeeded.settle(false), LoaderStatus::Succeeded);
    assert_eq!(LoadError::Cancelled.describe(), "load cancelled");
    assert_eq!(
        LoadError::FetchError("nowhere".to_string()).describe(),
        "could not fetch movie"
    );
}

#[test]
fn resolved_values_are_callable_with_their_owner() {
    let (mut heap, ctx) = setup(6);
    let owner = heap.new_object(None);
    let f = heap.new_function(
        NativeFunction::FunctionConstructor,
        Some(ctx.function_proto),
    );
    heap.define_value(owner, "make", Value::Object(f), Attribute::empty());
    let target = heap.new_scope(None, avm1_engine::scope::ScopeClass::Target, owner);
    let resolved = heap.resolve(target, "make", &ctx, FUEL).unwrap();
    let args = Vec::new();
    // the constructor native answers its `this`: the owner the
    // resolution bound, not the global object
    let result = resolved
        .call_with_default_this(&mut heap, ctx.globals, "make", 0, &args, &ctx, FUEL)
        .unwrap();
    assert_eq!(result, Value::Object(owner));
}

#[test]
fn swap_at_depth_exchanges_occupants() {
    let mut c = ChildContainer::new();
    c.push_id(child(1, 2, "low"));
    c.push_id(child(2, 8, "high"));
    assert!(c.insert_child_into_depth_list(2, child(1, 2, "low")).is_none());
    assert!(c.insert_child_into_depth_list(8, child(2, 8, "high")).is_none());

    // the target depth is occupied: the two children trade places
    assert!(c.swap_at_depth(child(1, 2, "low"), 8));
    assert_eq!(c.get_depth(8).unwrap().id, 1);
    assert_eq!(c.get_depth(2).unwrap().id, 2);
    let ids: Vec<u64> = c.iter_render_list().iter().map(|h| h.id).collect();
    assert_eq!(ids, vec![2, 1]);

    // an empty target depth: the child moves and is re-rendered after
    // its nearest lower neighbour
    assert!(!c.swap_at_depth(child(2, 2, "high"), 5));
    assert_eq!(c.get_depth(5).unwrap().id, 2);
    assert!(c.get_depth(2).is_none());
    let ids: Vec<u64> = c.iter_render_list().iter().map(|h| h.id).collect();
    assert_eq!(ids, vec![2, 1]);
}

#[test]
fn iterators_walk_both_orders() {
    let mut c = ChildContainer::new();
    c.push_id(child(1, 0, "a"));
    c.push_id(child(2, 0, "b"));
    c.push_id(child(3, 0, "c"));
    assert!(c.insert_child_into_depth_list(4, child(1, 4, "a")).is_none());
    assert!(c.insert_child_into_depth_list(2, child(2, 2, "b")).is_none());

    let mut render = RenderIter::from_container(&c);
    assert_eq!(render.next().unwrap().id, 1);
    assert_eq!(render.next_back().unwrap().id, 3);
    assert_eq!(render.next().unwrap().id, 2);
    assert!(render.next().is_none());
    assert!(render.next_back().is_none());

    // depths walk from the highest occupied depth downward
    let mut depths = DepthIter::from_container(&c);
    let first = depths.next().unwrap();
    assert_eq!(first.0, 4);
    assert_eq!(first.1.id, 1);
    let second = depths.next().unwrap();
    assert_eq!(second.0, 2);
    assert!(depths.next().is_none());
}
