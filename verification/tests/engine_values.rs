//! Value coercion behaviour: the wrapping integer conversions, number
//! printing, numeric coercion under both version gates, and the
//! abstract comparisons.
use avm1_engine::coerce::abstract_eq_prim;
use avm1_engine::heap::{Context, Heap, NativeFunction};
use avm1_engine::number::{
    f64_to_wrapping_i16, f64_to_wrapping_i32, f64_to_wrapping_u16, f64_to_wrapping_u32,
    u32_to_string,
};
use avm1_engine::property::Attribute;
use avm1_engine::value::{string_to_number, Value};

const FUEL: u32 = 64;

fn setup(version: u8) -> (Heap, Context) {
    let mut heap = Heap::new();
    let globals = heap.new_object(None);
    let object_proto = heap.new_object(None);
    let function_proto = heap.new_object(Some(object_proto));
    let array_proto = heap.new_object(Some(object_proto));
    let ctx = Context { swf_version: version, globals, object_proto, function_proto, array_proto };
    (heap, ctx)
}

fn num(x: f64) -> Value {
    Value::Number(x.to_bits())
}

#[test]
fn wrapping_u16() {
    assert_eq!(f64_to_wrapping_u16((0.0f64).to_bits()), 0);
    assert_eq!(f64_to_wrapping_u16((1.0f64).to_bits()), 1);
    assert_eq!(f64_to_wrapping_u16((-1.0f64).to_bits()), 65535);
    assert_eq!(f64_to_wrapping_u16((123.1f64).to_bits()), 123);
    assert_eq!(f64_to_wrapping_u16((66535.9f64).to_bits()), 999);
    assert_eq!(f64_to_wrapping_u16((-9980.7f64).to_bits()), 55556);
    assert_eq!(f64_to_wrapping_u16((-196608.0f64).to_bits()), 0);
    assert_eq!(f64_to_wrapping_u16(f64::NAN.to_bits()), 0);
    assert_eq!(f64_to_wrapping_u16(f64::INFINITY.to_bits()), 0);
    assert_eq!(f64_to_wrapping_u16(f64::NEG_INFINITY.to_bits()), 0);
}

#[test]
fn wrapping_i16() {
    assert_eq!(f64_to_wrapping_i16((0.0f64).to_bits()), 0);
    assert_eq!(f64_to_wrapping_i16((1.0f64).to_bits()), 1);
    assert_eq!(f64_to_wrapping_i16((-1.0f64).to_bits()), -1);
    assert_eq!(f64_to_wrapping_i16((123.1f64).to_bits()), 123);
    assert_eq!(f64_to_wrapping_i16((32768.9f64).to_bits()), -32768);
    assert_eq!(f64_to_wrapping_i16((-32769.9f64).to_bits()), 32767);
    assert_eq!(f64_to_wrapping_i16((-33268.1f64).to_bits()), 32268);
    assert_eq!(f64_to_wrapping_i16((-196608.0f64).to_bits()), 0);
    assert_eq!(f64_to_wrapping_i16(f64::NAN.to_bits()), 0);
    assert_eq!(f64_to_wrapping_i16(f64::INFINITY.to_bits()), 0);
    assert_eq!(f64_to_wrapping_i16(f64::NEG_INFINITY.to_bits()), 0);
}

#[test]
fn wrapping_u32() {
    assert_eq!(f64_to_wrapping_u32((0.0f64).to_bits()), 0);
    assert_eq!(f64_to_wrapping_u32((1.0f64).to_bits()), 1);
    assert_eq!(f64_to_wrapping_u32((-1.0f64).to_bits()), 4294967295);
    assert_eq!(f64_to_wrapping_u32((123.1f64).to_bits()), 123);
    assert_eq!(f64_to_wrapping_u32((4294968295.9f64).to_bits()), 999);
    assert_eq!(f64_to_wrapping_u32((-4289411740.3f64).to_bits()), 5555556);
    assert_eq!(f64_to_wrapping_u32((-12884901888.0f64).to_bits()), 0);
    assert_eq!(f64_to_wrapping_u32(f64::NAN.to_bits()), 0);
    assert_eq!(f64_to_wrapping_u32(f64::INFINITY.to_bits()), 0);
    assert_eq!(f64_to_wrapping_u32(f64::NEG_INFINITY.to_bits()), 0);
}

#[test]
fn wrapping_i32() {
    assert_eq!(f64_to_wrapping_i32((0.0f64).to_bits()), 0);
    assert_eq!(f64_to_wrapping_i32((1.0f64).to_bits()), 1);
    assert_eq!(f64_to_wrapping_i32((-1.0f64).to_bits()), -1);
    assert_eq!(f64_to_wrapping_i32((123.1f64).to_bits()), 123);
    assert_eq!(f64_to_wrapping_i32((4294968295.9f64).to_bits()), 999);
    assert_eq!(f64_to_wrapping_i32((2147484648.3f64).to_bits()), -2147482648);
    assert_eq!(f64_to_wrapping_i32((-8589934591.2f64).to_bits()), 1);
    assert_eq!(f64_to_wrapping_i32((4294966896.1f64).to_bits()), -400);
    assert_eq!(f64_to_wrapping_i32(f64::NAN.to_bits()), 0);
    assert_eq!(f64_to_wrapping_i32(f64::INFINITY.to_bits()), 0);
    assert_eq!(f64_to_wrapping_i32(f64::NEG_INFINITY.to_bits()), 0);
}

#[test]
fn f64_to_string() {
    assert_eq!(avm1_engine::number::f64_to_string((0.0f64).to_bits()), "0");
    assert_eq!(avm1_engine::number::f64_to_string((-0.0f64).to_bits()), "0");
    assert_eq!(avm1_engine::number::f64_to_string((1.0f64).to_bits()), "1");
    assert_eq!(avm1_engine::number::f64_to_string((1.4f64).to_bits()), "1.4");
    assert_eq!(avm1_engine::number::f64_to_string((-990.123f64).to_bits()), "-990.123");
    assert_eq!(avm1_engine::number::f64_to_string(f64::NAN.to_bits()), "NaN");
    assert_eq!(avm1_engine::number::f64_to_string(f64::INFINITY.to_bits()), "Infinity");
    assert_eq!(avm1_engine::number::f64_to_string(f64::NEG_INFINITY.to_bits()), "-Infinity");
    assert_eq!(avm1_engine::number::f64_to_string((9.9999e14f64).to_bits()), "999990000000000");
    assert_eq!(avm1_engine::number::f64_to_string((-9.9999e14f64).to_bits()), "-999990000000000");
    assert_eq!(avm1_engine::number::f64_to_string((1e15f64).to_bits()), "1e+15");
    assert_eq!(avm1_engine::number::f64_to_string((-1e15f64).to_bits()), "-1e+15");
    assert_eq!(avm1_engine::number::f64_to_string((1e-5f64).to_bits()), "0.00001");
    assert_eq!(avm1_engine::number::f64_to_string((-1e-5f64).to_bits()), "-0.00001");
    assert_eq!(avm1_engine::number::f64_to_string((0.999e-5f64).to_bits()), "9.99e-6");
    assert_eq!(avm1_engine::number::f64_to_string((-0.999e-5f64).to_bits()), "-9.99e-6");
}

#[test]
fn f64_to_string_tiny() {
    // the smallest subnormal and values near the bottom of the normal
    // range exercise printing far below the decimal threshold
    assert_eq!(avm1_engine::number::f64_to_string(5e-324f64.to_bits()), "5e-324");
    assert_eq!(avm1_engine::number::f64_to_string((-5e-324f64).to_bits()), "-5e-324");
    assert_eq!(avm1_engine::number::f64_to_string(2.2250738585072014e-308f64.to_bits()), "2.2250738585072014e-308");
    assert_eq!(avm1_engine::number::f64_to_string(1e-300f64.to_bits()), "1e-300");
    assert_eq!(avm1_engine::number::f64_to_string(2.5e-310f64.to_bits()), "2.5e-310");
}

#[test]
fn to_primitive_num() {
    let (mut heap, ctx) = setup(6);
    let true_value = Value::Bool(true);
    let undefined = Value::Undefined;
    let false_value = Value::Bool(false);
    let null = Value::Null;

    assert_eq!(heap.to_primitive_num(&true_value, &ctx, FUEL).unwrap(), true_value);
    assert_eq!(heap.to_primitive_num(&undefined, &ctx, FUEL).unwrap(), undefined);
    assert_eq!(heap.to_primitive_num(&false_value, &ctx, FUEL).unwrap(), false_value);
    assert_eq!(heap.to_primitive_num(&null, &ctx, FUEL).unwrap(), null);

    let vglobal = Value::Object(ctx.globals);
    assert_eq!(heap.to_primitive_num(&vglobal, &ctx, FUEL).unwrap(), undefined);

    let valueof = heap.new_function(
        NativeFunction::Constant(num(5.0)),
        Some(ctx.function_proto),
    );
    let o = heap.new_object(Some(ctx.object_proto));
    heap.define_value(o, "valueOf", Value::Object(valueof), Attribute::empty());
    assert_eq!(heap.to_primitive_num(&Value::Object(o), &ctx, FUEL).unwrap(), num(5.0));
}

#[test]
fn to_number_swf7() {
    let (mut heap, ctx) = setup(7);
    let t = Value::Bool(true);
    let u = Value::Undefined;
    let f = Value::Bool(false);
    let n = Value::Null;

    assert_eq!(heap.coerce_to_f64(&t, &ctx, FUEL).unwrap(), (1.0f64).to_bits());
    assert!(f64::from_bits(heap.coerce_to_f64(&u, &ctx, FUEL).unwrap()).is_nan());
    assert_eq!(heap.coerce_to_f64(&f, &ctx, FUEL).unwrap(), (0.0f64).to_bits());
    assert!(f64::from_bits(heap.coerce_to_f64(&n, &ctx, FUEL).unwrap()).is_nan());

    let o = heap.new_object(None);
    let bo = Value::Object(o);
    assert!(f64::from_bits(heap.coerce_to_f64(&bo, &ctx, FUEL).unwrap()).is_nan());
}

#[test]
fn to_number_swf6() {
    let (mut heap, ctx) = setup(6);
    let t = Value::Bool(true);
    let u = Value::Undefined;
    let f = Value::Bool(false);
    let n = Value::Null;

    assert_eq!(heap.coerce_to_f64(&t, &ctx, FUEL).unwrap(), (1.0f64).to_bits());
    assert_eq!(heap.coerce_to_f64(&u, &ctx, FUEL).unwrap(), (0.0f64).to_bits());
    assert_eq!(heap.coerce_to_f64(&f, &ctx, FUEL).unwrap(), (0.0f64).to_bits());
    assert_eq!(heap.coerce_to_f64(&n, &ctx, FUEL).unwrap(), (0.0f64).to_bits());

    let o = heap.new_object(None);
    let bo = Value::Object(o);
    assert_eq!(heap.coerce_to_f64(&bo, &ctx, FUEL).unwrap(), (0.0f64).to_bits());
}

#[test]
fn abstract_lt_num() {
    let (mut heap, ctx) = setup(8);
    let a = num(1.0);
    let b = num(2.0);
    assert_eq!(heap.abstract_lt(&a, &b, &ctx, FUEL).unwrap(), Value::Bool(true));

    let nan = num(f64::NAN);
    assert_eq!(heap.abstract_lt(&a, &nan, &ctx, FUEL).unwrap(), Value::Undefined);

    let inf = num(f64::INFINITY);
    assert_eq!(heap.abstract_lt(&a, &inf, &ctx, FUEL).unwrap(), Value::Bool(true));

    let neg_inf = num(f64::NEG_INFINITY);
    assert_eq!(heap.abstract_lt(&a, &neg_inf, &ctx, FUEL).unwrap(), Value::Bool(false));

    let zero = num(0.0);
    assert_eq!(heap.abstract_lt(&a, &zero, &ctx, FUEL).unwrap(), Value::Bool(false));
}

#[test]
fn abstract_gt_num() {
    let (mut heap, ctx) = setup(8);
    let a = num(1.0);
    let b = num(2.0);
    assert_eq!(heap.abstract_lt(&b, &a, &ctx, FUEL).unwrap(), Value::Bool(false));

    let nan = num(f64::NAN);
    assert_eq!(heap.abstract_lt(&nan, &a, &ctx, FUEL).unwrap(), Value::Undefined);

    let inf = num(f64::INFINITY);
    assert_eq!(heap.abstract_lt(&inf, &a, &ctx, FUEL).unwrap(), Value::Bool(false));

    let neg_inf = num(f64::NEG_INFINITY);
    assert_eq!(heap.abstract_lt(&neg_inf, &a, &ctx, FUEL).unwrap(), Value::Bool(true));

    let zero = num(0.0);
    assert_eq!(heap.abstract_lt(&zero, &a, &ctx, FUEL).unwrap(), Value::Bool(true));
}

#[test]
fn abstract_lt_str() {
    let (mut heap, ctx) = setup(8);
    let a = Value::Str("a".to_string());
    let b = Value::Str("b".to_string());
    assert_eq!(heap.abstract_lt(&a, &b, &ctx, FUEL).unwrap(), Value::Bool(true));
}

#[test]
fn abstract_gt_str() {
    let (mut heap, ctx) = setup(8);
    let a = Value::Str("a".to_string());
    let b = Value::Str("b".to_string());
    assert_eq!(heap.abstract_lt(&b, &a, &ctx, FUEL).unwrap(), Value::Bool(false));
}

#[test]
fn hex_and_octal_version_gate() {
    // at or above the hex-literal threshold the hexadecimal form reads
    assert_eq!(string_to_number("0xFF", 6), (255.0f64).to_bits());
    assert_eq!(string_to_number("0xFF", 7), (255.0f64).to_bits());
    // below the threshold the same text goes through the decimal parse
    // and fails to NaN
    assert!(f64::from_bits(string_to_number("0xFF", 5)).is_nan());
    // boundary exactly: five does not recognise it, six does
    assert!(f64::from_bits(string_to_number("0x10", 5)).is_nan());
    assert_eq!(string_to_number("0x10", 6), (16.0f64).to_bits());
    // octal with a leading zero, sign included
    assert_eq!(string_to_number("017", 6), (15.0f64).to_bits());
    assert_eq!(string_to_number("-017", 6), (-15.0f64).to_bits());
    assert_eq!(string_to_number("017", 5), (17.0f64).to_bits());
    // plain decimal still reads decimally, with leading whitespace
    assert_eq!(string_to_number("2.5", 6), (2.5f64).to_bits());
    assert_eq!(string_to_number(" \t2.5", 6), (2.5f64).to_bits());
    // strings that look like an infinity name read as NaN
    assert!(f64::from_bits(string_to_number("inf", 7)).is_nan());
    assert!(f64::from_bits(string_to_number("-Infinity", 7)).is_nan());
    assert!(f64::from_bits(string_to_number("", 7)).is_nan());
}

#[test]
fn abstract_eq_symmetry_spot_checks() {
    // runtime spot checks of the symmetry law on mixed primitive pairs
    let pairs = [
        (Value::Bool(true), Value::Str("1".to_string())),
        (Value::Bool(false), Value::Undefined),
        (num(0.0), Value::Str("0".to_string())),
        (num(-0.0), num(0.0)),
        (Value::Undefined, Value::Null),
        (Value::Str("a".to_string()), num(1.0)),
    ];
    for version in [5u8, 6, 7] {
        for (a, b) in pairs.iter() {
            assert_eq!(
                abstract_eq_prim(a, b, version, false),
                abstract_eq_prim(b, a, version, false)
            );
        }
    }
}

#[test]
fn nan_equality_direct_and_coerced() {
    let (mut heap, ctx) = setup(7);
    let nan = num(f64::NAN);
    // the direct comparison carries the legacy special case
    assert_eq!(heap.abstract_eq(&nan, &nan, &ctx, false, FUEL).unwrap(), Value::Bool(true));
    // an intermediate coerced comparison treats NaN as IEEE does: the
    // string coerces to NaN, yet the comparison is false
    let s = Value::Str("abc".to_string());
    assert_eq!(heap.abstract_eq(&s, &nan, &ctx, false, FUEL).unwrap(), Value::Bool(false));
}

#[test]
fn abstract_eq_objects_and_absent_values() {
    let (mut heap, ctx) = setup(7);
    let a = heap.new_object(Some(ctx.object_proto));
    let b = heap.new_object(Some(ctx.object_proto));
    assert_eq!(
        heap.abstract_eq(&Value::Object(a), &Value::Object(a), &ctx, false, FUEL).unwrap(),
        Value::Bool(true)
    );
    assert_eq!(
        heap.abstract_eq(&Value::Object(a), &Value::Object(b), &ctx, false, FUEL).unwrap(),
        Value::Bool(false)
    );
    // null and undefined are mutually equal, and equal to the global
    // object by the historical special case
    assert_eq!(
        heap.abstract_eq(&Value::Undefined, &Value::Null, &ctx, false, FUEL).unwrap(),
        Value::Bool(true)
    );
    assert_eq!(
        heap.abstract_eq(&Value::Object(ctx.globals), &Value::Null, &ctx, false, FUEL).unwrap(),
        Value::Bool(true)
    );
    assert_eq!(
        heap.abstract_eq(&Value::Object(a), &Value::Null, &ctx, false, FUEL).unwrap(),
        Value::Bool(false)
    );
}

#[test]
fn boolean_coercion_version_gate() {
    let zero_string = Value::Str("0".to_string());
    // below version seven the string is read as a number: zero is false
    assert_eq!(zero_string.as_bool(6), false);
    // from version seven on a nonempty string is true
    assert_eq!(zero_string.as_bool(7), true);
    let empty = Value::Str(String::new());
    assert_eq!(empty.as_bool(7), false);
    assert_eq!(Value::Str("NaN".to_string()).as_bool(6), true);
}

#[test]
fn integer_decimal_text() {
    assert_eq!(u32_to_string(0), "0");
    assert_eq!(u32_to_string(12345), "12345");
    assert_eq!(u32_to_string(4294967295), "4294967295");
}

#[test]
fn from_bool_version_gate() {
    assert_eq!(Value::from_bool(true, 5), Value::Bool(true));
    assert_eq!(Value::from_bool(true, 4), num(1.0));
    assert_eq!(Value::from_bool(false, 4), num(0.0));
}

#[test]
fn coerce_to_string_primitives() {
    let (mut heap, ctx7) = setup(7);
    assert_eq!(heap.coerce_to_string(&Value::Undefined, &ctx7, FUEL).unwrap(), "undefined");
    let (mut heap6, ctx6) = setup(6);
    assert_eq!(heap6.coerce_to_string(&Value::Undefined, &ctx6, FUEL).unwrap(), "");
    assert_eq!(heap.coerce_to_string(&Value::Null, &ctx7, FUEL).unwrap(), "null");
    assert_eq!(heap.coerce_to_string(&Value::Bool(true), &ctx7, FUEL).unwrap(), "true");
    assert_eq!(heap.coerce_to_string(&num(1.4), &ctx7, FUEL).unwrap(), "1.4");
    let o = heap.new_object(Some(ctx7.object_proto));
    assert_eq!(
        heap.coerce_to_string(&Value::Object(o), &ctx7, FUEL).unwrap(),
        "[type Object]"
    );
}

#[test]
fn thrown_values_propagate_and_limits_are_hard() {
    let (mut heap, ctx) = setup(7);
    let o = heap.new_object(Some(ctx.object_proto));
    let thrown = heap.new_function(
        avm1_engine::heap::NativeFunction::Throws(Value::Str("boom".to_string())),
        Some(ctx.function_proto),
    );
    heap.add_property(o, "trap", thrown, None, Attribute::empty());
    match heap.get(o, "trap", &ctx, FUEL) {
        Err(avm1_engine::error::AvmError::ThrownValue(v)) => {
            assert_eq!(v, Value::Str("boom".to_string()));
        }
        other => panic!("expected a thrown value, got {:?}", other),
    }
    // a cyclic prototype chain is the hard recursion error
    let a = heap.new_object(None);
    heap.set_proto(a, Value::Object(a));
    match heap.get(a, "missing", &ctx, FUEL) {
        Err(avm1_engine::error::AvmError::PrototypeRecursionLimit) => {}
        other => panic!("expected the recursion limit, got {:?}", other),
    }
}

#[test]
fn to_string_invokes_the_object_method() {
    let (mut heap, ctx) = setup(7);
    let o = heap.new_object(Some(ctx.object_proto));
    let to_string = heap.new_function(
        NativeFunction::Constant(Value::Str("custom text".to_string())),
        Some(ctx.function_proto),
    );
    heap.define_value(o, "toString", Value::Object(to_string), Attribute::empty());
    assert_eq!(
        heap.coerce_to_string(&Value::Object(o), &ctx, FUEL).unwrap(),
        "custom text"
    );

    // a method answering something that is no string prints generically
    let o2 = heap.new_object(Some(ctx.object_proto));
    let numeric = heap.new_function(
        NativeFunction::Constant(num(3.0)),
        Some(ctx.function_proto),
    );
    heap.define_value(o2, "toString", Value::Object(numeric), Attribute::empty());
    assert_eq!(
        heap.coerce_to_string(&Value::Object(o2), &ctx, FUEL).unwrap(),
        "[type Object]"
    );
}

#[test]
fn wrapping_conversions_through_the_heap() {
    let (mut heap, ctx) = setup(7);
    assert_eq!(heap.coerce_to_u16(&num(-1.0), &ctx, FUEL).unwrap(), 65535);
    assert_eq!(heap.coerce_to_i16(&num(32768.9), &ctx, FUEL).unwrap(), -32768);
    assert_eq!(heap.coerce_to_u32(&num(-1.0), &ctx, FUEL).unwrap(), 4294967295);
    assert_eq!(heap.coerce_to_i32(&num(2147484648.3), &ctx, FUEL).unwrap(), -2147482648);
    assert_eq!(
        heap.coerce_to_i32(&Value::Str("0x10".to_string()), &ctx, FUEL).unwrap(),
        16
    );
}

#[test]
fn typeof_answers() {
    let (mut heap, ctx) = setup(7);
    assert_eq!(heap.type_of_value(&Value::Undefined), "undefined");
    assert_eq!(heap.type_of_value(&Value::Null), "null");
    assert_eq!(heap.type_of_value(&num(1.0)), "number");
    assert_eq!(heap.type_of_value(&Value::Bool(true)), "boolean");
    assert_eq!(heap.type_of_value(&Value::Str(String::new())), "string");
    let o = heap.new_object(Some(ctx.object_proto));
    assert_eq!(heap.type_of_value(&Value::Object(o)), "object");
    let f = heap.new_function(NativeFunction::FunctionToString, Some(ctx.function_proto));
    assert_eq!(heap.type_of_value(&Value::Object(f)), "function");
    let _ = ctx;
}

#[test]
fn into_number_v1_rules() {
    assert_eq!(Value::Bool(true).into_number_v1(), (1.0f64).to_bits());
    assert_eq!(Value::Str("12".to_string()).into_number_v1(), (12.0f64).to_bits());
    assert_eq!(Value::Str("junk".to_string()).into_number_v1(), (0.0f64).to_bits());
    assert_eq!(Value::Undefined.into_number_v1(), (0.0f64).to_bits());
}
