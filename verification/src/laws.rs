//! Laws the engine states about itself, beyond the contracts on the
//! operations: the version-gated coercion facts and the symmetry of
//! abstract equality, proved once here for every input.
use crate::coerce::{spec_abstract_eq_prim, spec_eq_rank};
use crate::number::{
    spec_double_of_int, spec_ieee_eq, spec_is_nan, EXP_MASK, MANTISSA_MASK, NAN_BITS, ZERO_BITS,
};
use crate::number::parsed_number;
use crate::value::{
    spec_hex_accum, spec_hex_digit, spec_primitive_as_number, spec_string_to_number, spec_trim_ws,
    ValueView,
};
use vstd::prelude::*;

verus! {

/// The absent values coerce to zero in numeric context below the
/// legacy-arithmetic version, and to NaN at or above it.
pub proof fn lemma_absent_values_numeric_coercion(swf_version: u8)
    ensures
        swf_version >= 7 ==> spec_primitive_as_number(ValueView::Undefined, swf_version)
            == NAN_BITS && spec_primitive_as_number(ValueView::Null, swf_version) == NAN_BITS,
        swf_version < 7 ==> spec_primitive_as_number(ValueView::Undefined, swf_version)
            == ZERO_BITS && spec_primitive_as_number(ValueView::Null, swf_version) == ZERO_BITS,
{
}

/// The hexadecimal form is recognised exactly from the hex-literal
/// version on: at or above it the text `0xFF` reads as the double 255;
/// below it the same text falls through to the plain decimal parse
/// (whose failure the engine reads as NaN).
pub proof fn lemma_hex_threshold(swf_version: u8)
    ensures
        swf_version >= 6 ==> spec_string_to_number("0xFF"@, swf_version) == spec_double_of_int(
            255,
        ),
        swf_version < 6 ==> spec_string_to_number("0xFF"@, swf_version) == (match parsed_number(
            spec_trim_ws("0xFF"@),
        ) {
            Some(b) => b,
            None => NAN_BITS,
        }),
{
    reveal_strlit("0xFF");
    let s = "0xFF"@;
    assert(s.len() == 4 && s[0] == '0' && s[1] == 'x' && s[2] == 'F' && s[3] == 'F');
    if swf_version >= 6 {
        let t0 = s.subrange(2, 4);
        assert(t0.len() == 2 && t0[0] == 'F' && t0[1] == 'F');
        let t1 = t0.subrange(1, 2);
        assert(t1.len() == 1 && t1[0] == 'F');
        let t2 = t1.subrange(1, 1);
        assert(t2.len() == 0);
        assert(spec_hex_digit('F') == Some(15u32));
        assert(spec_hex_accum(t2, 255u32) == Some(255u32));
        assert(spec_hex_accum(t1, 15u32) == Some(255u32));
        assert(spec_hex_accum(t0, 0u32) == Some(255u32));
        assert(spec_string_to_number(s, swf_version) == spec_double_of_int(255));
    }
}

/// Two NaNs are equal under a direct abstract comparison - the legacy
/// special case - and unequal under a comparison that is itself the
/// result of a coercion, as IEEE comparison has it.
pub proof fn lemma_nan_equality(swf_version: u8)
    ensures
        spec_abstract_eq_prim(
            ValueView::Number(NAN_BITS),
            ValueView::Number(NAN_BITS),
            swf_version,
            false,
        ) == true,
        spec_abstract_eq_prim(
            ValueView::Number(NAN_BITS),
            ValueView::Number(NAN_BITS),
            swf_version,
            true,
        ) == false,
{
    assert(NAN_BITS & EXP_MASK == EXP_MASK && NAN_BITS & MANTISSA_MASK != 0) by (bit_vector);
    assert(spec_is_nan(NAN_BITS));
}

/// Abstract equality of primitives is symmetric, whatever the version
/// and whether or not the comparison came from a coercion.
pub proof fn lemma_abstract_eq_symmetric(a: ValueView, b: ValueView, swf_version: u8, coerced: bool)
    requires
        !(a is Object),
        !(b is Object),
    ensures
        spec_abstract_eq_prim(a, b, swf_version, coerced) == spec_abstract_eq_prim(
            b,
            a,
            swf_version,
            coerced,
        ),
    decreases spec_eq_rank(a) + spec_eq_rank(b),
{
    match (a, b) {
        (ValueView::Number(x), ValueView::Number(y)) => {
            assert(spec_ieee_eq(x, y) == spec_ieee_eq(y, x));
        },
        (ValueView::Number(x), ValueView::Str(y)) => {
            let ny = spec_string_to_number(y, swf_version);
            assert(spec_abstract_eq_prim(a, b, swf_version, coerced) == spec_abstract_eq_prim(
                a,
                ValueView::Number(ny),
                swf_version,
                true,
            ));
            assert(spec_abstract_eq_prim(b, a, swf_version, coerced) == spec_abstract_eq_prim(
                ValueView::Number(ny),
                a,
                swf_version,
                true,
            ));
            assert(spec_ieee_eq(x, ny) == spec_ieee_eq(ny, x));
        },
        (ValueView::Str(x), ValueView::Number(y)) => {
            let nx = spec_string_to_number(x, swf_version);
            assert(spec_abstract_eq_prim(a, b, swf_version, coerced) == spec_abstract_eq_prim(
                ValueView::Number(nx),
                b,
                swf_version,
                true,
            ));
            assert(spec_abstract_eq_prim(b, a, swf_version, coerced) == spec_abstract_eq_prim(
                b,
                ValueView::Number(nx),
                swf_version,
                true,
            ));
            assert(spec_ieee_eq(nx, y) == spec_ieee_eq(y, nx));
        },
        (ValueView::Bool(x), ValueView::Bool(y)) => {
        },
        (ValueView::Bool(_), _) => {
            let na = spec_primitive_as_number(a, swf_version);
            lemma_abstract_eq_symmetric(ValueView::Number(na), b, swf_version, true);
            assert(spec_abstract_eq_prim(a, b, swf_version, coerced) == spec_abstract_eq_prim(
                ValueView::Number(na),
                b,
                swf_version,
                true,
            ));
            assert(spec_abstract_eq_prim(b, a, swf_version, coerced) == spec_abstract_eq_prim(
                b,
                ValueView::Number(na),
                swf_version,
                true,
            ));
        },
        (_, ValueView::Bool(_)) => {
            let nb = spec_primitive_as_number(b, swf_version);
            lemma_abstract_eq_symmetric(a, ValueView::Number(nb), swf_version, true);
            assert(spec_abstract_eq_prim(a, b, swf_version, coerced) == spec_abstract_eq_prim(
                a,
                ValueView::Number(nb),
                swf_version,
                true,
            ));
            assert(spec_abstract_eq_prim(b, a, swf_version, coerced) == spec_abstract_eq_prim(
                ValueView::Number(nb),
                a,
                swf_version,
                true,
            ));
        },
        _ => {
        },
    }
}

} // verus!
