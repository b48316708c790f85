//! The coercion algorithms that may involve objects: converting to a
//! primitive may invoke `valueOf`, converting to text may invoke
//! `toString`, and the abstract comparisons coerce their operands. On
//! primitives all of them reduce to the pure algorithms of `value`, and
//! the contracts here say exactly that.
use crate::error::AvmError;
use crate::heap::{Context, Heap, MethodOutcome};
use crate::number::{
    f64_to_wrapping_i16, f64_to_wrapping_i32, f64_to_wrapping_u16, f64_to_wrapping_u32,
    f64_to_string, ieee_eq, ieee_lt, is_nan_bits, spec_f64_text, spec_ieee_eq, spec_ieee_lt,
    spec_is_nan, spec_trunc,
};
use crate::object::Object;
use crate::value::{
    primitive_as_number, spec_primitive_as_number, spec_string_to_number, Value, ValueView,
};
use vstd::prelude::*;
use vstd::string::StringExecFns;

verus! {

/// Lexicographic order of two texts by code point (what byte order of
/// their encodings also gives).
pub open spec fn spec_str_lt(a: Seq<char>, b: Seq<char>) -> bool
    decreases a.len(),
{
    if b.len() == 0 {
        false
    } else if a.len() == 0 {
        true
    } else if a[0] != b[0] {
        (a[0] as int) < (b[0] as int)
    } else {
        spec_str_lt(a.subrange(1, a.len() as int), b.subrange(1, b.len() as int))
    }
}

/// The abstract relational comparison of two primitives: two strings
/// compare lexicographically; anything else compares numerically, with
/// NaN on either side answering the absent value rather than a boolean.
pub open spec fn spec_abstract_lt_prim(a: ValueView, b: ValueView, swf_version: u8) -> ValueView {
    if a is Str && b is Str {
        ValueView::Bool(spec_str_lt(a->Str_0, b->Str_0))
    } else {
        let na = spec_primitive_as_number(a, swf_version);
        let nb = spec_primitive_as_number(b, swf_version);
        if spec_is_nan(na) || spec_is_nan(nb) {
            ValueView::Undefined
        } else {
            ValueView::Bool(spec_ieee_lt(na, nb))
        }
    }
}

/// How far a value is from the ground cases of the abstract equality
/// recursion: booleans coerce to numbers, strings coerce against
/// numbers.
pub open spec fn spec_eq_rank(v: ValueView) -> nat {
    match v {
        ValueView::Bool(_) => 2,
        ValueView::Str(_) => 1,
        _ => 0,
    }
}

/// The abstract equality of two primitives. `coerced` tells whether
/// this comparison is itself the result of a coercion: only a direct
/// comparison carries the legacy special case that NaN equals NaN.
pub open spec fn spec_abstract_eq_prim(
    a: ValueView,
    b: ValueView,
    swf_version: u8,
    coerced: bool,
) -> bool
    decreases spec_eq_rank(a) + spec_eq_rank(b),
{
    match (a, b) {
        (ValueView::Undefined, ValueView::Undefined) => true,
        (ValueView::Null, ValueView::Null) => true,
        (ValueView::Number(x), ValueView::Number(y)) => (!coerced && spec_is_nan(x) && spec_is_nan(
            y,
        )) || spec_ieee_eq(x, y),
        (ValueView::Str(x), ValueView::Str(y)) => x == y,
        (ValueView::Bool(x), ValueView::Bool(y)) => x == y,
        (ValueView::Undefined, ValueView::Null) => true,
        (ValueView::Null, ValueView::Undefined) => true,
        (ValueView::Number(_), ValueView::Str(y)) => spec_abstract_eq_prim(
            a,
            ValueView::Number(spec_string_to_number(y, swf_version)),
            swf_version,
            true,
        ),
        (ValueView::Str(x), ValueView::Number(_)) => spec_abstract_eq_prim(
            ValueView::Number(spec_string_to_number(x, swf_version)),
            b,
            swf_version,
            true,
        ),
        (ValueView::Bool(_), _) => spec_abstract_eq_prim(
            ValueView::Number(spec_primitive_as_number(a, swf_version)),
            b,
            swf_version,
            true,
        ),
        (_, ValueView::Bool(_)) => spec_abstract_eq_prim(
            a,
            ValueView::Number(spec_primitive_as_number(b, swf_version)),
            swf_version,
            true,
        ),
        _ => false,
    }
}

/// The abstract equality of two primitives, executable.
pub fn abstract_eq_prim(a: &Value, b: &Value, swf_version: u8, coerced: bool) -> (r: bool)
    requires
        !(a@ is Object),
        !(b@ is Object),
    ensures
        r == spec_abstract_eq_prim(a@, b@, swf_version, coerced),
    decreases spec_eq_rank(a@) + spec_eq_rank(b@),
{
    match (a, b) {
        (Value::Undefined, Value::Undefined) => true,
        (Value::Null, Value::Null) => true,
        (Value::Number(x), Value::Number(y)) => (!coerced && is_nan_bits(*x) && is_nan_bits(*y))
            || ieee_eq(*x, *y),
        (Value::Str(x), Value::Str(y)) => crate::strings::str_eq(x.as_str(), y.as_str()),
        (Value::Bool(x), Value::Bool(y)) => *x == *y,
        (Value::Undefined, Value::Null) => true,
        (Value::Null, Value::Undefined) => true,
        (Value::Number(_), Value::Str(y)) => {
            let n = crate::value::string_to_number(y.as_str(), swf_version);
            abstract_eq_prim(a, &Value::Number(n), swf_version, true)
        },
        (Value::Str(x), Value::Number(_)) => {
            let n = crate::value::string_to_number(x.as_str(), swf_version);
            abstract_eq_prim(&Value::Number(n), b, swf_version, true)
        },
        (Value::Bool(_), _) => {
            let n = primitive_as_number(a, swf_version);
            abstract_eq_prim(&Value::Number(n), b, swf_version, true)
        },
        (_, Value::Bool(_)) => {
            let n = primitive_as_number(b, swf_version);
            abstract_eq_prim(a, &Value::Number(n), swf_version, true)
        },
        _ => false,
    }
}

/// Lexicographic comparison, executable.
pub fn str_lt(a: &str, b: &str) -> (r: bool)
    ensures
        r == spec_str_lt(a@, b@),
{
    let av = crate::strings::chars_vec(a);
    let bv = crate::strings::chars_vec(b);
    let mut i: usize = 0;
    proof {
        assert(a@.subrange(0, a@.len() as int) =~= a@);
        assert(b@.subrange(0, b@.len() as int) =~= b@);
    }
    loop
        invariant
            av@ == a@,
            bv@ == b@,
            i <= av@.len(),
            i <= bv@.len(),
            spec_str_lt(a@, b@) == spec_str_lt(
                a@.subrange(i as int, a@.len() as int),
                b@.subrange(i as int, b@.len() as int),
            ),
        decreases av@.len() - i,
    {
        let ghost at = a@.subrange(i as int, a@.len() as int);
        let ghost bt = b@.subrange(i as int, b@.len() as int);
        if i >= bv.len() {
            proof {
                assert(bt.len() == 0);
            }
            return false;
        }
        if i >= av.len() {
            proof {
                assert(at.len() == 0 && bt.len() > 0);
            }
            return true;
        }
        if av[i] != bv[i] {
            proof {
                assert(at[0] == a@[i as int] && bt[0] == b@[i as int]);
                assert(spec_str_lt(at, bt) == ((a@[i as int] as int) < (b@[i as int] as int)));
            }
            return av[i] < bv[i];
        }
        proof {
            assert(at[0] == bt[0]);
            assert(at.subrange(1, at.len() as int) =~= a@.subrange(i + 1, a@.len() as int));
            assert(bt.subrange(1, bt.len() as int) =~= b@.subrange(i + 1, b@.len() as int));
        }
        i += 1;
    }
}

impl Heap {
    /// The primitive a numeric context reduces a value to: `valueOf` is
    /// invoked on an object (and `toString` never is); everything else
    /// is already primitive and passes through.
    pub fn to_primitive_num(&mut self, v: &Value, ctx: &Context, fuel: u32) -> (r: Result<
        Value,
        AvmError,
    >)
        requires
            old(self).wf(),
            old(self).spec_wf_value(v@),
            old(self).spec_valid_ctx(*ctx),
        ensures
            final(self).wf(),
            final(self).grown_from(old(self)),
            final(self).spec_valid_ctx(*ctx),
            match r {
                Ok(x) => final(self).spec_wf_value(x@),
                Err(e) => match e@ {
                    crate::error::AvmErrorView::Thrown(t) => final(self).spec_wf_value(t),
                    _ => true,
                },
            },
            !(v@ is Object) ==> r is Ok && (r matches Ok(x) ==> x@ == v@) && *final(self) == *old(self),
            v@ is Object ==> match old(self).spec_to_primitive_outcome(
                v@,
                ctx.spec_case_sensitive(),
            ) {
                MethodOutcome::Answers(x) => fuel >= 4 ==> r is Ok && (r matches Ok(p) ==> p@ == x)
                    && *final(self) == *old(self),
                MethodOutcome::Raises(t) => fuel >= 4 ==> r is Err && (r matches Err(e) ==> e@
                    == crate::error::AvmErrorView::Thrown(t)) && *final(self) == *old(self),
                MethodOutcome::Unknown => true,
            },
        decreases fuel, 5int,
    {
        match v {
            Value::Object(o) => {
                if fuel == 0 {
                    return Err(AvmError::ExecutionLimit);
                }
                let args: Vec<Value> = Vec::new();
                self.call_method(*o, "valueOf", 0, &args, ctx, (fuel - 1) as u32)
            },
            other => Ok(other.duplicate()),
        }
    }

    /// Numeric coercion: an object goes through `valueOf` first, then
    /// the primitive rules apply.
    pub fn coerce_to_f64(&mut self, v: &Value, ctx: &Context, fuel: u32) -> (r: Result<
        u64,
        AvmError,
    >)
        requires
            old(self).wf(),
            old(self).spec_wf_value(v@),
            old(self).spec_valid_ctx(*ctx),
        ensures
            final(self).wf(),
            final(self).grown_from(old(self)),
            final(self).spec_valid_ctx(*ctx),
            match r {
                Ok(_) => true,
                Err(e) => match e@ {
                    crate::error::AvmErrorView::Thrown(t) => final(self).spec_wf_value(t),
                    _ => true,
                },
            },
            !(v@ is Object) ==> r is Ok && (r matches Ok(b) ==> b == spec_primitive_as_number(
                v@,
                ctx.swf_version,
            )) && *final(self) == *old(self),
            v@ is Object ==> match old(self).spec_to_primitive_outcome(
                v@,
                ctx.spec_case_sensitive(),
            ) {
                MethodOutcome::Answers(x) => fuel >= 5 ==> r is Ok && (r matches Ok(b) ==> b
                    == spec_primitive_as_number(x, ctx.swf_version)) && *final(self) == *old(self),
                MethodOutcome::Raises(t) => fuel >= 5 ==> r is Err && (r matches Err(e) ==> e@
                    == crate::error::AvmErrorView::Thrown(t)) && *final(self) == *old(self),
                MethodOutcome::Unknown => true,
            },
        decreases fuel, 5int,
    {
        match v {
            Value::Object(_) => {
                if fuel == 0 {
                    return Err(AvmError::ExecutionLimit);
                }
                let prim = match self.to_primitive_num(v, ctx, (fuel - 1) as u32) {
                    Ok(p) => p,
                    Err(e) => { return Err(e) },
                };
                Ok(primitive_as_number(&prim, ctx.swf_version))
            },
            other => Ok(primitive_as_number(other, ctx.swf_version)),
        }
    }

    /// Wrapping 16-bit unsigned coercion.
    pub fn coerce_to_u16(&mut self, v: &Value, ctx: &Context, fuel: u32) -> (r: Result<
        u16,
        AvmError,
    >)
        requires
            old(self).wf(),
            old(self).spec_wf_value(v@),
            old(self).spec_valid_ctx(*ctx),
        ensures
            final(self).wf(),
            final(self).grown_from(old(self)),
            final(self).spec_valid_ctx(*ctx),
            !(v@ is Object) ==> r is Ok && (r matches Ok(b) ==> b as int == spec_trunc(
                spec_primitive_as_number(v@, ctx.swf_version),
            ) % 0x1_0000) && *final(self) == *old(self),
        decreases fuel, 5int,
    {
        match self.coerce_to_f64(v, ctx, fuel) {
            Ok(b) => Ok(f64_to_wrapping_u16(b)),
            Err(e) => Err(e),
        }
    }

    /// Wrapping 16-bit signed coercion.
    pub fn coerce_to_i16(&mut self, v: &Value, ctx: &Context, fuel: u32) -> (r: Result<
        i16,
        AvmError,
    >)
        requires
            old(self).wf(),
            old(self).spec_wf_value(v@),
            old(self).spec_valid_ctx(*ctx),
        ensures
            final(self).wf(),
            final(self).grown_from(old(self)),
            final(self).spec_valid_ctx(*ctx),
            !(v@ is Object) ==> r is Ok && (r matches Ok(b) ==> b as int == ({
                let w = spec_trunc(spec_primitive_as_number(v@, ctx.swf_version)) % 0x1_0000;
                if w < 0x8000 {
                    w
                } else {
                    w - 0x1_0000
                }
            })) && *final(self) == *old(self),
        decreases fuel, 5int,
    {
        match self.coerce_to_f64(v, ctx, fuel) {
            Ok(b) => Ok(f64_to_wrapping_i16(b)),
            Err(e) => Err(e),
        }
    }

    /// Wrapping 32-bit unsigned coercion.
    pub fn coerce_to_u32(&mut self, v: &Value, ctx: &Context, fuel: u32) -> (r: Result<
        u32,
        AvmError,
    >)
        requires
            old(self).wf(),
            old(self).spec_wf_value(v@),
            old(self).spec_valid_ctx(*ctx),
        ensures
            final(self).wf(),
            final(self).grown_from(old(self)),
            final(self).spec_valid_ctx(*ctx),
            !(v@ is Object) ==> r is Ok && (r matches Ok(b) ==> b as int == spec_trunc(
                spec_primitive_as_number(v@, ctx.swf_version),
            ) % 0x1_0000_0000) && *final(self) == *old(self),
        decreases fuel, 5int,
    {
        match self.coerce_to_f64(v, ctx, fuel) {
            Ok(b) => Ok(f64_to_wrapping_u32(b)),
            Err(e) => Err(e),
        }
    }

    /// Wrapping 32-bit signed coercion.
    pub fn coerce_to_i32(&mut self, v: &Value, ctx: &Context, fuel: u32) -> (r: Result<
        i32,
        AvmError,
    >)
        requires
            old(self).wf(),
            old(self).spec_wf_value(v@),
            old(self).spec_valid_ctx(*ctx),
        ensures
            final(self).wf(),
            final(self).grown_from(old(self)),
            final(self).spec_valid_ctx(*ctx),
            !(v@ is Object) ==> r is Ok && (r matches Ok(b) ==> b as int == ({
                let w = spec_trunc(spec_primitive_as_number(v@, ctx.swf_version)) % 0x1_0000_0000;
                if w < 0x8000_0000 {
                    w
                } else {
                    w - 0x1_0000_0000
                }
            })) && *final(self) == *old(self),
        decreases fuel, 5int,
    {
        match self.coerce_to_f64(v, ctx, fuel) {
            Ok(b) => Ok(f64_to_wrapping_i32(b)),
            Err(e) => Err(e),
        }
    }

    /// What text a primitive coerces to: the absent-uninitialized value
    /// prints its name only from the legacy-arithmetic version on.
    pub open spec fn spec_prim_to_string(v: ValueView, swf_version: u8) -> Seq<char> {
        match v {
            ValueView::Undefined => if swf_version >= crate::LEGACY_ARITHMETIC_VERSION {
                "undefined"@
            } else {
                ""@
            },
            ValueView::Null => "null"@,
            ValueView::Bool(b) => if b {
                "true"@
            } else {
                "false"@
            },
            ValueView::Number(n) => spec_f64_text(n),
            ValueView::Str(s) => s,
            ValueView::Object(_) => "[type Object]"@,
        }
    }

    /// Text coercion: an object's `toString` is invoked, and a
    /// non-string answer prints as the generic object text.
    pub fn coerce_to_string(&mut self, v: &Value, ctx: &Context, fuel: u32) -> (r: Result<
        String,
        AvmError,
    >)
        requires
            old(self).wf(),
            old(self).spec_wf_value(v@),
            old(self).spec_valid_ctx(*ctx),
        ensures
            final(self).wf(),
            final(self).grown_from(old(self)),
            final(self).spec_valid_ctx(*ctx),
            match r {
                Ok(_) => true,
                Err(e) => match e@ {
                    crate::error::AvmErrorView::Thrown(t) => final(self).spec_wf_value(t),
                    _ => true,
                },
            },
            !(v@ is Object) ==> r is Ok && (r matches Ok(s) ==> s@ == Self::spec_prim_to_string(
                v@,
                ctx.swf_version,
            )) && *final(self) == *old(self),
            v@ matches ValueView::Object(o) ==> match old(self).spec_method_call_result(
                o,
                "toString"@,
                ctx.spec_case_sensitive(),
            ) {
                MethodOutcome::Answers(x) => fuel >= 4 ==> r is Ok && (r matches Ok(s) ==> s@ == (
                if x is Str {
                    x->Str_0
                } else {
                    "[type Object]"@
                })) && *final(self) == *old(self),
                MethodOutcome::Raises(t) => fuel >= 4 ==> r is Err && (r matches Err(e) ==> e@
                    == crate::error::AvmErrorView::Thrown(t)) && *final(self) == *old(self),
                MethodOutcome::Unknown => true,
            },
        decreases fuel, 5int,
    {
        match v {
            Value::Object(o) => {
                if fuel == 0 {
                    return Err(AvmError::ExecutionLimit);
                }
                let args: Vec<Value> = Vec::new();
                let res = match self.call_method(*o, "toString", 0, &args, ctx, (fuel - 1) as u32) {
                    Ok(x) => x,
                    Err(e) => { return Err(e) },
                };
                match res {
                    Value::Str(s) => Ok(s),
                    _ => Ok(String::from_str("[type Object]")),
                }
            },
            Value::Undefined => {
                if ctx.swf_version >= crate::LEGACY_ARITHMETIC_VERSION {
                    Ok(String::from_str("undefined"))
                } else {
                    Ok(String::from_str(""))
                }
            },
            Value::Null => Ok(String::from_str("null")),
            Value::Bool(b) => Ok(
                String::from_str(
                    if *b {
                        "true"
                    } else {
                        "false"
                    },
                ),
            ),
            Value::Number(n) => Ok(f64_to_string(*n)),
            Value::Str(s) => Ok(s.clone()),
        }
    }

    /// The abstract relational comparison: both sides reduce to
    /// primitives; two strings compare lexicographically; otherwise the
    /// numeric rules apply, with NaN answering the absent value.
    pub fn abstract_lt(&mut self, a: &Value, b: &Value, ctx: &Context, fuel: u32) -> (r: Result<
        Value,
        AvmError,
    >)
        requires
            old(self).wf(),
            old(self).spec_wf_value(a@),
            old(self).spec_wf_value(b@),
            old(self).spec_valid_ctx(*ctx),
        ensures
            final(self).wf(),
            final(self).grown_from(old(self)),
            final(self).spec_valid_ctx(*ctx),
            !(a@ is Object) && !(b@ is Object) ==> r is Ok && (r matches Ok(x) ==> x@
                == spec_abstract_lt_prim(a@, b@, ctx.swf_version)) && *final(self) == *old(self),
            ({
                let cs = ctx.spec_case_sensitive();
                let oa = old(self).spec_to_primitive_outcome(a@, cs);
                let ob = old(self).spec_to_primitive_outcome(b@, cs);
                match (oa, ob) {
                    (MethodOutcome::Answers(x), MethodOutcome::Answers(y)) => fuel >= 4 ==> r is Ok
                        && (r matches Ok(v) ==> v@ == spec_abstract_lt_prim(x, y, ctx.swf_version))
                        && *final(self) == *old(self),
                    (MethodOutcome::Raises(t), _) => fuel >= 4 ==> r is Err && (r matches Err(e)
                        ==> e@ == crate::error::AvmErrorView::Thrown(t)) && *final(self) == *old(self),
                    (MethodOutcome::Answers(_), MethodOutcome::Raises(t)) => fuel >= 4 ==> r is Err
                        && (r matches Err(e) ==> e@ == crate::error::AvmErrorView::Thrown(t))
                        && *final(self) == *old(self),
                    _ => true,
                }
            }),
        decreases fuel, 5int,
    {
        let prim_a = match self.to_primitive_num(a, ctx, fuel) {
            Ok(x) => x,
            Err(e) => { return Err(e) },
        };
        let prim_b = match self.to_primitive_num(b, ctx, fuel) {
            Ok(x) => x,
            Err(e) => { return Err(e) },
        };
        if let (Value::Str(x), Value::Str(y)) = (&prim_a, &prim_b) {
            return Ok(Value::Bool(str_lt(x.as_str(), y.as_str())));
        }
        let na = primitive_as_number(&prim_a, ctx.swf_version);
        let nb = primitive_as_number(&prim_b, ctx.swf_version);
        if is_nan_bits(na) || is_nan_bits(nb) {
            return Ok(Value::Undefined);
        }
        Ok(Value::Bool(ieee_lt(na, nb)))
    }

    /// The abstract equality comparison. Primitive pairs compare by the
    /// pure rules; two objects compare by identity; an absent value
    /// equals the global object by the historical special case; a mixed
    /// object/primitive pair coerces the object side to a primitive and
    /// is unequal if an object still comes back.
    pub fn abstract_eq(
        &mut self,
        a: &Value,
        b: &Value,
        ctx: &Context,
        coerced: bool,
        fuel: u32,
    ) -> (r: Result<Value, AvmError>)
        requires
            old(self).wf(),
            old(self).spec_wf_value(a@),
            old(self).spec_wf_value(b@),
            old(self).spec_valid_ctx(*ctx),
        ensures
            final(self).wf(),
            final(self).grown_from(old(self)),
            final(self).spec_valid_ctx(*ctx),
            !(a@ is Object) && !(b@ is Object) ==> r is Ok && (r matches Ok(x) ==> x@
                == ValueView::Bool(spec_abstract_eq_prim(a@, b@, ctx.swf_version, coerced)))
                && *final(self) == *old(self),
            a@ is Object && b@ is Object ==> r is Ok && (r matches Ok(x) ==> x@ == ValueView::Bool(
                a@->Object_0 == b@->Object_0,
            )) && *final(self) == *old(self),
            (a@ is Object && (b@ is Undefined || b@ is Null)) ==> r is Ok && (r matches Ok(x) ==> x@
                == ValueView::Bool(a@->Object_0 == ctx.globals)) && *final(self) == *old(self),
            ((a@ is Undefined || a@ is Null) && b@ is Object) ==> r is Ok && (r matches Ok(x) ==> x@
                == ValueView::Bool(b@->Object_0 == ctx.globals)) && *final(self) == *old(self),
            (a@ is Object && (b@ is Number || b@ is Str)) ==> match old(
                self,
            ).spec_to_primitive_outcome(a@, ctx.spec_case_sensitive()) {
                MethodOutcome::Answers(x) => fuel >= 5 ==> r is Ok && (r matches Ok(v) ==> v@
                    == ValueView::Bool(
                    if x is Object {
                        false
                    } else {
                        spec_abstract_eq_prim(x, b@, ctx.swf_version, true)
                    },
                )) && *final(self) == *old(self),
                MethodOutcome::Raises(t) => fuel >= 5 ==> r is Err && (r matches Err(e) ==> e@
                    == crate::error::AvmErrorView::Thrown(t)) && *final(self) == *old(self),
                MethodOutcome::Unknown => true,
            },
            ((a@ is Number || a@ is Str) && b@ is Object) ==> match old(
                self,
            ).spec_to_primitive_outcome(b@, ctx.spec_case_sensitive()) {
                MethodOutcome::Answers(y) => fuel >= 5 ==> r is Ok && (r matches Ok(v) ==> v@
                    == ValueView::Bool(
                    if y is Object {
                        false
                    } else {
                        spec_abstract_eq_prim(a@, y, ctx.swf_version, true)
                    },
                )) && *final(self) == *old(self),
                MethodOutcome::Raises(t) => fuel >= 5 ==> r is Err && (r matches Err(e) ==> e@
                    == crate::error::AvmErrorView::Thrown(t)) && *final(self) == *old(self),
                MethodOutcome::Unknown => true,
            },
            (a@ is Object && b@ is Bool) ==> match old(self).spec_to_primitive_outcome(
                a@,
                ctx.spec_case_sensitive(),
            ) {
                MethodOutcome::Answers(x) => fuel >= 6 ==> r is Ok && (r matches Ok(v) ==> v@
                    == ValueView::Bool(
                    if x is Object {
                        false
                    } else {
                        spec_abstract_eq_prim(
                            x,
                            ValueView::Number(spec_primitive_as_number(b@, ctx.swf_version)),
                            ctx.swf_version,
                            true,
                        )
                    },
                )) && *final(self) == *old(self),
                MethodOutcome::Raises(t) => fuel >= 6 ==> r is Err && (r matches Err(e) ==> e@
                    == crate::error::AvmErrorView::Thrown(t)) && *final(self) == *old(self),
                MethodOutcome::Unknown => true,
            },
            (a@ is Bool && b@ is Object) ==> match old(self).spec_to_primitive_outcome(
                b@,
                ctx.spec_case_sensitive(),
            ) {
                MethodOutcome::Answers(y) => fuel >= 6 ==> r is Ok && (r matches Ok(v) ==> v@
                    == ValueView::Bool(
                    if y is Object {
                        false
                    } else {
                        spec_abstract_eq_prim(
                            ValueView::Number(spec_primitive_as_number(a@, ctx.swf_version)),
                            y,
                            ctx.swf_version,
                            true,
                        )
                    },
                )) && *final(self) == *old(self),
                MethodOutcome::Raises(t) => fuel >= 6 ==> r is Err && (r matches Err(e) ==> e@
                    == crate::error::AvmErrorView::Thrown(t)) && *final(self) == *old(self),
                MethodOutcome::Unknown => true,
            },
        decreases fuel, 5int,
    {
        match (a, b) {
            (Value::Object(x), Value::Object(y)) => Ok(Value::Bool(Object::ptr_eq(*x, *y))),
            (Value::Object(x), Value::Undefined) => Ok(
                Value::Bool(Object::ptr_eq(*x, ctx.globals)),
            ),
            (Value::Object(x), Value::Null) => Ok(Value::Bool(Object::ptr_eq(*x, ctx.globals))),
            (Value::Undefined, Value::Object(y)) => Ok(
                Value::Bool(Object::ptr_eq(*y, ctx.globals)),
            ),
            (Value::Null, Value::Object(y)) => Ok(Value::Bool(Object::ptr_eq(*y, ctx.globals))),
            (Value::Object(_), Value::Bool(_)) => {
                if fuel == 0 {
                    return Err(AvmError::ExecutionLimit);
                }
                // the boolean side coerces to a number first
                let nb = primitive_as_number(b, ctx.swf_version);
                self.abstract_eq(a, &Value::Number(nb), ctx, true, (fuel - 1) as u32)
            },
            (Value::Bool(_), Value::Object(_)) => {
                if fuel == 0 {
                    return Err(AvmError::ExecutionLimit);
                }
                let na = primitive_as_number(a, ctx.swf_version);
                self.abstract_eq(&Value::Number(na), b, ctx, true, (fuel - 1) as u32)
            },
            (Value::Object(_), _) => {
                if fuel == 0 {
                    return Err(AvmError::ExecutionLimit);
                }
                let prim = match self.to_primitive_num(a, ctx, (fuel - 1) as u32) {
                    Ok(p) => p,
                    Err(e) => { return Err(e) },
                };
                if !prim.is_primitive() {
                    return Ok(Value::Bool(false));
                }
                self.abstract_eq(&prim, b, ctx, true, (fuel - 1) as u32)
            },
            (_, Value::Object(_)) => {
                if fuel == 0 {
                    return Err(AvmError::ExecutionLimit);
                }
                let prim = match self.to_primitive_num(b, ctx, (fuel - 1) as u32) {
                    Ok(p) => p,
                    Err(e) => { return Err(e) },
                };
                if !prim.is_primitive() {
                    return Ok(Value::Bool(false));
                }
                self.abstract_eq(a, &prim, ctx, true, (fuel - 1) as u32)
            },
            _ => Ok(Value::Bool(abstract_eq_prim(a, b, ctx.swf_version, coerced))),
        }
    }
}

} // verus!
