//! The dynamic value type and its pure coercion algorithms.
//!
//! A value is one of: the absent-uninitialized value, the absent-nullish
//! value, a boolean, a double (held as its bit pattern), a string, or an
//! object reference. The coercions that need no object involvement -
//! everything on primitives - are pure functions of the value and the
//! dialect version, and live here. Coercions that may invoke `valueOf`
//! or `toString` on an object run through the heap and live with it.
use crate::number::{
    from_i32_bits, ieee_eq, is_nan_bits, is_zero_bits, parse_decimal_bits, parsed_number,
    spec_double_of_int, spec_ieee_eq, spec_is_nan, spec_is_zero, NAN_BITS, ONE_BITS, ZERO_BITS,
};
use crate::object::Object;
use crate::strings::chars_vec;
use crate::{HEX_LITERAL_VERSION, LEGACY_ARITHMETIC_VERSION};
use vstd::prelude::*;
use vstd::string::StrSliceExecFns;

verus! {

/// A value of the scripting language.
#[derive(Clone, Debug)]
pub enum Value {
    Undefined,
    Null,
    Bool(bool),
    /// A double, by its IEEE-754 bit pattern.
    Number(u64),
    Str(String),
    Object(Object),
}

/// The mathematical shape of a value: as `Value`, with the string as its
/// character sequence.
pub enum ValueView {
    Undefined,
    Null,
    Bool(bool),
    Number(u64),
    Str(Seq<char>),
    Object(Object),
}

impl View for Value {
    type V = ValueView;

    open spec fn view(&self) -> ValueView {
        match self {
            Value::Undefined => ValueView::Undefined,
            Value::Null => ValueView::Null,
            Value::Bool(b) => ValueView::Bool(*b),
            Value::Number(n) => ValueView::Number(*n),
            Value::Str(s) => ValueView::Str(s@),
            Value::Object(o) => ValueView::Object(*o),
        }
    }
}

/// Equality as the engine's tests compare values: by value for
/// primitives, with NaN equal to NaN, and by identity for objects.
pub open spec fn spec_value_eq(a: ValueView, b: ValueView) -> bool {
    match (a, b) {
        (ValueView::Undefined, ValueView::Undefined) => true,
        (ValueView::Null, ValueView::Null) => true,
        (ValueView::Bool(x), ValueView::Bool(y)) => x == y,
        (ValueView::Number(x), ValueView::Number(y)) => spec_ieee_eq(x, y) || (spec_is_nan(x)
            && spec_is_nan(y)),
        (ValueView::Str(x), ValueView::Str(y)) => x == y,
        (ValueView::Object(x), ValueView::Object(y)) => x == y,
        _ => false,
    }
}

impl PartialEq for Value {
    fn eq(&self, other: &Self) -> (r: bool) {
        match (self, other) {
            (Value::Undefined, Value::Undefined) => true,
            (Value::Null, Value::Null) => true,
            (Value::Bool(a), Value::Bool(b)) => *a == *b,
            (Value::Number(a), Value::Number(b)) => ieee_eq(*a, *b) || (is_nan_bits(*a)
                && is_nan_bits(*b)),
            (Value::Str(a), Value::Str(b)) => crate::strings::str_eq(a.as_str(), b.as_str()),
            (Value::Object(a), Value::Object(b)) => Object::ptr_eq(*a, *b),
            _ => false,
        }
    }
}

impl vstd::std_specs::cmp::PartialEqSpecImpl for Value {
    open spec fn obeys_eq_spec() -> bool {
        true
    }

    open spec fn eq_spec(&self, other: &Self) -> bool {
        spec_value_eq(self@, other@)
    }
}

impl Value {
    /// An identical value (object references are shared, strings copied).
    pub fn duplicate(&self) -> (r: Value)
        ensures
            r@ == self@,
    {
        match self {
            Value::Undefined => Value::Undefined,
            Value::Null => Value::Null,
            Value::Bool(b) => Value::Bool(*b),
            Value::Number(n) => Value::Number(*n),
            Value::Str(s) => Value::Str(s.clone()),
            Value::Object(o) => Value::Object(*o),
        }
    }

    /// Whether the value is primitive: anything but an object reference.
    pub fn is_primitive(&self) -> (r: bool)
        ensures
            r == !(self@ is Object),
    {
        !matches!(self, Value::Object(_))
    }

    /// The value a boolean takes on the stack: a real boolean from version
    /// five on, the number zero or one before.
    pub fn from_bool(value: bool, swf_version: u8) -> (r: Value)
        ensures
            r@ == spec_from_bool(value, swf_version),
    {
        if swf_version >= 5 {
            Value::Bool(value)
        } else {
            Value::Number(if value {
                ONE_BITS
            } else {
                ZERO_BITS
            })
        }
    }

    /// The earliest dialect's numeric coercion: booleans to zero or one,
    /// strings through the plain decimal parse with zero on failure,
    /// everything else to zero.
    pub fn into_number_v1(&self) -> (r: u64)
        ensures
            r == spec_into_number_v1(self@),
    {
        match self {
            Value::Bool(b) => if *b {
                ONE_BITS
            } else {
                ZERO_BITS
            },
            Value::Number(n) => *n,
            Value::Str(s) => match parse_decimal_bits(s.as_str()) {
                Some(b) => b,
                None => ZERO_BITS,
            },
            _ => ZERO_BITS,
        }
    }

    /// Boolean coercion. For strings the rule is version-gated: from
    /// version seven on a nonempty string is true; before that the string
    /// is read as a number and compared against zero.
    pub fn as_bool(&self, swf_version: u8) -> (r: bool)
        ensures
            r == spec_as_bool(self@, swf_version),
    {
        match self {
            Value::Bool(b) => *b,
            Value::Number(n) => !is_nan_bits(*n) && !is_zero_bits(*n),
            Value::Str(s) => {
                if swf_version >= LEGACY_ARITHMETIC_VERSION {
                    s.as_str().unicode_len() != 0
                } else {
                    let num = match parse_decimal_bits(s.as_str()) {
                        Some(b) => b,
                        None => ZERO_BITS,
                    };
                    !ieee_eq(num, ZERO_BITS)
                }
            },
            Value::Object(_) => true,
            _ => false,
        }
    }
}

pub open spec fn spec_from_bool(value: bool, swf_version: u8) -> ValueView {
    if swf_version >= 5 {
        ValueView::Bool(value)
    } else {
        ValueView::Number(
            if value {
                ONE_BITS
            } else {
                ZERO_BITS
            },
        )
    }
}

pub open spec fn spec_into_number_v1(v: ValueView) -> u64 {
    match v {
        ValueView::Bool(b) => if b {
            ONE_BITS
        } else {
            ZERO_BITS
        },
        ValueView::Number(n) => n,
        ValueView::Str(s) => match parsed_number(s) {
            Some(b) => b,
            None => ZERO_BITS,
        },
        _ => ZERO_BITS,
    }
}

pub open spec fn spec_as_bool(v: ValueView, swf_version: u8) -> bool {
    match v {
        ValueView::Bool(b) => b,
        ValueView::Number(n) => !spec_is_nan(n) && !spec_is_zero(n),
        ValueView::Str(s) => if swf_version >= LEGACY_ARITHMETIC_VERSION {
            s.len() != 0
        } else {
            !spec_ieee_eq(
                match parsed_number(s) {
                    Some(b) => b,
                    None => ZERO_BITS,
                },
                ZERO_BITS,
            )
        },
        ValueView::Object(_) => true,
        _ => false,
    }
}

// ---------------------------------------------------------------------
// Numeric coercion of primitives.
// ---------------------------------------------------------------------
pub open spec fn spec_is_ws(c: char) -> bool {
    c == '\t' || c == '\n' || c == '\r' || c == ' '
}

/// The string with its leading whitespace removed, as the decimal path
/// trims before parsing.
pub open spec fn spec_trim_ws(s: Seq<char>) -> Seq<char>
    decreases s.len(),
{
    if s.len() > 0 && spec_is_ws(s[0]) {
        spec_trim_ws(s.subrange(1, s.len() as int))
    } else {
        s
    }
}

pub open spec fn spec_hex_digit(c: char) -> Option<u32> {
    if '0' <= c && c <= '9' {
        Some((c as u32 - 48) as u32)
    } else if 'a' <= c && c <= 'f' {
        Some((c as u32 - 87) as u32)
    } else if 'A' <= c && c <= 'F' {
        Some((c as u32 - 55) as u32)
    } else {
        None
    }
}

/// Folds hexadecimal digits into a 32-bit accumulator, four bits per
/// digit, wrapping; `None` on the first character that is no hexadecimal
/// digit.
pub open spec fn spec_hex_accum(s: Seq<char>, acc: u32) -> Option<u32>
    decreases s.len(),
{
    if s.len() == 0 {
        Some(acc)
    } else {
        match spec_hex_digit(s[0]) {
            Some(d) => spec_hex_accum(
                s.subrange(1, s.len() as int),
                ((acc * 16 + d) % 0x1_0000_0000) as u32,
            ),
            None => None,
        }
    }
}

pub open spec fn spec_is_octal_digit(c: char) -> bool {
    '0' <= c && c <= '7'
}

/// Folds octal digits into a 32-bit accumulator, three bits per digit,
/// wrapping.
pub open spec fn spec_octal_accum(s: Seq<char>, acc: u32) -> u32
    decreases s.len(),
{
    if s.len() == 0 {
        acc
    } else {
        spec_octal_accum(
            s.subrange(1, s.len() as int),
            ((acc * 8 + (s[0] as u32 - 48)) % 0x1_0000_0000) as u32,
        )
    }
}

/// The signed reading of a 32-bit word.
pub open spec fn spec_as_i32(n: u32) -> int {
    if n < 0x8000_0000 {
        n as int
    } else {
        n - 0x1_0000_0000
    }
}

/// Whether the octal form applies: a leading zero, possibly behind one
/// sign, with nothing but octal digits after the first character.
pub open spec fn spec_octal_form(s: Seq<char>) -> bool {
    &&& s.len() >= 1
    &&& (s[0] == '0' || (s.len() >= 2 && (s[0] == '+' || s[0] == '-') && s[1] == '0'))
    &&& (forall|i: int| 1 <= i < s.len() ==> spec_is_octal_digit(s[i]))
}

/// Whether the string, after at most one sign, starts like an infinity
/// name; such strings parse to NaN here though the standard library
/// would accept them.
pub open spec fn spec_inf_form(s: Seq<char>) -> bool {
    let i: int = if s.len() >= 1 && (s[0] == '+' || s[0] == '-') {
        1
    } else {
        0
    };
    i < s.len() && (s[i] == 'i' || s[i] == 'I')
}

/// Numeric reading of a string. Hexadecimal and octal forms are
/// recognised only from the hex-literal version on; otherwise the string
/// is trimmed and read as plain decimal, NaN on failure.
pub open spec fn spec_string_to_number(s: Seq<char>, swf_version: u8) -> u64 {
    if swf_version >= HEX_LITERAL_VERSION && s.len() >= 2 && s[0] == '0' && s[1] == 'x' {
        match spec_hex_accum(s.subrange(2, s.len() as int), 0) {
            Some(n) => spec_double_of_int(spec_as_i32(n)),
            None => NAN_BITS,
        }
    } else if swf_version >= HEX_LITERAL_VERSION && spec_octal_form(s) {
        let trimmed = if s[0] == '+' || s[0] == '-' {
            s.subrange(1, s.len() as int)
        } else {
            s
        };
        let n = spec_octal_accum(trimmed, 0);
        let signed: u32 = if s[0] == '-' {
            (((0x1_0000_0000 - n) % 0x1_0000_0000) as u32)
        } else {
            n
        };
        spec_double_of_int(spec_as_i32(signed))
    } else if s.len() == 0 {
        NAN_BITS
    } else if spec_inf_form(s) {
        NAN_BITS
    } else {
        match parsed_number(spec_trim_ws(s)) {
            Some(b) => b,
            None => NAN_BITS,
        }
    }
}

/// Numeric coercion of a primitive. The absent values coerce to zero
/// below the legacy-arithmetic version and to NaN from it on; an object
/// reference reaching this point coerces to NaN.
pub open spec fn spec_primitive_as_number(v: ValueView, swf_version: u8) -> u64 {
    match v {
        ValueView::Undefined => if swf_version < LEGACY_ARITHMETIC_VERSION {
            ZERO_BITS
        } else {
            NAN_BITS
        },
        ValueView::Null => if swf_version < LEGACY_ARITHMETIC_VERSION {
            ZERO_BITS
        } else {
            NAN_BITS
        },
        ValueView::Bool(b) => if b {
            ONE_BITS
        } else {
            ZERO_BITS
        },
        ValueView::Number(n) => n,
        ValueView::Str(s) => spec_string_to_number(s, swf_version),
        ValueView::Object(_) => NAN_BITS,
    }
}

proof fn lemma_trim_ws_at(s: Seq<char>, j: int)
    requires
        0 <= j <= s.len(),
        forall|k: int| 0 <= k < j ==> spec_is_ws(s[k]),
        j < s.len() ==> !spec_is_ws(s[j]),
    ensures
        spec_trim_ws(s) == s.subrange(j, s.len() as int),
    decreases s.len(),
{
    if j == 0 {
        assert(s.subrange(0, s.len() as int) =~= s);
    } else {
        let tail = s.subrange(1, s.len() as int);
        lemma_trim_ws_at(tail, j - 1);
        assert(tail.subrange(j - 1, tail.len() as int) =~= s.subrange(j, s.len() as int));
    }
}

fn hex_digit(c: char) -> (r: Option<u32>)
    ensures
        r == spec_hex_digit(c),
{
    if '0' <= c && c <= '9' {
        Some(c as u32 - 48)
    } else if 'a' <= c && c <= 'f' {
        Some(c as u32 - 87)
    } else if 'A' <= c && c <= 'F' {
        Some(c as u32 - 55)
    } else {
        None
    }
}

/// Numeric reading of a string, as `spec_string_to_number` states it.
pub fn string_to_number(s: &str, swf_version: u8) -> (r: u64)
    ensures
        r == spec_string_to_number(s@, swf_version),
{
    let v = chars_vec(s);
    let n = v.len();
    if swf_version >= HEX_LITERAL_VERSION && n >= 2 && v[0] == '0' && v[1] == 'x' {
        let mut acc: u32 = 0;
        let mut i: usize = 2;
        while i < n
            invariant
                2 <= i <= n,
                n == s@.len(),
                v@ == s@,
                swf_version >= HEX_LITERAL_VERSION,
                s@[0] == '0',
                s@[1] == 'x',
                spec_hex_accum(s@.subrange(2, n as int), 0) == spec_hex_accum(
                    s@.subrange(i as int, n as int),
                    acc,
                ),
            decreases n - i,
        {
            match hex_digit(v[i]) {
                Some(d) => {
                    proof {
                        assert(s@.subrange(i as int, n as int).subrange(
                            1,
                            (n - i) as int,
                        ) =~= s@.subrange(i + 1, n as int));
                    }
                    acc = ((acc as u64 * 16 + d as u64) % 0x1_0000_0000) as u32;
                },
                None => {
                    proof {
                        assert(spec_hex_accum(s@.subrange(i as int, n as int), acc) is None);
                    }
                    return NAN_BITS;
                },
            }
            i += 1;
        }
        proof {
            assert(s@.subrange(n as int, n as int) =~= Seq::<char>::empty());
            assert(spec_hex_accum(s@.subrange(2, n as int), 0) == Some(acc));
        }
        let signed: i32 = if acc <= 0x7FFF_FFFF {
            acc as i32
        } else {
            ((acc as i64) - 0x1_0000_0000) as i32
        };
        from_i32_bits(signed)
    } else if swf_version >= HEX_LITERAL_VERSION && n >= 1 && (v[0] == '0' || (n >= 2 && (v[0] == '+' || v[0] == '-')
        && v[1] == '0')) && all_octal_from(&v, 1) {
        let start: usize = if v[0] == '+' || v[0] == '-' {
            1
        } else {
            0
        };
        let ghost trimmed = if s@[0] == '+' || s@[0] == '-' {
            s@.subrange(1, n as int)
        } else {
            s@
        };
        let mut acc: u32 = 0;
        let mut i: usize = start;
        proof {
            if start == 0 {
                assert(s@.subrange(0, n as int) =~= s@);
            }
            assert(trimmed =~= s@.subrange(start as int, n as int));
        }
        while i < n
            invariant
                start <= i <= n,
                n == s@.len(),
                v@ == s@,
                n >= 1,
                start as int == (if s@[0] == '+' || s@[0] == '-' {
                    1int
                } else {
                    0int
                }),
                s@[0] == '0' || (n >= 2 && (s@[0] == '+' || s@[0] == '-') && s@[1] == '0'),
                forall|k: int| 1 <= k < n ==> spec_is_octal_digit(s@[k]),
                trimmed =~= s@.subrange(start as int, n as int),
                spec_octal_accum(trimmed, 0) == spec_octal_accum(
                    s@.subrange(i as int, n as int),
                    acc,
                ),
            decreases n - i,
        {
            proof {
                assert(s@.subrange(i as int, n as int).subrange(1, (n - i) as int) =~= s@.subrange(
                    i + 1,
                    n as int,
                ));
                assert(i >= 1 ==> spec_is_octal_digit(s@[i as int]));
                if i == 0 {
                    assert(s@[0] == '0');
                }
            }
            let c = v[i];
            acc = ((acc as u64 * 8 + (c as u64 - 48)) % 0x1_0000_0000) as u32;
            i += 1;
        }
        proof {
            assert(s@.subrange(n as int, n as int) =~= Seq::<char>::empty());
        }
        let signed_mag: u32 = if v[0] == '-' {
            if acc == 0 {
                0
            } else {
                (0xFFFF_FFFFu32 - acc) + 1
            }
        } else {
            acc
        };
        let signed: i32 = if signed_mag <= 0x7FFF_FFFF {
            signed_mag as i32
        } else {
            ((signed_mag as i64) - 0x1_0000_0000) as i32
        };
        from_i32_bits(signed)
    } else if n == 0 {
        NAN_BITS
    } else {
        let skip: usize = if v[0] == '+' || v[0] == '-' {
            1
        } else {
            0
        };
        if skip < n && (v[skip] == 'i' || v[skip] == 'I') {
            return NAN_BITS;
        }
        let mut j: usize = 0;
        while j < n && (v[j] == '\t' || v[j] == '\n' || v[j] == '\r' || v[j] == ' ')
            invariant
                j <= n,
                n == s@.len(),
                v@ == s@,
                forall|k: int| 0 <= k < j ==> spec_is_ws(s@[k]),
            decreases n - j,
        {
            j += 1;
        }
        proof {
            lemma_trim_ws_at(s@, j as int);
        }
        let rest = s.substring_char(j, n);
        match parse_decimal_bits(rest) {
            Some(b) => b,
            None => NAN_BITS,
        }
    }
}

/// Whether every character from `from` on is an octal digit.
fn all_octal_from(v: &Vec<char>, from: usize) -> (r: bool)
    requires
        from <= v@.len(),
    ensures
        r == (forall|i: int| from <= i < v@.len() ==> spec_is_octal_digit(v@[i])),
{
    let mut i = from;
    while i < v.len()
        invariant
            from <= i <= v@.len(),
            forall|k: int| from <= k < i ==> spec_is_octal_digit(v@[k]),
        decreases v@.len() - i,
    {
        let c = v[i];
        if !('0' <= c && c <= '7') {
            return false;
        }
        i += 1;
    }
    true
}

/// Numeric coercion of a primitive, as `spec_primitive_as_number` states
/// it.
pub fn primitive_as_number(v: &Value, swf_version: u8) -> (r: u64)
    ensures
        r == spec_primitive_as_number(v@, swf_version),
{
    match v {
        Value::Undefined => if swf_version < LEGACY_ARITHMETIC_VERSION {
            ZERO_BITS
        } else {
            NAN_BITS
        },
        Value::Null => if swf_version < LEGACY_ARITHMETIC_VERSION {
            ZERO_BITS
        } else {
            NAN_BITS
        },
        Value::Bool(b) => if *b {
            ONE_BITS
        } else {
            ZERO_BITS
        },
        Value::Number(n) => *n,
        Value::Str(s) => string_to_number(s.as_str(), swf_version),
        Value::Object(_) => NAN_BITS,
    }
}

} // verus!
