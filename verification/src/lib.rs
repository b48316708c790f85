//! An object/value/scope resolution engine for a legacy ECMAScript-family
//! dialect: prototype-chain property model, permissive value coercion with
//! version-gated quirks, lexical scope chains, and a closed set of host
//! object kinds behind one capability surface.
//!
//! The pieces, leaves first: `number` models doubles by their bit
//! patterns; `strings` holds the case-sensitivity-aware name equality;
//! `value` is the dynamic value type with its pure coercions; `property`
//! and `property_map` are the named slots and the insertion-ordered
//! table behind every object; `heap` is the object arena with the whole
//! capability surface; `coerce` holds the coercions that may run
//! `valueOf` or `toString`; `scope` the identifier-resolution chains;
//! `container` the display-list bookkeeping; `external`, `load_vars`,
//! `locale` and `loader` the narrow interfaces to the host; and `laws`
//! states and proves the engine's cross-cutting facts.
use vstd::prelude::*;

pub mod callable_value;
pub mod coerce;
pub mod container;
pub mod error;
pub mod external;
pub mod function;
pub mod heap;
pub mod laws;
pub mod load_vars;
pub mod loader;
pub mod locale;
pub mod number;
pub mod object;
pub mod property;
pub mod property_map;
pub mod scope;
pub mod strings;
pub mod value;

verus! {

/// The dialect version at or above which `undefined` and `null` coerce to
/// NaN in numeric context (below it they coerce to zero).
pub const LEGACY_ARITHMETIC_VERSION: u8 = 7;

/// The dialect version at or above which hexadecimal and octal numeric
/// string forms are recognised.
pub const HEX_LITERAL_VERSION: u8 = 6;

} // verus!
