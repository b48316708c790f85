//! The engine's two-tier failure type: thrown script values, which every
//! intermediate call must hand through untouched, and hard internal
//! errors, which abort the operation and are not catchable by script.
use crate::value::{Value, ValueView};
use vstd::prelude::*;

verus! {

/// Failure of an engine operation.
#[derive(Clone, Debug)]
pub enum AvmError {
    /// A value thrown by script (by a getter, setter, watcher or called
    /// function); propagates out of every engine call.
    ThrownValue(Value),
    /// A prototype-chain walk exceeded the recursion bound.
    PrototypeRecursionLimit,
    /// Nested script invocation exhausted the execution budget handed in
    /// by the caller.
    ExecutionLimit,
}

/// The mathematical shape of an engine failure.
pub enum AvmErrorView {
    Thrown(ValueView),
    PrototypeRecursionLimit,
    ExecutionLimit,
}

impl View for AvmError {
    type V = AvmErrorView;

    open spec fn view(&self) -> AvmErrorView {
        match self {
            AvmError::ThrownValue(v) => AvmErrorView::Thrown(v@),
            AvmError::PrototypeRecursionLimit => AvmErrorView::PrototypeRecursionLimit,
            AvmError::ExecutionLimit => AvmErrorView::ExecutionLimit,
        }
    }
}

impl AvmError {
    /// Whether this failure is a thrown script value (those propagate
    /// where other failures are swallowed by the getter policy).
    pub fn is_thrown(&self) -> (r: bool)
        ensures
            r == (self@ is Thrown),
    {
        matches!(self, AvmError::ThrownValue(_))
    }

    pub fn duplicate(&self) -> (r: AvmError)
        ensures
            r@ == self@,
    {
        match self {
            AvmError::ThrownValue(v) => AvmError::ThrownValue(v.duplicate()),
            AvmError::PrototypeRecursionLimit => AvmError::PrototypeRecursionLimit,
            AvmError::ExecutionLimit => AvmError::ExecutionLimit,
        }
    }
}

} // verus!
