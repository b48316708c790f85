//! Object identity. The heap of objects itself is built in `heap.rs`;
//! this module holds the reference type that names an object.
use vstd::prelude::*;

verus! {

/// A reference to an object: an index into the engine's object arena.
/// Values and properties hold these; equality of references is object
/// identity.
#[derive(Clone, Copy, PartialEq, Eq, Structural, Debug)]
pub struct Object(pub usize);

/// An object's identity token, usable as a map key or for identity
/// comparison without holding the object itself.
#[derive(Clone, Copy, PartialEq, Eq, Structural, Debug)]
pub enum ObjectPtr {
    At(usize),
}

impl Object {
    /// Two object references name the same object exactly when they are
    /// the same arena index.
    pub fn ptr_eq(a: Object, b: Object) -> (r: bool)
        ensures
            r == (a == b),
    {
        a.0 == b.0
    }

    /// This object's identity token.
    pub fn as_ptr(&self) -> (r: ObjectPtr)
        ensures
            r == ObjectPtr::At(self.0),
    {
        ObjectPtr::At(self.0)
    }
}

} // verus!
