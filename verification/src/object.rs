use vstd::prelude::*;

verus! {

/// A heap-allocated runtime object. Strings are the only object kind
/// in this language slice.
pub enum Object {
    Str(String),
}

impl Object {
    /// An explicit copy; objects own their heap data, so they are not `Copy`.
    pub fn duplicate(&self) -> (r: Object)
        ensures
            r == *self,
    {
        match self {
            Object::Str(s) => Object::Str(s.clone()),
        }
    }
}

} // verus!
