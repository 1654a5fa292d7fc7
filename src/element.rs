use vstd::prelude::*;

verus! {

/// An opaque handle to one node of the remote accessibility tree: the bus name
/// of the process that owns it and the object path inside that process.
#[derive(Clone, Debug, PartialEq, Eq, Hash)]
pub struct ElementRef {
    pub name: String,
    pub path: String,
}

impl ElementRef {
    pub fn new(name: String, path: String) -> (r: ElementRef)
        ensures
            r.name@ == name@,
            r.path@ == path@,
    {
        ElementRef { name, path }
    }

    /// An equal handle, owned separately.
    pub fn duplicate(&self) -> (r: ElementRef)
        ensures
            r == *self,
    {
        ElementRef { name: self.name.clone(), path: self.path.clone() }
    }
}

} // verus!
