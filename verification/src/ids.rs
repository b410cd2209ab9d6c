//! Strong types for the two identifier spaces: instance ids and data ids.
use vstd::prelude::*;

verus! {

/// A stable instance identifier.
#[derive(Clone, Copy, PartialEq, Eq, Structural, Debug, PartialOrd, Ord, Hash)]
pub struct IId(pub u32);

/// A content-version identifier for one instance body.
#[derive(Clone, Copy, PartialEq, Eq, Structural, Debug, PartialOrd, Ord, Hash)]
pub struct DId(pub u32);

impl IId {
    pub fn new(id: u32) -> (r: Self)
        ensures
            r.0 == id,
    {
        IId(id)
    }

    pub fn iid_to_u32(self) -> (r: u32)
        ensures
            r == self.0,
    {
        self.0
    }
}

impl DId {
    pub fn new(id: u32) -> (r: Self)
        ensures
            r.0 == id,
    {
        DId(id)
    }

    pub fn did_to_u32(self) -> (r: u32)
        ensures
            r == self.0,
    {
        self.0
    }
}

} // verus!
