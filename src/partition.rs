//! Partition handles, which only a validated device hands out.

use vstd::prelude::*;

verus! {

/// A partition of a validated storage device, by the path of its device node.
#[derive(Debug)]
pub struct Partition {
    path: String,
}

impl View for Partition {
    type V = Seq<char>;

    closed spec fn view(&self) -> Seq<char> {
        self.path@
    }
}

impl Partition {
    pub(crate) fn new(path: String) -> (r: Partition)
        ensures
            r@ == path@,
    {
        Partition { path }
    }

    /// The path of the partition's device node.
    pub fn path(&self) -> (r: &str)
        ensures
            r@ == self@,
    {
        self.path.as_str()
    }
}

}
