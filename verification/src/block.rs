//! A block: what fills one cell of a chunk.

use crate::identifier::Identifier;
use vstd::prelude::*;

verus! {

/// A solid, opaque block, textured by the identifier of its type.
#[derive(Debug)]
pub struct Block {
    pub identifier: Identifier,
}

impl Clone for Block {
    fn clone(&self) -> (res: Self)
        ensures
            res == *self,
    {
        Block { identifier: self.identifier.clone() }
    }
}

impl PartialEq for Block {
    fn eq(&self, other: &Self) -> (res: bool) {
        self.identifier == other.identifier
    }
}

impl Eq for Block {

}

impl vstd::std_specs::cmp::PartialEqSpecImpl for Block {
    open spec fn obeys_eq_spec() -> bool {
        true
    }

    open spec fn eq_spec(&self, other: &Self) -> bool {
        self.identifier@ == other.identifier@
    }
}

impl Block {
    pub fn new(identifier: Identifier) -> (block: Self)
        ensures
            block.identifier == identifier,
    {
        Block { identifier }
    }
}

} // verus!
