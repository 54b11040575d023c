//! Node identity.
use vstd::prelude::*;

verus! {

/// A node of a tree: the position at which it was added. Positions are not
/// used again, so the id of a removed node never names another one.
#[derive(Copy, Clone, Debug, PartialEq, Eq, PartialOrd, Ord, Hash, Structural)]
pub struct NodeId {
    pub index: u32,
}

} // verus!
