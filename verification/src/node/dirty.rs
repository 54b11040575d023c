//! What changed in a tree since it was last drawn, one bit for each kind.
use vstd::prelude::*;

verus! {

pub const NONE: u32 = 0;

/// Colour, text or image of a node.
pub const VISUAL: u32 = 1;

/// Nodes were added or removed.
pub const TREE: u32 = 2;

/// What a glass surface blurs.
pub const BACKDROP: u32 = 4;

/// Position or size of a node.
pub const TRANSFORM: u32 = 8;

/// A scroll offset.
pub const SCROLL: u32 = 16;

/// The bits after some more were marked, if they were.
pub open spec fn marked_if(mask: u32, marks: bool, bits: u32) -> u32 {
    if marks {
        mask | bits
    } else {
        mask
    }
}

/// Marking bits a second time changes nothing.
pub(crate) proof fn marks_stick(mask: u32, bits: u32)
    ensures
        (mask | bits) | bits == mask | bits,
{
    assert((mask | bits) | bits == mask | bits) by (bit_vector);
}

} // verus!
