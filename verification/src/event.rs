//! What event handlers are told.
use vstd::prelude::*;

use crate::node::NodeId;

verus! {

/// Told to a handler of a click, a dwell, the end of a drag, or Enter.
#[derive(Copy, Clone, Debug)]
pub struct EventCtx<N> {
    pub node: NodeId,
    pub now: u64,
    /// Where the pointer is; the origin if it is not in the window.
    pub cursor: [N; 2],
}

/// Told to a drag handler, on every movement of the pointer while the press
/// is held. Positions are physical pixels.
#[derive(Copy, Clone, Debug)]
pub struct DragCtx<N> {
    pub node: NodeId,
    /// Where the press landed.
    pub start: [N; 2],
    pub current: [N; 2],
    /// The movement since the handler ran last, not since the press.
    pub delta: [N; 2],
    /// Left, top, width and height of the node on the screen.
    pub rect: [N; 4],
    pub scale: N,
}

/// Told to a drop handler: a payload was let go over the node.
#[derive(Copy, Clone, Debug, PartialEq, Eq, Structural)]
pub struct DropCtx {
    pub node: NodeId,
    pub payload: u64,
}

/// Told to a hover handler, when the pointer moves over the node and no
/// press is held.
#[derive(Copy, Clone, Debug)]
pub struct HoverCtx<N> {
    pub node: NodeId,
    pub pos: [N; 2],
    pub rect: [N; 4],
    pub scale: N,
}

/// Told to a wheel handler. Lines are positive when the wheel turns forward.
#[derive(Copy, Clone, Debug)]
pub struct WheelCtx<N> {
    pub node: NodeId,
    pub now: u64,
    pub delta: [N; 2],
    pub rect: [N; 4],
    pub scale: N,
}

} // verus!
