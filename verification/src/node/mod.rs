//! The scene tree and what flattening it yields.
pub mod dirty;
pub mod hit;
pub mod id;
pub mod prune;
pub mod scroll;
pub mod tree;

pub use hit::{ExternalSpan, HitEntry, LayerSpan, ScrollAxis, ScrollHit, ScrollSpan, ScrollbarHit};
pub use id::NodeId;
pub use tree::{CursorShape, Handlers, Interact, Node, NodeTree, ScrollState, TextContent, WindowAction};
