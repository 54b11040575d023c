//! Flex layout: rows and columns, fixed, proportional and intrinsic sizes,
//! padding, gaps, justification and alignment, and an escape to absolute
//! positions.
pub mod exact;
pub mod intrinsic;
pub mod laws;
pub mod line;
pub mod measure;
pub mod outside;
pub mod place;
pub mod solve;
pub mod style;

pub use solve::compute_layout;
pub use measure::{Measurer, NullMeasurer};
pub use style::{Align, Axis, Justify, LayoutStyle, Len, Overflow};
