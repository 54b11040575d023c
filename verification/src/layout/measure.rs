//! Text measurement.
use vstd::prelude::*;

use crate::num::Num;

verus! {

/// Tells how large a text is when set: width and height.
pub trait Measurer<N: Num> {
    /// Size of a text of the given font size and line height.
    open spec fn text_size(&self, content: Seq<char>, font_size: N, line_height: N) -> [N; 2] {
        arbitrary()
    }

    /// Size of a text that is cut short where it would exceed `max_width`.
    open spec fn text_size_within(
        &self,
        content: Seq<char>,
        font_size: N,
        line_height: N,
        max_width: N,
    ) -> [N; 2] {
        arbitrary()
    }

    fn measure_text(&self, content: &str, font_size: N, line_height: N) -> (r: [N; 2])
        ensures
            r == self.text_size(content@, font_size, line_height),
    ;

    fn measure_text_constrained(
        &self,
        content: &str,
        font_size: N,
        line_height: N,
        max_width: N,
    ) -> (r: [N; 2])
        ensures
            r == self.text_size_within(content@, font_size, line_height, max_width),
    ;
}

/// A measurer for scenes without fonts: every character is six tenths of the
/// font size wide.
pub struct NullMeasurer;

impl<N: Num> Measurer<N> for NullMeasurer {
    open spec fn text_size(&self, content: Seq<char>, font_size: N, line_height: N) -> [N; 2] {
        [
            N::natural(content.len() as u64).product(font_size).product(N::fraction(3, 5)),
            font_size,
        ]
    }

    open spec fn text_size_within(
        &self,
        content: Seq<char>,
        font_size: N,
        line_height: N,
        max_width: N,
    ) -> [N; 2] {
        [
            N::natural(content.len() as u64).product(font_size).product(N::fraction(3, 5)),
            font_size,
        ]
    }

    fn measure_text(&self, content: &str, font_size: N, _line_height: N) -> (r: [N; 2]) {
        let count: usize = content.unicode_len();
        [N::of_u64(count as u64).times(font_size).times(N::of_ratio(3, 5)), font_size]
    }

    fn measure_text_constrained(
        &self,
        content: &str,
        font_size: N,
        line_height: N,
        _max_width: N,
    ) -> (r: [N; 2]) {
        let count: usize = content.unicode_len();
        [N::of_u64(count as u64).times(font_size).times(N::of_ratio(3, 5)), font_size]
    }
}

} // verus!
