//! The shapes that the GPU draws, in painter order.
use vstd::prelude::*;

use crate::num::{one, zero, Num};

verus! {

/// The bits of `shape_kind` that hold the kind. Bits 8 to 11 say which sides
/// have a border; the others are not used.
pub const SHAPE_KIND_MASK: u32 = 0xFF;

pub const SHAPE_KIND_RECT: u32 = 0;

pub const SHAPE_KIND_GLASS: u32 = 1;

/// A glyph bitmap from the glyph atlas, multiplied by `color`.
pub const SHAPE_KIND_GLYPH: u32 = 2;

/// A picture from the image atlas, tinted by `color`.
pub const SHAPE_KIND_IMAGE: u32 = 3;

/// Bounds beyond every screen.
pub open spec fn unclipped<N: Num>() -> [N; 4] {
    [N::far().negation(), N::far().negation(), N::far(), N::far()]
}

/// The clip rectangle that nothing lies outside of.
pub fn no_clip<N: Num>() -> (r: [N; 4])
    ensures
        r == unclipped::<N>(),
{
    let f = N::far_value();
    let n = f.negated();
    [n, n, f, f]
}

/// One shape.
#[derive(Copy, Clone, Debug)]
pub struct ShapeInstance<N> {
    pub color: [N; 4],
    pub border_color: [N; 4],
    pub shadow_color: [N; 4],
    /// Top left, top right, bottom left, bottom right.
    pub border_radius: [N; 4],
    /// Glass: blur and refraction in pixels. Glyph and image: left, top, width
    /// and height on the atlas.
    pub backdrop_uv_rect: [N; 4],
    /// Left, top, right, bottom: what lies outside is not drawn.
    pub clip_rect: [N; 4],
    pub position: [N; 2],
    pub size: [N; 2],
    pub shadow_offset: [N; 2],
    pub shape_kind: u32,
    /// Glass: how far samples are scattered, in pixels.
    pub roughness: N,
    pub border_width: N,
    pub shadow_blur: N,
    pub shadow_opacity: N,
    pub opacity: N,
    /// Scaling about the centre.
    pub scale: [N; 2],
    /// Corner radius of the clip rectangle.
    pub clip_radius: N,
}

/// A white opaque rectangle of no size, unclipped.
pub open spec fn plain_shape<N: Num>() -> ShapeInstance<N> {
    let z = zero::<N>();
    let o = one::<N>();
    ShapeInstance {
        color: [o, o, o, o],
        border_color: [z, z, z, o],
        shadow_color: [z, z, z, o],
        border_radius: [z, z, z, z],
        backdrop_uv_rect: [z, z, z, z],
        clip_rect: unclipped(),
        position: [z, z],
        size: [z, z],
        shadow_offset: [z, z],
        shape_kind: SHAPE_KIND_RECT,
        roughness: z,
        border_width: z,
        shadow_blur: z,
        shadow_opacity: z,
        opacity: o,
        scale: [o, o],
        clip_radius: z,
    }
}

impl<N: Num> Default for ShapeInstance<N> {
    fn default() -> (r: Self)
        ensures
            r == plain_shape::<N>(),
    {
        let z = N::of_ratio(0, 1);
        let o = N::of_ratio(1, 1);
        ShapeInstance {
            color: [o, o, o, o],
            border_color: [z, z, z, o],
            shadow_color: [z, z, z, o],
            border_radius: [z, z, z, z],
            backdrop_uv_rect: [z, z, z, z],
            clip_rect: no_clip(),
            position: [z, z],
            size: [z, z],
            shadow_offset: [z, z],
            shape_kind: SHAPE_KIND_RECT,
            roughness: z,
            border_width: z,
            shadow_blur: z,
            shadow_opacity: z,
            opacity: o,
            scale: [o, o],
            clip_radius: z,
        }
    }
}

impl<N: Num> ShapeInstance<N> {
    /// A filled rectangle with the same radius at each corner.
    pub fn rounded_rect(position: [N; 2], size: [N; 2], radius: N, color: [N; 4]) -> (r: Self)
        ensures
            r == (ShapeInstance {
                color,
                position,
                size,
                border_radius: [radius, radius, radius, radius],
                ..plain_shape::<N>()
            }),
    {
        let mut s = ShapeInstance::<N>::default();
        s.color = color;
        s.position = position;
        s.size = size;
        s.border_radius = [radius, radius, radius, radius];
        s
    }
}

/// The shape is a pane of glass.
pub open spec fn is_glass<N>(s: ShapeInstance<N>) -> bool {
    s.shape_kind & SHAPE_KIND_MASK == SHAPE_KIND_GLASS
}

/// The position of the first pane of glass, or the number of shapes where
/// there is none. What is painted before it is what glass can show through.
pub fn first_glass_index<N: Num>(instances: &[ShapeInstance<N>]) -> (r: u32)
    requires
        instances@.len() <= u32::MAX,
    ensures
        r <= instances@.len(),
        forall|i: int| 0 <= i < r ==> !is_glass(#[trigger] instances@[i]),
        r < instances@.len() ==> is_glass(instances@[r as int]),
{
    let mut i: usize = 0;
    while i < instances.len()
        invariant
            i <= instances@.len() <= u32::MAX,
            forall|j: int| 0 <= j < i ==> !is_glass(#[trigger] instances@[j]),
        decreases instances.len() - i,
    {
        if instances[i].shape_kind & SHAPE_KIND_MASK == SHAPE_KIND_GLASS {
            return i as u32;
        }
        i = i + 1;
    }
    i as u32
}

/// What every shape of a pass shares.
#[derive(Copy, Clone, Debug)]
pub struct FrameUniform<N> {
    /// Size of the target in physical pixels.
    pub screen_size: [N; 2],
    /// The coarsest usable level of the blurred backdrop.
    pub max_backdrop_lod: N,
    /// Radius that the corners of the window are cut with; 0 for none.
    pub window_corner_radius: N,
}

} // verus!
