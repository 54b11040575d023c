//! What is drawn over the scene: the hint at the pointer, and the panel of
//! the statistics.
use vstd::prelude::*;

use crate::gpu::instance::{no_clip, plain_shape, unclipped, ShapeInstance};
use crate::gpu::shapes::TextRef;
use crate::num::{clamp, computes_exactly, fractions_are_exact, held, one, zero, Num, Px};

verus! {

/// Lines of statistics.
pub const HUD_LINES: u32 = 9;

/// Where a label is set, and how large.
#[derive(Copy, Clone, Debug)]
pub struct Label<N> {
    pub text: TextRef<N>,
    pub font_size: N,
    pub line_height: N,
}

/// The size of a hint in physical pixels, from the width of its text.
pub open spec fn hint_size<N: Num>(text_width: N, scale: N) -> [N; 2] {
    let two = N::fraction(2, 1);
    [
        text_width.sum(N::fraction(9, 1).product(scale).product(two)),
        N::fraction(17, 1).product(scale).sum(N::fraction(5, 1).product(scale).product(two)),
    ]
}

/// Where a hint goes: above the pointer and centred on it, below it where
/// there is no room above, and always within the surface.
pub open spec fn hint_origin<N: Num>(
    size: [N; 2],
    cursor: [N; 2],
    surface: [N; 2],
    scale: N,
) -> [N; 2] {
    let z = zero::<N>();
    let gap = N::fraction(6, 1).product(scale);
    let x = cursor[0].difference(size[0].quotient(N::fraction(2, 1)));
    let above = cursor[1].difference(gap).difference(size[1]);
    let y = if above.below(z) {
        cursor[1].sum(gap)
    } else {
        above
    };
    [
        held(x, z, surface[0].difference(size[0]).larger(z)),
        held(y, z, surface[1].difference(size[1]).larger(z)),
    ]
}

/// The dark box of a hint.
pub open spec fn hint_shape<N: Num>(
    text_width: N,
    cursor: [N; 2],
    surface: [N; 2],
    fade: N,
    scale: N,
) -> ShapeInstance<N> {
    let size = hint_size(text_width, scale);
    let f = held(fade, zero(), one());
    let radius = N::fraction(6, 1).product(scale);
    let w = N::fraction(1, 1);
    ShapeInstance {
        color: [
            N::fraction(1, 25),
            N::fraction(1, 25),
            N::fraction(1, 20),
            N::fraction(24, 25).product(f),
        ],
        border_color: [w, w, w, N::fraction(1, 10).product(f)],
        border_width: w.product(scale),
        position: hint_origin(size, cursor, surface, scale),
        size,
        border_radius: [radius, radius, radius, radius],
        ..plain_shape::<N>()
    }
}

/// The label of a hint.
pub open spec fn hint_label<N: Num>(
    text_width: N,
    cursor: [N; 2],
    surface: [N; 2],
    fade: N,
    scale: N,
) -> Label<N> {
    let at = hint_origin(hint_size(text_width, scale), cursor, surface, scale);
    let bright = N::fraction(24, 25);
    Label {
        text: TextRef {
            position: [
                at[0].sum(N::fraction(9, 1).product(scale)),
                at[1].sum(N::fraction(5, 1).product(scale)),
            ],
            color: [bright, bright, N::fraction(97, 100), one()],
            clip_rect: unclipped(),
            opacity: held(fade, zero(), one()),
        },
        font_size: N::fraction(25, 2).product(scale),
        line_height: N::fraction(17, 1).product(scale),
    }
}

/// Builds a hint near the pointer: its box, and its label.
pub fn build_hint<N: Num>(
    text_width: N,
    cursor: [N; 2],
    surface: [N; 2],
    fade: N,
    scale: N,
) -> (r: (ShapeInstance<N>, Label<N>))
    ensures
        r.0 == hint_shape(text_width, cursor, surface, fade, scale),
        r.1 == hint_label(text_width, cursor, surface, fade, scale),
{
    let z: N = N::of_ratio(0, 1);
    let o: N = N::of_ratio(1, 1);
    let two: N = N::of_ratio(2, 1);
    let line: N = N::of_ratio(17, 1).times(scale);
    let pad_x: N = N::of_ratio(9, 1).times(scale);
    let pad_y: N = N::of_ratio(5, 1).times(scale);
    let gap: N = N::of_ratio(6, 1).times(scale);
    let w: N = text_width.plus(pad_x.times(two));
    let h: N = line.plus(pad_y.times(two));
    let x: N = cursor[0].minus(w.over(two));
    let above: N = cursor[1].minus(gap).minus(h);
    let y: N = if above.lt(z) {
        cursor[1].plus(gap)
    } else {
        above
    };
    let at: [N; 2] = [
        clamp(x, z, surface[0].minus(w).max(z)),
        clamp(y, z, surface[1].minus(h).max(z)),
    ];
    let f: N = clamp(fade, z, o);
    let radius: N = N::of_ratio(6, 1).times(scale);
    let mut s = ShapeInstance::<N>::default();
    s.color = [
        N::of_ratio(1, 25),
        N::of_ratio(1, 25),
        N::of_ratio(1, 20),
        N::of_ratio(24, 25).times(f),
    ];
    s.border_color = [o, o, o, N::of_ratio(1, 10).times(f)];
    s.border_width = o.times(scale);
    s.position = at;
    s.size = [w, h];
    s.border_radius = [radius, radius, radius, radius];
    let bright: N = N::of_ratio(24, 25);
    let label = Label {
        text: TextRef {
            position: [at[0].plus(pad_x), at[1].plus(pad_y)],
            color: [bright, bright, N::of_ratio(97, 100), o],
            clip_rect: no_clip(),
            opacity: f,
        },
        font_size: N::of_ratio(25, 2).times(scale),
        line_height: line,
    };
    (s, label)
}

/// The panel behind the statistics.
pub open spec fn hud_shape<N: Num>(scale: N) -> ShapeInstance<N> {
    let z = zero::<N>();
    let corner = N::fraction(12, 1).product(scale);
    let pad = N::fraction(8, 1).product(scale);
    let line = N::fraction(14, 1).product(scale);
    let radius = N::fraction(6, 1).product(scale);
    ShapeInstance {
        color: [z, z, z, N::fraction(3, 5)],
        position: [corner, corner],
        size: [
            N::fraction(160, 1).product(scale),
            pad.product(N::fraction(2, 1)).sum(line.product(N::natural(HUD_LINES as u64))),
        ],
        border_radius: [radius, radius, radius, radius],
        ..plain_shape::<N>()
    }
}

/// Line `i` of the statistics.
pub open spec fn hud_label<N: Num>(scale: N, i: u32) -> Label<N> {
    let o = one::<N>();
    let corner = N::fraction(12, 1).product(scale);
    let pad = N::fraction(8, 1).product(scale);
    let line = N::fraction(14, 1).product(scale);
    Label {
        text: TextRef {
            position: [
                corner.sum(pad),
                corner.sum(pad).sum(N::natural(i as u64).product(line)),
            ],
            color: [o, o, o, o],
            clip_rect: unclipped(),
            opacity: o,
        },
        font_size: N::fraction(12, 1).product(scale),
        line_height: line,
    }
}

/// Builds the panel of the statistics, and where its lines go.
pub fn build_hud<N: Num>(scale: N) -> (r: (ShapeInstance<N>, Vec<Label<N>>))
    ensures
        r.0 == hud_shape(scale),
        r.1@.len() == HUD_LINES,
        forall|i: int| 0 <= i < r.1@.len() ==> #[trigger] r.1@[i] == hud_label(scale, i as u32),
{
    let z: N = N::of_ratio(0, 1);
    let o: N = N::of_ratio(1, 1);
    let corner: N = N::of_ratio(12, 1).times(scale);
    let pad: N = N::of_ratio(8, 1).times(scale);
    let line: N = N::of_ratio(14, 1).times(scale);
    let radius: N = N::of_ratio(6, 1).times(scale);
    let mut panel = ShapeInstance::<N>::default();
    panel.color = [z, z, z, N::of_ratio(3, 5)];
    panel.position = [corner, corner];
    panel.size = [
        N::of_ratio(160, 1).times(scale),
        pad.times(N::of_ratio(2, 1)).plus(line.times(N::of_u64(HUD_LINES as u64))),
    ];
    panel.border_radius = [radius, radius, radius, radius];
    let mut labels: Vec<Label<N>> = Vec::new();
    let mut i: u32 = 0;
    while i < HUD_LINES
        invariant
            i <= HUD_LINES,
            o == one::<N>(),
            corner == N::fraction(12, 1).product(scale),
            pad == N::fraction(8, 1).product(scale),
            line == N::fraction(14, 1).product(scale),
            labels@.len() == i,
            forall|j: int| 0 <= j < i ==> #[trigger] labels@[j] == hud_label(scale, j as u32),
        decreases HUD_LINES - i,
    {
        let x: N = corner.plus(pad);
        labels.push(
            Label {
                text: TextRef {
                    position: [x, x.plus(N::of_u64(i as u64).times(line))],
                    color: [o, o, o, o],
                    clip_rect: no_clip(),
                    opacity: o,
                },
                font_size: N::of_ratio(12, 1).times(scale),
                line_height: line,
            },
        );
        i = i + 1;
    }
    (panel, labels)
}

/// In whole pixels, a hint that is no larger than the surface lies on it
/// wherever the pointer is.
pub proof fn hint_stays_on_the_surface(
    size: [Px; 2],
    cursor: [Px; 2],
    surface: [Px; 2],
    scale: Px,
)
    requires
        0 <= size[0].0 <= surface[0].0,
        0 <= size[1].0 <= surface[1].0,
    ensures
        ({
            let at = hint_origin(size, cursor, surface, scale);
            &&& 0 <= at[0].0 && at[0].0 + size[0].0 <= surface[0].0
            &&& 0 <= at[1].0 && at[1].0 + size[1].0 <= surface[1].0
        }),
{
    assert(zero::<Px>() == Px(0)) by {
        assert(crate::num::truncated_quotient(0, 1) == 0);
    }
}

/// In exact numbers, a hint that fits is centred over the pointer and ends six
/// logical pixels above it; where there is no room above, it starts as much
/// below it. At a side of the surface it is moved in as far as is needed.
pub proof fn hints_are_centred_on_the_pointer<N: Num>(
    value: spec_fn(N) -> real,
    size: [N; 2],
    cursor: [N; 2],
    surface: [N; 2],
    scale: N,
)
    requires
        computes_exactly(value),
        value(scale) > 0real,
        0real <= value(size[0]) <= value(surface[0]),
        0real <= value(size[1]) <= value(surface[1]),
    ensures
        ({
            let at = hint_origin(size, cursor, surface, scale);
            let (x, y) = (value(at[0]), value(at[1]));
            let (w, h) = (value(size[0]), value(size[1]));
            let (cx, cy) = (value(cursor[0]), value(cursor[1]));
            let (sw, sh) = (value(surface[0]), value(surface[1]));
            let gap = 6real * value(scale);
            &&& 0real <= x && x + w <= sw
            &&& 0real <= y && y + h <= sh
            &&& w <= 2real * cx && 2real * cx + w <= 2real * sw ==> cx - x == x + w - cx
            &&& 2real * cx < w ==> x == 0real
            &&& 2real * sw < 2real * cx + w && w <= 2real * cx ==> x + w == sw
            &&& gap + h <= cy <= sh ==> y + h == cy - gap
            &&& cy < gap + h && 0real <= cy && cy + gap + h <= sh ==> y == cy + gap
        }),
{
    fractions_are_exact(value);
    let two = N::fraction(2, 1);
    assert((2i32 as real) == 2real);
    assert((6i32 as real) == 6real);
    let half = size[0].quotient(two);
    assert(value(half) * 2real == value(size[0]));
    assert(value(N::fraction(6, 1).product(scale)) == 6real * value(scale));
}

/// In exact numbers, the box of a hint holds its label with nine logical pixels
/// at either side and five above and below, and fades with it.
pub proof fn hints_hold_their_labels<N: Num>(
    value: spec_fn(N) -> real,
    text_width: N,
    cursor: [N; 2],
    surface: [N; 2],
    fade: N,
    scale: N,
)
    requires
        computes_exactly(value),
    ensures
        ({
            let b = hint_shape(text_width, cursor, surface, fade, scale);
            let l = hint_label(text_width, cursor, surface, fade, scale);
            let s = value(scale);
            &&& value(l.text.position[0]) - value(b.position[0]) == 9real * s
            &&& value(b.position[0]) + value(b.size[0]) - (value(l.text.position[0]) + value(
                text_width,
            )) == 9real * s
            &&& value(l.text.position[1]) - value(b.position[1]) == 5real * s
            &&& value(b.position[1]) + value(b.size[1]) - (value(l.text.position[1]) + value(
                l.line_height,
            )) == 5real * s
            &&& b.position == hint_origin(b.size, cursor, surface, scale)
            &&& 0real <= value(fade) <= 1real ==> value(l.text.opacity) == value(fade)
            &&& 0real <= value(fade) <= 1real ==> value(b.color[3]) * 25real == 24real * value(fade)
            &&& value(fade) < 0real ==> value(l.text.opacity) == 0real
            &&& value(fade) > 1real ==> value(l.text.opacity) == 1real
        }),
{
    fractions_are_exact(value);
    let s = value(scale);
    assert((2i32 as real) == 2real && (9i32 as real) == 9real && (5i32 as real) == 5real && (
    17i32 as real) == 17real && (25i32 as real) == 25real && (24i32 as real) == 24real);
    assert((9real * s) * 2real == 18real * s) by (nonlinear_arith);
    assert((5real * s) * 2real == 10real * s) by (nonlinear_arith);
    let e = value(N::fraction(24, 25));
    assert(e * (25i32 as real) == 24i32 as real);
    let f = value(held(fade, zero(), one()));
    assert((e * f) * 25real == 24real * f) by (nonlinear_arith)
        requires
            e * 25real == 24real,
    ;
}

/// In exact numbers, the lines of the statistics follow one another on their
/// panel, with eight logical pixels around them.
pub proof fn statistics_fill_their_panel<N: Num>(
    value: spec_fn(N) -> real,
    scale: N,
    i: u32,
)
    requires
        computes_exactly(value),
        i < HUD_LINES,
    ensures
        ({
            let b = hud_shape(scale);
            let l = hud_label(scale, i);
            let s = value(scale);
            let top = value(l.text.position[1]);
            &&& value(l.text.position[0]) - value(b.position[0]) == 8real * s
            &&& i == 0 ==> top - value(b.position[1]) == 8real * s
            &&& i + 1 < HUD_LINES ==> value(
                hud_label(scale, (i + 1) as u32).text.position[1],
            ) == top + value(l.line_height)
            &&& i + 1 == HUD_LINES ==> value(b.position[1]) + value(b.size[1]) - (top + value(
                l.line_height,
            )) == 8real * s
            &&& value(b.position[0]) == 12real * s && value(b.position[1]) == 12real * s
            &&& value(l.line_height) == 14real * s
        }),
{
    fractions_are_exact(value);
    let s = value(scale);
    assert((8i32 as real) == 8real && (12i32 as real) == 12real && (14i32 as real) == 14real && (
    2i32 as real) == 2real);
    let h = 14real * s;
    assert(((i + 1) as real) * h == (i as real) * h + h) by (nonlinear_arith)
        requires
            ((i + 1) as real) == (i as real) + 1real,
    ;
    assert((8real * s) * 2real == 16real * s) by (nonlinear_arith);
    let lines = HUD_LINES as u64;
    assert(value(N::natural(lines)) == 9real);
    assert(h * 9real == 9real * h) by (nonlinear_arith);
    assert(0real * h == 0real) by (nonlinear_arith);
    if i == 8 {
        assert((i as real) == 8real);
    }
}

} // verus!
