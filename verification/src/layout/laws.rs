//! What holds of layouts in whole pixels.
use vstd::prelude::*;

use crate::layout::intrinsic::flow;
use crate::layout::line::{justified, line_of, settled, start_of, Line};
use crate::layout::measure::Measurer;
use crate::layout::place::{content_box, flow_rect, off_axis, on_axis};
use crate::layout::style::{Axis, Justify};
use crate::node::tree::{node_at, Node};
use crate::node::NodeId;
use crate::num::{distance, one, truncated_quotient, zero, Num, Px};

verus! {

proof fn quotient_is_not_negative(a: Px, b: Px)
    requires
        a.0 >= 0,
        b.0 >= 0,
    ensures
        a.quotient(b).0 >= 0,
{
    if b.0 != 0 {
        assert(distance(a.0 as int) / distance(b.0 as int) >= 0) by (nonlinear_arith)
            requires
                distance(b.0 as int) > 0,
        ;
        assert(truncated_quotient(a.0 as int, b.0 as int) >= 0);
    }
}

proof fn product_is_not_negative(a: Px, b: Px)
    requires
        a.0 >= 0,
        b.0 >= 0,
    ensures
        a.product(b).0 >= 0,
{
    assert(a.0 * b.0 >= 0) by (nonlinear_arith)
        requires
            a.0 >= 0,
            b.0 >= 0,
    ;
}

proof fn sizes_are_not_negative(s: Px, total: Px, remaining: Px)
    requires
        remaining.0 >= 0,
    ensures
        settled(s, total, remaining).0 >= 0,
{
    assert(one::<Px>() == Px(1)) by {
        assert(truncated_quotient(1, 1) == 1);
    }
    assert(zero::<Px>() == Px(0)) by {
        assert(truncated_quotient(0, 1) == 0);
    }
    if total.0 > 0 {
        if s == Px(i32::MIN) {
            quotient_is_not_negative(one(), total);
            product_is_not_negative(remaining, one::<Px>().quotient(total));
        } else if s.0 < 0 {
            let share = s.negation().difference(one());
            assert(share.0 >= 0);
            quotient_is_not_negative(share, total);
            product_is_not_negative(remaining, share.quotient(total));
        }
    }
}

proof fn spaces_are_not_negative(justify: Justify, slack: Px, count: nat)
    requires
        slack.0 >= 0,
        count <= u32::MAX,
    ensures
        justified(justify, slack, count).0.0 >= 0,
        justified(justify, slack, count).1.0 >= 0,
{
    let n = Px::natural(count as u64);
    let half = Px::fraction(1, 2);
    assert(one::<Px>() == Px(1)) by {
        assert(truncated_quotient(1, 1) == 1);
    }
    assert(zero::<Px>() == Px(0)) by {
        assert(truncated_quotient(0, 1) == 0);
    }
    assert(half.0 >= 0) by {
        assert(truncated_quotient(1, 2) >= 0);
    }
    product_is_not_negative(slack, half);
    quotient_is_not_negative(slack, n);
    product_is_not_negative(slack.quotient(n), half);
    quotient_is_not_negative(slack, n.sum(one()));
    if count > 1 {
        quotient_is_not_negative(slack, n.difference(one()));
    }
}

/// Along a line without negative lengths nothing starts before what comes
/// earlier has ended.
proof fn starts_follow_ends(line: Line<Px>, i: nat, j: nat)
    requires
        i < j < line.sizes.len(),
        forall|k: int| 0 <= k < line.sizes.len() ==> (#[trigger] line.sizes[k]).0 >= 0,
        line.gap.0 >= 0,
        line.between.0 >= 0,
        line.slack.0 >= 0,
    ensures
        start_of(line, i).sum(line.sizes[i as int]).at_most(start_of(line, j)),
    decreases j,
{
    let before = (j - 1) as nat;
    assert(line.sizes[before as int].0 >= 0);
    if i < before {
        starts_follow_ends(line, i, before);
    }
}

/// In whole pixels, the children in the flow of a container follow each other
/// without overlap along its main axis, unless its gap is negative.
pub proof fn siblings_do_not_overlap<M: Measurer<Px>>(
    nodes: Seq<Option<Node<Px>>>,
    m: &M,
    p: NodeId,
    rect: [Px; 4],
    scale: Px,
    i: int,
    j: int,
)
    requires
        0 <= i < j < flow(nodes, p).len() <= u32::MAX,
        node_at(nodes, p).layout.gap.product(scale).0 >= 0,
    ensures
        ({
            let a = flow_rect(nodes, m, p, rect, scale, i);
            let b = flow_rect(nodes, m, p, rect, scale, j);
            match node_at(nodes, p).layout.axis {
                Axis::Row => a[0].sum(a[2]).at_most(b[0]),
                Axis::Col => a[1].sum(a[3]).at_most(b[1]),
            }
        }),
{
    let style = node_at(nodes, p).layout;
    let f = flow(nodes, p);
    let b = content_box(rect, style, scale);
    let (origin, main) = on_axis(style.axis, b);
    let (_, cross) = off_axis(style.axis, b);
    let line = line_of(nodes, m, f, style, origin, main, cross, scale);
    assert(zero::<Px>() == Px(0)) by {
        assert(truncated_quotient(0, 1) == 0);
    }
    assert forall|k: int| 0 <= k < line.sizes.len() implies (#[trigger] line.sizes[k]).0 >= 0 by {
        let gap_sum = crate::layout::intrinsic::gaps(style, f.len(), scale);
        let shares = crate::layout::line::shares_total(nodes, f, style.axis, f.len());
        let fixed = crate::layout::line::fixed_total(
            nodes,
            m,
            f,
            style.axis,
            main,
            cross,
            scale,
            f.len(),
        );
        let remaining = main.difference(fixed).difference(gap_sum).larger(zero());
        sizes_are_not_negative(
            crate::layout::line::slot(nodes, m, f[k], style.axis, main, cross, scale),
            shares,
            remaining,
        );
    }
    spaces_are_not_negative(style.justify, line.slack, f.len());
    starts_follow_ends(line, i as nat, j as nat);
}

} // verus!
