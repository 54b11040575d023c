use std::ops::Range;

use frostify_gfx::layer::{Damage, LayerTree, PromotedRange};
use frostify_gfx::node::{dirty, Node, NodeId, NodeTree};
use frostify_gfx::num::Num;

/// Numbers as the shell uses them.
#[derive(Clone, Copy, Debug, PartialEq, PartialOrd)]
struct F(f32);

impl Num for F {
    fn of_ratio(num: i32, den: i32) -> F {
        F(num as f32 / den as f32)
    }
    fn of_u64(n: u64) -> F {
        F(n as f32)
    }
    fn of_nanos(ns: u64) -> F {
        F(std::time::Duration::from_nanos(ns).as_secs_f32())
    }
    fn lowest_value() -> F {
        F(f32::NEG_INFINITY)
    }
    fn greatest_value() -> F {
        F(f32::MAX)
    }
    fn far_value() -> F {
        F(1.0e30)
    }
    fn plus(self, other: F) -> F {
        F(self.0 + other.0)
    }
    fn minus(self, other: F) -> F {
        F(self.0 - other.0)
    }
    fn times(self, other: F) -> F {
        F(self.0 * other.0)
    }
    fn over(self, other: F) -> F {
        F(self.0 / other.0)
    }
    fn negated(self) -> F {
        F(-self.0)
    }
    fn abs(self) -> F {
        F(self.0.abs())
    }
    fn max(self, other: F) -> F {
        F(self.0.max(other.0))
    }
    fn min(self, other: F) -> F {
        F(self.0.min(other.0))
    }
    fn floor(self) -> F {
        F(self.0.floor())
    }
    fn ceil(self) -> F {
        F(self.0.ceil())
    }
    fn round(self) -> F {
        F(self.0.round())
    }
    fn to_u32(self) -> u32 {
        self.0 as u32
    }
    fn lt(self, other: F) -> bool {
        self.0 < other.0
    }
    fn le(self, other: F) -> bool {
        self.0 <= other.0
    }
    fn eq(self, other: F) -> bool {
        self.0 == other.0
    }
}

#[test]
fn classify_content_vs_composite() {
    assert_eq!(
        Damage::classify(dirty::VISUAL),
        Damage { content: true, composite: false }
    );
    assert_eq!(
        Damage::classify(dirty::BACKDROP),
        Damage { content: true, composite: false }
    );
    assert_eq!(
        Damage::classify(dirty::TREE),
        Damage { content: true, composite: false }
    );
    assert_eq!(
        Damage::classify(dirty::TRANSFORM),
        Damage { content: false, composite: true }
    );
    assert_eq!(
        Damage::classify(dirty::SCROLL),
        Damage { content: false, composite: true }
    );
    // Mixed mask flags both axes.
    assert_eq!(
        Damage::classify(dirty::VISUAL | dirty::SCROLL),
        Damage { content: true, composite: true }
    );
    assert_eq!(Damage::classify(dirty::NONE), Damage::default());
    assert!(!Damage::classify(dirty::NONE).any());
}

fn pr(node: NodeId, instances: Range<u32>) -> Vec<PromotedRange<F>> {
    vec![PromotedRange {
        node,
        instances,
        scroll: None,
        external: None,
        edge_fade: [F(0.0); 4],
        edge_fade_falloff: F(1.0),
    }]
}

fn node(i: u32) -> NodeId {
    let mut t: NodeTree<F> = NodeTree::new();
    let mut id = NodeId { index: u32::MAX };
    for _ in 0..=i {
        id = t.add_root(Node::rect());
    }
    id
}

#[test]
fn no_promotions_is_single_root() {
    let mut lt = LayerTree::<F>::single_root();
    lt.rebuild(&Vec::new(), 42, [800, 600], Damage::classify(dirty::TREE));
    assert_eq!(lt.layers().len(), 1);
    let root = lt.root_layer();
    assert_eq!(root.root, None);
    assert_eq!(root.instances, 0..42);
    assert_eq!(root.size_px, [800, 600]);
}

#[test]
fn mid_stream_promotion_splits_into_three() {
    let mut lt = LayerTree::<F>::single_root();
    let p = node(0);
    // Promote [30,60) out of a 100-instance stream → before / promoted
    // / after, z-ordered 0,1,2.
    lt.rebuild(&pr(p, 30..60), 100, [10, 10], Damage::classify(dirty::TREE));
    let ls = lt.layers();
    assert_eq!(ls.len(), 3);
    assert_eq!((ls[0].root, ls[0].instances.clone(), ls[0].z), (None, 0..30, 0));
    assert_eq!((ls[1].root, ls[1].instances.clone(), ls[1].z), (Some(p), 30..60, 1));
    assert_eq!((ls[2].root, ls[2].instances.clone(), ls[2].z), (None, 60..100, 2));
}

#[test]
fn promotion_at_head_has_no_leading_segment() {
    let mut lt = LayerTree::<F>::single_root();
    let p = node(0);
    lt.rebuild(&pr(p, 0..40), 100, [10, 10], Damage::classify(dirty::TREE));
    let ls = lt.layers();
    assert_eq!(ls.len(), 2);
    assert_eq!(ls[0].root, Some(p));
    assert_eq!(ls[1].root, None);
    assert_eq!(ls[1].instances, 40..100);
}

#[test]
fn promotion_at_tail_has_no_trailing_segment() {
    let mut lt = LayerTree::<F>::single_root();
    let p = node(0);
    lt.rebuild(&pr(p, 60..100), 100, [10, 10], Damage::classify(dirty::TREE));
    let ls = lt.layers();
    assert_eq!(ls.len(), 2);
    assert_eq!(ls[0].root, None);
    assert_eq!(ls[0].instances, 0..60);
    assert_eq!(ls[1].root, Some(p));
}

#[test]
fn composite_state_persists_across_rebuild() {
    let mut lt = LayerTree::<F>::single_root();
    let p = node(0);
    lt.rebuild(&pr(p, 0..40), 100, [10, 10], Damage::classify(dirty::TREE));
    assert!(lt.set_offset(p, [F(5.0), F(7.0)]));
    assert!(lt.set_opacity(p, F(0.5)));
    assert!(lt.take_composite_dirty());
    assert!(!lt.take_composite_dirty()); // consumed
    // A re-flatten (content change) must NOT reset the animated offset.
    lt.rebuild(&pr(p, 0..40), 100, [10, 10], Damage::classify(dirty::VISUAL));
    let promoted = lt.layers().iter().find(|l| l.root == Some(p)).unwrap();
    assert_eq!(promoted.offset, [F(5.0), F(7.0)]);
    assert_eq!(promoted.opacity, F(0.5));
}

#[test]
fn set_offset_is_idempotent() {
    let mut lt = LayerTree::<F>::single_root();
    let p = node(0);
    lt.rebuild(&pr(p, 0..40), 100, [10, 10], Damage::classify(dirty::TREE));
    assert!(lt.set_offset(p, [F(3.0), F(0.0)]));
    // Same value → no change, no composite-dirty.
    assert!(!lt.set_offset(p, [F(3.0), F(0.0)]));
    assert!(lt.take_composite_dirty());
}

#[test]
fn content_epoch_bumps_only_on_content() {
    let mut lt = LayerTree::<F>::single_root();
    let p = node(0);
    lt.rebuild(&pr(p, 0..40), 100, [10, 10], Damage::classify(dirty::TREE));
    let e0 = lt.layers().iter().find(|l| l.root == Some(p)).unwrap().content_epoch;
    // Composite-only frame → epoch unchanged.
    lt.rebuild(&pr(p, 0..40), 100, [10, 10], Damage::classify(dirty::TRANSFORM));
    let e1 = lt.layers().iter().find(|l| l.root == Some(p)).unwrap().content_epoch;
    assert_eq!(e0, e1);
    // Content frame → epoch bumps.
    lt.rebuild(&pr(p, 0..40), 100, [10, 10], Damage::classify(dirty::VISUAL));
    let e2 = lt.layers().iter().find(|l| l.root == Some(p)).unwrap().content_epoch;
    assert_eq!(e2, e1 + 1);
}

#[test]
fn vanished_promotion_state_dropped() {
    let mut lt = LayerTree::<F>::single_root();
    let p = node(0);
    lt.rebuild(&pr(p, 0..40), 100, [10, 10], Damage::classify(dirty::TREE));
    lt.set_offset(p, [F(9.0), F(9.0)]);
    // p no longer promoted → its state is pruned; re-promoting starts
    // fresh at identity.
    lt.rebuild(&Vec::new(), 100, [10, 10], Damage::classify(dirty::TREE));
    lt.rebuild(&pr(p, 0..40), 100, [10, 10], Damage::classify(dirty::TREE));
    let promoted = lt.layers().iter().find(|l| l.root == Some(p)).unwrap();
    assert_eq!(promoted.offset, [F(0.0), F(0.0)]);
}

#[test]
fn layers_cover_the_stream_without_gaps() {
    let mut lt = LayerTree::<F>::single_root();
    let mut ranges = pr(node(0), 10..20);
    ranges.extend(pr(node(1), 20..25));
    lt.rebuild(&ranges, 40, [10, 10], Damage::classify(dirty::TREE));
    let ls = lt.layers();
    assert_eq!(ls[0].instances.start, 0);
    for k in 0..ls.len() - 1 {
        assert_eq!(ls[k].instances.end, ls[k + 1].instances.start);
        assert_eq!(ls[k].z, k as i32);
    }
    assert_eq!(ls[ls.len() - 1].instances.end, 40);
}

#[test]
fn scale_and_opacity_reach_the_live_layer() {
    let mut lt = LayerTree::<F>::single_root();
    let p = node(0);
    lt.rebuild(&pr(p, 0..40), 100, [10, 10], Damage::classify(dirty::TREE));
    assert!(lt.set_scale(p, [F(2.0), F(3.0)]));
    assert!(lt.set_opacity(p, F(0.25)));
    assert_eq!(lt.layers()[0].scale, [F(2.0), F(3.0)]);
    assert_eq!(lt.layers()[0].opacity, F(0.25));
    assert_eq!(lt.layers()[1].opacity, F(1.0));
}

#[test]
fn promoted_ranges_are_layers_in_their_order() {
    let mut lt = LayerTree::<F>::single_root();
    let mut ranges = pr(node(4), 10..20);
    ranges.extend(pr(node(1), 20..25));
    ranges.extend(pr(node(7), 30..30));
    lt.rebuild(&ranges, 40, [10, 10], Damage::classify(dirty::TREE));
    let rooted: Vec<_> =
        lt.layers().iter().filter_map(|l| l.root.map(|r| (r.index, l.instances.clone()))).collect();
    assert_eq!(rooted, [(4, 10..20), (1, 20..25), (7, 30..30)]);
    for (k, l) in lt.layers().iter().enumerate() {
        assert_eq!(l.z, k as i32);
        assert!(l.root.is_some() || !l.instances.is_empty());
    }
    lt.rebuild(&Vec::new(), 0, [10, 10], Damage::classify(dirty::TREE));
    assert_eq!(lt.layers().len(), 1);
    assert!(lt.root_layer().instances.is_empty());
}

#[test]
fn epochs_count_the_rebuilds_that_changed_pixels() {
    let mut lt = LayerTree::<F>::single_root();
    let p = node(0);
    lt.rebuild(&pr(p, 10..40), 100, [10, 10], Damage::classify(dirty::TREE));
    lt.set_scale(p, [F(2.0), F(2.0)]);
    for mask in [dirty::SCROLL, dirty::VISUAL, dirty::TRANSFORM, dirty::BACKDROP] {
        lt.rebuild(&pr(p, 10..40), 100, [10, 10], Damage::classify(mask));
    }
    let l = lt.layers().iter().find(|l| l.root == Some(p)).unwrap();
    assert_eq!(l.content_epoch, 3);
    assert_eq!(l.scale, [F(2.0), F(2.0)]);
    assert_eq!(lt.root_layer().content_epoch, 3);
}

#[test]
fn what_was_set_lasts_as_long_as_the_node_is_listed() {
    let mut lt = LayerTree::<F>::single_root();
    let p = node(3);
    lt.rebuild(&pr(p, 0..40), 100, [10, 10], Damage::classify(dirty::TREE));
    lt.set_offset(p, [F(1.0), F(2.0)]);
    lt.set_scale(p, [F(3.0), F(4.0)]);
    lt.set_opacity(p, F(0.5));
    // The layers are still what they were.
    let ranges: Vec<_> = lt.layers().iter().map(|l| l.instances.clone()).collect();
    assert_eq!(ranges, [0..40, 40..100]);
    for mask in [dirty::TREE, dirty::SCROLL, dirty::VISUAL] {
        lt.rebuild(&pr(p, 20..40), 60, [10, 10], Damage::classify(mask));
        let l = lt.layers().iter().find(|l| l.root == Some(p)).unwrap();
        assert_eq!((l.offset, l.scale, l.opacity), ([F(1.0), F(2.0)], [F(3.0), F(4.0)], F(0.5)));
    }
    lt.rebuild(&pr(node(4), 20..40), 60, [10, 10], Damage::classify(dirty::SCROLL));
    lt.rebuild(&pr(p, 20..40), 60, [10, 10], Damage::classify(dirty::SCROLL));
    let l = lt.layers().iter().find(|l| l.root == Some(p)).unwrap();
    assert_eq!((l.offset, l.scale, l.opacity), ([F(0.0); 2], [F(1.0); 2], F(1.0)));
}
