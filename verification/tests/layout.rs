use frostify_gfx::layout::{compute_layout, Align, Axis, Justify, Len, NullMeasurer, Overflow};
use frostify_gfx::node::{Node, NodeTree};
use frostify_gfx::num::{Num, Px};

/// Numbers as the shell uses them.
#[derive(Clone, Copy, Debug, PartialEq, PartialOrd)]
struct F(f32);

impl Num for F {
    fn of_ratio(num: i32, den: i32) -> F {
        F(num as f32 / den as f32)
    }
    fn of_u64(n: u64) -> F {
        F(n as f32)
    }
    fn of_nanos(ns: u64) -> F {
        F(std::time::Duration::from_nanos(ns).as_secs_f32())
    }
    fn lowest_value() -> F {
        F(f32::NEG_INFINITY)
    }
    fn greatest_value() -> F {
        F(f32::MAX)
    }
    fn far_value() -> F {
        F(1.0e30)
    }
    fn plus(self, other: F) -> F {
        F(self.0 + other.0)
    }
    fn minus(self, other: F) -> F {
        F(self.0 - other.0)
    }
    fn times(self, other: F) -> F {
        F(self.0 * other.0)
    }
    fn over(self, other: F) -> F {
        F(self.0 / other.0)
    }
    fn negated(self) -> F {
        F(-self.0)
    }
    fn abs(self) -> F {
        F(self.0.abs())
    }
    fn max(self, other: F) -> F {
        F(self.0.max(other.0))
    }
    fn min(self, other: F) -> F {
        F(self.0.min(other.0))
    }
    fn floor(self) -> F {
        F(self.0.floor())
    }
    fn ceil(self) -> F {
        F(self.0.ceil())
    }
    fn round(self) -> F {
        F(self.0.round())
    }
    fn to_u32(self) -> u32 {
        self.0 as u32
    }
    fn lt(self, other: F) -> bool {
        self.0 < other.0
    }
    fn le(self, other: F) -> bool {
        self.0 <= other.0
    }
    fn eq(self, other: F) -> bool {
        self.0 == other.0
    }
}

/// Setting the style of a node in one expression.
trait Style<N>: Sized {
    fn layout_axis(self, axis: Axis) -> Self;
    fn layout_width(self, len: Len<N>) -> Self;
    fn layout_height(self, len: Len<N>) -> Self;
    fn layout_padding(self, p: [N; 4]) -> Self;
    fn layout_gap(self, gap: N) -> Self;
    fn layout_justify(self, j: Justify) -> Self;
    fn layout_align(self, a: Align) -> Self;
    fn layout_abs(self, x: N, y: N) -> Self;
    fn push_end(self) -> Self;
    fn center(self) -> Self;
    fn build(self) -> Self;
}

impl<N> Style<N> for Node<N> {
    fn layout_axis(mut self, axis: Axis) -> Self {
        self.layout.axis = axis;
        self
    }
    fn layout_width(mut self, len: Len<N>) -> Self {
        self.layout.width = len;
        self
    }
    fn layout_height(mut self, len: Len<N>) -> Self {
        self.layout.height = len;
        self
    }
    fn layout_padding(mut self, p: [N; 4]) -> Self {
        self.layout.padding = p;
        self
    }
    fn layout_gap(mut self, gap: N) -> Self {
        self.layout.gap = gap;
        self
    }
    fn layout_justify(mut self, j: Justify) -> Self {
        self.layout.justify = j;
        self
    }
    fn layout_align(mut self, a: Align) -> Self {
        self.layout.align = a;
        self
    }
    fn layout_abs(mut self, x: N, y: N) -> Self {
        self.layout.abs = Some([x, y]);
        self
    }
    fn push_end(mut self) -> Self {
        self.layout.push_end = true;
        self
    }
    fn center(mut self) -> Self {
        self.layout.justify = Justify::Center;
        self.layout.align = Align::Center;
        self
    }
    fn build(self) -> Self {
        self
    }
}

#[test]
fn root_fills_viewport() {
    let mut tree = NodeTree::<F>::new();
    tree.add_root(
        Node::rect()
            .layout_width(Len::Fill)
            .layout_height(Len::Fill)
            .build(),
    );
    compute_layout(&mut tree, [F(800.0), F(600.0)], &NullMeasurer, F(1.0));
    let r = tree.get(tree.roots()[0]).unwrap().rect;
    assert_eq!(r, [F(0.0), F(0.0), F(800.0), F(600.0)]);
}

#[test]
fn row_distributes_fr_remaining_space() {
    let mut tree = NodeTree::<F>::new();
    let root = tree.add_root(
        Node::rect()
            .layout_axis(Axis::Row)
            .layout_width(Len::Px(F(300.0)))
            .layout_height(Len::Px(F(100.0)))
            .build(),
    );
    tree.add_child(
        root,
        Node::rect()
            .layout_width(Len::Px(F(100.0)))
            .layout_height(Len::Fill)
            .build(),
    );
    tree.add_child(
        root,
        Node::rect()
            .layout_width(Len::Fr(F(1.0)))
            .layout_height(Len::Fill)
            .build(),
    );
    tree.add_child(
        root,
        Node::rect()
            .layout_width(Len::Fr(F(3.0)))
            .layout_height(Len::Fill)
            .build(),
    );
    compute_layout(&mut tree, [F(1000.0), F(1000.0)], &NullMeasurer, F(1.0));
    let kids: Vec<_> = tree
        .get(root)
        .unwrap()
        .children
        .iter()
        .map(|c| tree.get(*c).unwrap().rect)
        .collect();
    assert_eq!(kids[0], [F(0.0), F(0.0), F(100.0), F(100.0)]);
    assert_eq!(kids[1], [F(100.0), F(0.0), F(50.0), F(100.0)]);
    assert_eq!(kids[2], [F(150.0), F(0.0), F(150.0), F(100.0)]);
}

#[test]
fn col_with_gap_and_padding() {
    let mut tree = NodeTree::<F>::new();
    let root = tree.add_root(
        Node::rect()
            .layout_axis(Axis::Col)
            .layout_width(Len::Px(F(200.0)))
            .layout_height(Len::Px(F(200.0)))
            .layout_padding([F(10.0); 4])
            .layout_gap(F(8.0))
            .build(),
    );
    tree.add_child(
        root,
        Node::rect()
            .layout_width(Len::Fill)
            .layout_height(Len::Px(F(50.0)))
            .build(),
    );
    tree.add_child(
        root,
        Node::rect()
            .layout_width(Len::Fill)
            .layout_height(Len::Px(F(50.0)))
            .build(),
    );
    compute_layout(&mut tree, [F(1000.0), F(1000.0)], &NullMeasurer, F(1.0));
    let kids: Vec<_> = tree
        .get(root)
        .unwrap()
        .children
        .iter()
        .map(|c| tree.get(*c).unwrap().rect)
        .collect();
    assert_eq!(kids[0], [F(10.0), F(10.0), F(180.0), F(50.0)]);
    assert_eq!(kids[1], [F(10.0), F(68.0), F(180.0), F(50.0)]);
}

#[test]
fn absolute_positioning_escapes_flow() {
    let mut tree = NodeTree::<F>::new();
    let root = tree.add_root(
        Node::rect()
            .layout_axis(Axis::Col)
            .layout_width(Len::Px(F(200.0)))
            .layout_height(Len::Px(F(200.0)))
            .build(),
    );
    tree.add_child(
        root,
        Node::rect()
            .layout_width(Len::Fill)
            .layout_height(Len::Px(F(30.0)))
            .build(),
    );
    tree.add_child(
        root,
        Node::rect()
            .layout_abs(F(50.0), F(60.0))
            .layout_width(Len::Px(F(40.0)))
            .layout_height(Len::Px(F(40.0)))
            .build(),
    );
    compute_layout(&mut tree, [F(1000.0), F(1000.0)], &NullMeasurer, F(1.0));
    let kids: Vec<_> = tree
        .get(root)
        .unwrap()
        .children
        .iter()
        .map(|c| tree.get(*c).unwrap().rect)
        .collect();
    assert_eq!(kids[0], [F(0.0), F(0.0), F(200.0), F(30.0)]);
    assert_eq!(kids[1], [F(50.0), F(60.0), F(40.0), F(40.0)]);
}

#[test]
fn push_end_absorbs_slack_before_marked_child() {
    // Row with 3 children of 20px each in a 200px container.
    // Middle child has push_end → slack (200 - 60 = 140) before it.
    // Expected x positions: 0, 160, 180.
    let mut tree = NodeTree::<F>::new();
    let root = tree.add_root(
        Node::rect()
            .layout_axis(Axis::Row)
            .layout_width(Len::Px(F(200.0)))
            .layout_height(Len::Px(F(40.0)))
            .build(),
    );
    for i in 0..3 {
        let mut b = Node::rect()
            .layout_width(Len::Px(F(20.0)))
            .layout_height(Len::Px(F(40.0)));
        if i == 1 { b = b.push_end(); }
        tree.add_child(root, b.build());
    }
    compute_layout(&mut tree, [F(1000.0), F(1000.0)], &NullMeasurer, F(1.0));
    let kids = tree.get(root).unwrap().children.clone();
    assert_eq!(tree.get(kids[0]).unwrap().rect[0], F(0.0));
    assert_eq!(tree.get(kids[1]).unwrap().rect[0], F(160.0));
    assert_eq!(tree.get(kids[2]).unwrap().rect[0], F(180.0));
}

#[test]
fn push_end_noop_on_first_child() {
    let mut tree = NodeTree::<F>::new();
    let root = tree.add_root(
        Node::rect()
            .layout_axis(Axis::Row)
            .layout_width(Len::Px(F(200.0)))
            .layout_height(Len::Px(F(40.0)))
            .build(),
    );
    let c0 = tree.add_child(root, Node::rect().layout_width(Len::Px(F(20.0))).layout_height(Len::Px(F(40.0))).push_end().build());
    let c1 = tree.add_child(root, Node::rect().layout_width(Len::Px(F(20.0))).layout_height(Len::Px(F(40.0))).build());
    compute_layout(&mut tree, [F(1000.0), F(1000.0)], &NullMeasurer, F(1.0));
    assert_eq!(tree.get(c0).unwrap().rect[0], F(0.0));
    assert_eq!(tree.get(c1).unwrap().rect[0], F(20.0));
}

#[test]
fn push_end_ignored_when_justify_is_not_start() {
    let mut tree = NodeTree::<F>::new();
    let root = tree.add_root(
        Node::rect()
            .layout_axis(Axis::Row)
            .layout_width(Len::Px(F(200.0)))
            .layout_height(Len::Px(F(40.0)))
            .layout_justify(Justify::Center)
            .build(),
    );
    let c0 = tree.add_child(root, Node::rect().layout_width(Len::Px(F(20.0))).layout_height(Len::Px(F(40.0))).build());
    let c1 = tree.add_child(root, Node::rect().layout_width(Len::Px(F(20.0))).layout_height(Len::Px(F(40.0))).push_end().build());
    compute_layout(&mut tree, [F(1000.0), F(1000.0)], &NullMeasurer, F(1.0));
    // Center: slack 160, leading 80, children at 80 and 100.
    assert_eq!(tree.get(c0).unwrap().rect[0], F(80.0));
    assert_eq!(tree.get(c1).unwrap().rect[0], F(100.0));
}

#[test]
fn center_shortcut_centers_text_child_both_axes() {
    // NullMeasurer returns [chars * font_size * 0.6, font_size]
    // for text → "ABC" at 10px = [18, 10]. Parent 100x40, expect
    // text at x=(100-18)/2=41, y=(40-10)/2=15.
    let mut tree = NodeTree::<F>::new();
    let root = tree.add_root(
        Node::rect()
            .layout_axis(Axis::Row)
            .layout_width(Len::Px(F(100.0)))
            .layout_height(Len::Px(F(40.0)))
            .center()
            .build(),
    );
    let child = tree.add_child(root, Node::text("ABC".to_string(), F(10.0)).build());
    compute_layout(&mut tree, [F(1000.0), F(1000.0)], &NullMeasurer, F(1.0));
    let r = tree.get(child).unwrap().rect;
    assert_eq!(r[0], F(41.0));
    assert_eq!(r[1], F(15.0));
}

#[test]
fn justify_center_and_align_center() {
    let mut tree = NodeTree::<F>::new();
    let root = tree.add_root(
        Node::rect()
            .layout_axis(Axis::Row)
            .layout_width(Len::Px(F(200.0)))
            .layout_height(Len::Px(F(100.0)))
            .layout_justify(Justify::Center)
            .layout_align(Align::Center)
            .build(),
    );
    tree.add_child(
        root,
        Node::rect()
            .layout_width(Len::Px(F(60.0)))
            .layout_height(Len::Px(F(40.0)))
            .build(),
    );
    compute_layout(&mut tree, [F(1000.0), F(1000.0)], &NullMeasurer, F(1.0));
    let c = tree.get(tree.get(root).unwrap().children[0]).unwrap().rect;
    // x: (200-60)/2 = 70, y: (100-40)/2 = 30
    assert_eq!(c, [F(70.0), F(30.0), F(60.0), F(40.0)]);
}

#[test]
fn hidden_children_take_no_space() {
    let mut tree = NodeTree::<F>::new();
    let root = tree.add_root(
        Node::rect().layout_width(Len::Px(F(100.0))).layout_height(Len::Px(F(100.0))),
    );
    let mut gone = Node::rect().layout_width(Len::Px(F(10.0))).layout_height(Len::Px(F(30.0)));
    gone.visible = false;
    tree.add_child(root, gone);
    let kid = tree.add_child(
        root,
        Node::rect().layout_width(Len::Px(F(10.0))).layout_height(Len::Px(F(30.0))),
    );
    compute_layout(&mut tree, [F(500.0), F(500.0)], &NullMeasurer, F(1.0));
    assert_eq!(tree.get(kid).unwrap().rect, [F(0.0), F(0.0), F(10.0), F(30.0)]);
}

#[test]
fn scale_turns_logical_pixels_into_physical_ones() {
    let mut tree = NodeTree::<F>::new();
    let root = tree.add_root(
        Node::rect().layout_width(Len::Px(F(100.0))).layout_height(Len::Px(F(40.0))),
    );
    compute_layout(&mut tree, [F(500.0), F(500.0)], &NullMeasurer, F(2.0));
    assert_eq!(tree.get(root).unwrap().rect, [F(0.0), F(0.0), F(200.0), F(80.0)]);
}

#[test]
fn scroll_containers_learn_the_extent_of_their_content() {
    let mut tree = NodeTree::<F>::new();
    let mut list = Node::rect().layout_width(Len::Px(F(100.0))).layout_height(Len::Px(F(50.0)));
    list.layout.overflow_y = Overflow::Scroll;
    let root = tree.add_root(list);
    for _ in 0..3 {
        tree.add_child(
            root,
            Node::rect().layout_width(Len::Fill).layout_height(Len::Px(F(40.0))),
        );
    }
    compute_layout(&mut tree, [F(500.0), F(500.0)], &NullMeasurer, F(1.0));
    assert_eq!(tree.get(root).unwrap().content_size[1], F(120.0));
}

#[test]
fn whole_pixels_lay_out_without_rounding() {
    let mut tree = NodeTree::<Px>::new();
    let root = tree.add_root(
        Node::rect()
            .layout_axis(Axis::Row)
            .layout_width(Len::Px(Px(300)))
            .layout_height(Len::Px(Px(100))),
    );
    let a = tree.add_child(
        root,
        Node::rect().layout_width(Len::Px(Px(100))).layout_height(Len::Fill),
    );
    let b = tree.add_child(
        root,
        Node::rect().layout_width(Len::Fr(Px(1))).layout_height(Len::Fill),
    );
    compute_layout(&mut tree, [Px(1000), Px(1000)], &NullMeasurer, Px(1));
    assert_eq!(tree.get(a).unwrap().rect[2].0, 100);
    assert_eq!(tree.get(b).unwrap().rect[2].0, 200);
}

#[test]
fn absolute_children_leave_the_flow_alone() {
    let rects = |abs: Option<(f32, f32)>| {
        let mut tree = NodeTree::<F>::new();
        let root = tree.add_root(
            Node::rect()
                .layout_axis(Axis::Row)
                .layout_width(Len::Px(F(300.0)))
                .layout_height(Len::Px(F(80.0)))
                .layout_justify(Justify::SpaceBetween)
                .layout_align(Align::Center)
                .build(),
        );
        let child = |w: f32, h: f32| {
            Node::rect().layout_width(Len::Px(F(w))).layout_height(Len::Px(F(h))).build()
        };
        let a = tree.add_child(root, child(40.0, 20.0));
        if let Some((x, w)) = abs {
            tree.add_child(root, child(w, 500.0).layout_abs(F(x), F(3.0)).build());
        }
        let b = tree.add_child(root, child(60.0, 30.0));
        let below = tree.add_child(b, child(5.0, 6.0));
        let apart = tree.add_child(b, child(7.0, 8.0).layout_abs(F(1.0), F(2.0)).build());
        compute_layout(&mut tree, [F(1000.0), F(1000.0)], &NullMeasurer, F(1.0));
        [a, b, below, apart].map(|id| tree.get(id).unwrap().rect)
    };
    let want = [
        [F(0.0), F(30.0), F(40.0), F(20.0)],
        [F(240.0), F(25.0), F(60.0), F(30.0)],
        [F(240.0), F(25.0), F(5.0), F(6.0)],
        [F(241.0), F(27.0), F(7.0), F(8.0)],
    ];
    assert_eq!(rects(None), want);
    assert_eq!(rects(Some((5.0, 10.0))), want);
    assert_eq!(rects(Some((900.0, 4000.0))), want);
}
