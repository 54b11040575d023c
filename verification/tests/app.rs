use frostify_gfx::anim::{Curve, SpringSample, Timeline};
use frostify_gfx::app::binds::{
    add_slot, drop_slots, process_color_binds, process_height_px_binds, process_image_binds,
    process_opacity_binds, process_position_binds, process_size_binds, process_text_binds,
    process_width_pct_binds, process_width_px_binds, pump_displays, stop_tweens_for_removal,
    BindKind, BindSlot, ImageCell, SnapSlot, SubtreeRemoval, TextCell,
};
use frostify_gfx::app::drag::DragState;
use frostify_gfx::app::flush::begin_flush;
use frostify_gfx::app::focus::{blur, focus_next, set_focus};
use frostify_gfx::app::hover::{refresh_dwell, tick_dwell};
use frostify_gfx::app::keys::{resolve_edit_op, Key, Modifiers, NamedKey};
use frostify_gfx::app::layers::collect_live_image_handles;
use frostify_gfx::app::lazy::{
    clear_rows, commit_rows, finish_rows, lazy_lists, new_row, place_row, plan_list,
    reposition_rows, rows_to_render, trim_rows, ListPlan,
};
use frostify_gfx::app::rebuild::{scroll_identity, Named};
use frostify_gfx::app::shell::Shell;
use frostify_gfx::app::window::{hovered_node_cursor, press_is_outside, unhandled_press_fires};
use frostify_gfx::editor::EditOp;
use frostify_gfx::gpu::instance::no_clip;
use frostify_gfx::gpu::ImageHandle;
use frostify_gfx::layout::{compute_layout, Axis, Len, NullMeasurer, Overflow};
use frostify_gfx::lazy_list::LazyListState;
use frostify_gfx::node::{dirty, CursorShape, HitEntry, Node, NodeId, NodeTree, ScrollAxis, ScrollState};
use frostify_gfx::num::Num;
use frostify_gfx::signal::{SignalId, Signals, Value};

/// Numbers as the shell uses them.
#[derive(Clone, Copy, Debug, PartialEq, PartialOrd)]
struct F(f32);

impl Num for F {
    fn of_ratio(num: i32, den: i32) -> F {
        F(num as f32 / den as f32)
    }
    fn of_u64(n: u64) -> F {
        F(n as f32)
    }
    fn of_nanos(ns: u64) -> F {
        F(std::time::Duration::from_nanos(ns).as_secs_f32())
    }
    fn lowest_value() -> F {
        F(f32::NEG_INFINITY)
    }
    fn greatest_value() -> F {
        F(f32::MAX)
    }
    fn far_value() -> F {
        F(1.0e30)
    }
    fn plus(self, other: F) -> F {
        F(self.0 + other.0)
    }
    fn minus(self, other: F) -> F {
        F(self.0 - other.0)
    }
    fn times(self, other: F) -> F {
        F(self.0 * other.0)
    }
    fn over(self, other: F) -> F {
        F(self.0 / other.0)
    }
    fn negated(self) -> F {
        F(-self.0)
    }
    fn abs(self) -> F {
        F(self.0.abs())
    }
    fn max(self, other: F) -> F {
        F(self.0.max(other.0))
    }
    fn min(self, other: F) -> F {
        F(self.0.min(other.0))
    }
    fn floor(self) -> F {
        F(self.0.floor())
    }
    fn ceil(self) -> F {
        F(self.0.ceil())
    }
    fn round(self) -> F {
        F(self.0.round())
    }
    fn to_u32(self) -> u32 {
        self.0 as u32
    }
    fn lt(self, other: F) -> bool {
        self.0 < other.0
    }
    fn le(self, other: F) -> bool {
        self.0 <= other.0
    }
    fn eq(self, other: F) -> bool {
        self.0 == other.0
    }
}

const MS: u64 = 1_000_000;

fn sized(w: f32, h: f32) -> Node<F> {
    let mut n = Node::rect();
    n.layout.width = Len::Px(F(w));
    n.layout.height = Len::Px(F(h));
    n
}

fn scroller() -> Node<F> {
    let mut n = Node::rect();
    n.layout.height = Len::Px(F(50.0));
    n.layout.overflow_y = Overflow::Scroll;
    n.scroll = Some(at_rest());
    n
}

fn at_rest() -> ScrollState<F> {
    ScrollState {
        current: [F(0.0); 2],
        target: [F(0.0); 2],
        overscroll: false,
        snap_step: F(0.0),
        scale: F(1.0),
        bar_active: [false; 2],
        bar_hover: [false; 2],
        bar_alpha: F(0.0),
    }
}

fn named(name: &str, node: NodeId) -> Named {
    Named { name: name.to_string(), node }
}

fn lookup(names: &[Named], name: &str) -> Option<NodeId> {
    names.iter().find(|n| n.name == name).map(|n| n.node)
}

fn lit(signals: &Signals<F>, cell: SignalId) -> bool {
    matches!(signals.get(cell), Value::Flag(true))
}

/// Hit entries of nodes as they were laid out, topmost first.
fn hits_of(tree: &NodeTree<F>, ids: &[NodeId]) -> Vec<HitEntry<F>> {
    ids.iter()
        .map(|&id| {
            let r = tree.get(id).unwrap().rect;
            HitEntry {
                node_id: id,
                bounds: [r[0], r[1], F(r[0].0 + r[2].0), F(r[1].0 + r[3].0)],
                clip_rect: no_clip(),
            }
        })
        .collect()
}

#[test]
fn scroll_identity_names_and_structural_paths() {
    let mut tree = NodeTree::<F>::new();
    let root = tree.add_root(Node::rect());
    let named_id = tree.add_child(root, scroller());
    let inner = tree.add_child(root, Node::rect());
    tree.add_child(inner, Node::rect());
    tree.add_child(inner, scroller());
    let names = vec![named("root", root), named("named_scroll", named_id)];
    assert_eq!(
        scroll_identity(&tree, &names, named_id).as_deref(),
        Some("named_scroll")
    );
    let anon = tree
        .scrollables()
        .iter()
        .copied()
        .find(|&i| i != named_id)
        .expect("anonymous scroller registered");
    // Anchored at the named root: child 1 of root, child 1 within.
    assert_eq!(scroll_identity(&tree, &names, anon).as_deref(), Some("root/1/1"));
}

#[test]
fn nodes_that_are_gone_have_no_identity() {
    let mut tree = NodeTree::<F>::new();
    let root = tree.add_root(Node::rect());
    let other = tree.add_root(Node::rect());
    // Without a named ancestor the path starts at the roots.
    assert_eq!(scroll_identity(&tree, &vec![], other).as_deref(), Some("#root1"));
    tree.remove_subtree(root);
    assert_eq!(scroll_identity(&tree, &vec![], root), None);
}

#[test]
fn collect_live_image_handles_finds_every_image_node() {
    let mut tree = NodeTree::<F>::new();
    let h1 = ImageHandle(42);
    let h2 = ImageHandle(99);
    let h3 = ImageHandle(7);
    tree.add_root(Node::image(h1));
    tree.add_root(Node::image(h2));
    // Not a picture: must not appear in the live set.
    tree.add_root(Node::rect());
    let root3 = tree.add_root(Node::rect());
    // A picture further down must still appear.
    tree.add_child(root3, Node::image(h3));

    let live = collect_live_image_handles(&tree);
    assert_eq!(live.len(), 3);
    assert!(live.contains(&h1));
    assert!(live.contains(&h2));
    assert!(live.contains(&h3));
}

/// A shell, the names of its nodes, and what builds its scene.
struct Scene {
    shell: Shell<F>,
    names: Vec<Named>,
    colors: Vec<Option<BindSlot<F>>>,
}

impl Scene {
    fn new() -> Scene {
        Scene { shell: Shell::new(F(1.0)), names: vec![], colors: vec![] }
    }

    fn add(&mut self, name: &str, n: Node<F>) -> NodeId {
        let id = self.shell.tree.add_root(n);
        self.names.push(named(name, id));
        id
    }

    fn node(&self, name: &str) -> Option<NodeId> {
        lookup(&self.names, name)
    }

    fn flush(&mut self, viewport: [f32; 2]) {
        let s = &mut self.shell;
        begin_flush(
            &mut s.tree,
            &s.signals,
            &NullMeasurer,
            [F(viewport[0]), F(viewport[1])],
            F(1.0),
        );
    }

    fn rebuild(&mut self, build: Option<&dyn Fn(&mut Scene)>) {
        let Some(saved) = self.shell.begin_rebuild(build.is_some(), &self.names) else {
            return;
        };
        drop_slots(&mut self.colors, &saved.removed);
        self.names.clear();
        if let Some(build) = build {
            build(self);
        }
        self.flush([100.0, 100.0]);
        if self.shell.restore_scroll_positions(&self.names, &saved.scrolls) {
            self.flush([100.0, 100.0]);
        }
        let ids: Vec<NodeId> = self.names.iter().map(|n| n.node).collect();
        self.shell.hits = hits_of(&self.shell.tree, &ids);
        self.shell.restore_pointer(saved.cursor);
    }
}

#[test]
fn rebuild_scene_swaps_named_nodes() {
    let mut s = Scene::new();
    s.add("view_a", sized(10.0, 10.0));
    // Initial: view_a is live.
    assert!(s.node("view_a").is_some());
    assert!(s.node("view_b").is_none());
    let old = s.node("view_a").unwrap();

    s.rebuild(Some(&|s| {
        s.add("view_b", sized(20.0, 20.0));
    }));

    // After rebuild: view_b is live, view_a is gone.
    assert!(s.node("view_a").is_none());
    assert!(s.node("view_b").is_some());
    assert!(s.shell.tree.get(s.node("view_b").unwrap()).is_some());
    assert!(s.shell.tree.get(old).is_none());
    assert_eq!(s.shell.tree.len(), 1);
}

fn color_slot(node_id: NodeId, source: SignalId) -> BindSlot<F> {
    BindSlot { node_id, source, last_version: 0, displayed: None, animation: None }
}

#[test]
fn rebuild_scene_clears_bind_registry_live_count() {
    let mut s = Scene::new();
    let s1 = s.shell.signals.create(Value::Quad([F(1.0), F(0.0), F(0.0), F(1.0)]));
    let s2 = s.shell.signals.create(Value::Quad([F(0.0), F(1.0), F(0.0), F(1.0)]));
    let build = move |s: &mut Scene| {
        let a = s.add("a", Node::rect());
        let b = s.add("b", Node::rect());
        add_slot(&mut s.colors, color_slot(a, s1));
        add_slot(&mut s.colors, color_slot(b, s2));
    };
    build(&mut s);
    let live_before = s.colors.iter().filter(|s| s.is_some()).count();
    assert_eq!(live_before, 2);

    s.rebuild(Some(&build));

    // The freed slots are used again: the live count is restored and the
    // list does not grow.
    let live_after = s.colors.iter().filter(|s| s.is_some()).count();
    assert_eq!(live_after, 2);
    assert_eq!(s.colors.len(), 2, "freed slots reused: length must not grow across rebuilds");
}

#[test]
fn rebuild_scene_with_no_builder_is_noop() {
    let mut s = Scene::new();
    s.rebuild(None);
    assert_eq!(s.shell.tree.len(), 0);
    // Nor is anything lost of a scene that was put together by hand.
    let id = s.add("a", sized(10.0, 10.0));
    s.shell.input.hovered = Some(id);
    s.shell.tree.take_dirty();
    assert!(s.shell.begin_rebuild(false, &s.names).is_none());
    assert_eq!(s.shell.tree.len(), 1);
    assert_eq!(s.shell.input.hovered, Some(id));
    assert_eq!(s.shell.tree.take_dirty(), dirty::NONE);
    assert!(s.shell.begin_rebuild(true, &s.names).is_some());
    assert_eq!(s.shell.tree.len(), 0);
}

#[test]
fn rebuild_scene_resets_input_state() {
    let mut s = Scene::new();
    let build = |s: &mut Scene| {
        s.add("a", sized(10.0, 10.0));
    };
    build(&mut s);
    // Pretend something captured a node id.
    s.shell.input.captured = s.node("a");
    s.shell.input.hovered = s.node("a");
    assert!(s.shell.input.captured.is_some());

    s.rebuild(Some(&build));

    assert!(s.shell.input.captured.is_none(), "captured must reset");
    assert!(s.shell.input.hovered.is_none(), "hovered must reset");
}

#[test]
fn rebuild_scene_preserves_hover_under_stationary_cursor() {
    let mut s = Scene::new();
    let hover_sig = s.shell.signals.create(Value::Flag(false));
    let build = move |s: &mut Scene| {
        let mut n = sized(40.0, 40.0);
        n.interact.hover = Some(hover_sig);
        s.add("btn", n);
    };
    build(&mut s);
    s.flush([100.0, 100.0]);
    let id = s.node("btn").unwrap();
    s.shell.hits = hits_of(&s.shell.tree, &[id]);
    // The pointer sits over the button.
    let sh = &mut s.shell;
    let change = sh.input.on_cursor_moved(F(20.0), F(20.0), &sh.hits, &sh.tree, &mut sh.signals);
    assert!(change.hovered_changed);
    assert_eq!(s.shell.input.hovered, Some(id));
    assert!(lit(&s.shell.signals, hover_sig), "hover should latch on enter");

    s.rebuild(Some(&build));

    let new_id = s.node("btn").unwrap();
    assert_eq!(
        s.shell.input.hovered,
        Some(new_id),
        "hover must be found anew in the rebuilt tree"
    );
    assert!(
        lit(&s.shell.signals, hover_sig),
        "hover signal must stay on across a rebuild that changes nothing"
    );
}

#[test]
fn scrollers_stay_where_they_were() {
    let mut s = Scene::new();
    let build = |s: &mut Scene| {
        let id = s.add("list", scroller());
        s.shell.tree.add_child(id, sized(10.0, 400.0));
    };
    build(&mut s);
    s.flush([100.0, 100.0]);
    let id = s.node("list").unwrap();
    s.shell.tree.set_scroll_immediate(id, ScrollAxis::Y, F(120.0));
    s.rebuild(Some(&build));
    let id = s.node("list").unwrap();
    let scroll = s.shell.tree.get(id).unwrap().scroll.unwrap();
    assert_eq!(scroll.current, [F(0.0), F(120.0)]);
}

// --- Tab order ---

/// Four nodes; the cells follow their focus.
fn focus_scene(orders: [u32; 4]) -> (NodeTree<F>, Signals<F>, Vec<NodeId>, Vec<SignalId>) {
    let mut tree = NodeTree::<F>::new();
    let mut signals = Signals::new();
    let mut ids = vec![];
    let mut sigs = vec![];
    for i in 0..4 {
        let sig = signals.create(Value::Flag(false));
        let mut n = sized(100.0, 40.0);
        n.interact.focused = Some(sig);
        n.layout.focus_order = orders[i];
        ids.push(tree.add_root(n));
        sigs.push(sig);
    }
    compute_layout(&mut tree, [F(400.0), F(400.0)], &NullMeasurer, F(1.0));
    (tree, signals, ids, sigs)
}

fn tab(tree: &NodeTree<F>, focused: &mut Option<NodeId>, signals: &mut Signals<F>, forward: bool) {
    let next = focus_next(tree, [F(400.0), F(400.0)], *focused, forward);
    if next.is_some() {
        set_focus(focused, next, tree, signals);
    }
}

#[test]
fn tab_cycles_focus_forward_and_wraps() {
    let (tree, mut signals, ids, _) = focus_scene([1, 2, 3, 4]);
    let mut focused = None;
    tab(&tree, &mut focused, &mut signals, true);
    assert_eq!(focused, Some(ids[0]));
    tab(&tree, &mut focused, &mut signals, true);
    assert_eq!(focused, Some(ids[1]));
    tab(&tree, &mut focused, &mut signals, true);
    tab(&tree, &mut focused, &mut signals, true);
    assert_eq!(focused, Some(ids[3]));
    // Wrap back to the first.
    tab(&tree, &mut focused, &mut signals, true);
    assert_eq!(focused, Some(ids[0]));
}

#[test]
fn shift_tab_cycles_backward_and_wraps() {
    let (tree, mut signals, ids, _) = focus_scene([1, 2, 3, 4]);
    let mut focused = None;
    // From nothing, Shift+Tab lands on the last candidate.
    tab(&tree, &mut focused, &mut signals, false);
    assert_eq!(focused, Some(ids[3]));
    tab(&tree, &mut focused, &mut signals, false);
    assert_eq!(focused, Some(ids[2]));
    // Wrap forward off the front.
    tab(&tree, &mut focused, &mut signals, false);
    tab(&tree, &mut focused, &mut signals, false);
    assert_eq!(focused, Some(ids[0]));
    tab(&tree, &mut focused, &mut signals, false);
    assert_eq!(focused, Some(ids[3]));
}

#[test]
fn tab_visits_in_focus_order_not_creation_order() {
    let (tree, mut signals, ids, _) = focus_scene([3, 1, 4, 2]);
    let mut focused = None;
    tab(&tree, &mut focused, &mut signals, true);
    assert_eq!(focused, Some(ids[1]));
    tab(&tree, &mut focused, &mut signals, true);
    assert_eq!(focused, Some(ids[3]));
    tab(&tree, &mut focused, &mut signals, true);
    assert_eq!(focused, Some(ids[0]));
    tab(&tree, &mut focused, &mut signals, true);
    assert_eq!(focused, Some(ids[2]));
}

#[test]
fn focus_order_zero_is_excluded() {
    let (tree, mut signals, ids, _) = focus_scene([1, 0, 2, 3]);
    let mut focused = None;
    tab(&tree, &mut focused, &mut signals, true);
    assert_eq!(focused, Some(ids[0]));
    tab(&tree, &mut focused, &mut signals, true);
    assert_eq!(focused, Some(ids[2]), "n1 (order 0) must be skipped");
}

#[test]
fn focus_toggles_signals_exclusively() {
    let (tree, mut signals, _ids, sigs) = focus_scene([1, 2, 3, 4]);
    let mut focused = None;
    tab(&tree, &mut focused, &mut signals, true);
    assert!(lit(&signals, sigs[0]));
    tab(&tree, &mut focused, &mut signals, true);
    assert!(!lit(&signals, sigs[0]), "old focus signal flips off");
    assert!(lit(&signals, sigs[1]), "new focus signal flips on");
}

#[test]
fn focus_skips_invisible_nodes() {
    let (mut tree, mut signals, ids, _) = focus_scene([1, 2, 3, 4]);
    tree.set_visible(ids[1], false);
    compute_layout(&mut tree, [F(400.0), F(400.0)], &NullMeasurer, F(1.0));
    let mut focused = None;
    tab(&tree, &mut focused, &mut signals, true);
    assert_eq!(focused, Some(ids[0]));
    tab(&tree, &mut focused, &mut signals, true);
    assert_eq!(focused, Some(ids[2]), "invisible n1 skipped");
}

#[test]
fn focus_next_noop_when_nothing_focusable() {
    let (tree, mut signals, _, _) = focus_scene([0, 0, 0, 0]);
    let mut focused = None;
    tab(&tree, &mut focused, &mut signals, true);
    assert_eq!(focused, None);
}

#[test]
fn blurring_takes_the_focus_from_its_node_only() {
    let (tree, mut signals, ids, sigs) = focus_scene([1, 2, 3, 4]);
    let mut focused = None;
    tab(&tree, &mut focused, &mut signals, true);
    blur(&mut focused, ids[1], &tree, &mut signals);
    assert_eq!(focused, Some(ids[0]));
    blur(&mut focused, ids[0], &tree, &mut signals);
    assert_eq!(focused, None);
    assert!(!lit(&signals, sigs[0]));
}

// --- presses outside ---

fn fire_outside(tree: &NodeTree<F>, captured: Option<NodeId>, hook: Option<&mut u32>) {
    if unhandled_press_fires(tree, captured, hook.is_some()) {
        *hook.unwrap() += 1;
    }
}

#[test]
fn unhandled_press_fires_on_empty_hit() {
    let mut tree = NodeTree::<F>::new();
    let mut n = sized(50.0, 50.0);
    n.handlers.click = true;
    tree.add_root(n);
    let mut count = 0u32;
    // Press landed on empty space: nothing is captured.
    fire_outside(&tree, None, Some(&mut count));
    assert_eq!(count, 1);
}

#[test]
fn unhandled_press_fires_on_dismiss_transparent_scrim() {
    let mut tree = NodeTree::<F>::new();
    let mut n = Node::rect();
    n.dismiss_transparent = true;
    let scrim = tree.add_root(n);
    let mut count = 0u32;
    fire_outside(&tree, Some(scrim), Some(&mut count));
    assert_eq!(count, 1);
}

#[test]
fn unhandled_press_skips_regular_interactive_node() {
    let mut tree = NodeTree::<F>::new();
    let mut n = sized(50.0, 50.0);
    n.handlers.click = true;
    let btn = tree.add_root(n);
    let mut count = 0u32;
    // Press hit a normal button: not an outside click.
    fire_outside(&tree, Some(btn), Some(&mut count));
    assert_eq!(count, 0, "press on a real button must not dismiss");
}

#[test]
fn unhandled_press_noop_without_hook() {
    let mut tree = NodeTree::<F>::new();
    tree.add_root(sized(50.0, 50.0));
    fire_outside(&tree, None, None);
    assert!(!unhandled_press_fires(&tree, None, false));
    assert!(unhandled_press_fires(&tree, None, true));
    assert!(press_is_outside(&tree, None));
}

// --- drags ---

fn centre(tree: &NodeTree<F>, id: NodeId) -> [F; 2] {
    let r = tree.get(id).unwrap().rect;
    [F(r[0].0 + r[2].0 * 0.5), F(r[1].0 + r[3].0 * 0.5)]
}

fn one_node(n: Node<F>) -> (NodeTree<F>, NodeId, Vec<HitEntry<F>>) {
    let mut tree = NodeTree::<F>::new();
    let id = tree.add_root(n);
    compute_layout(&mut tree, [F(400.0), F(400.0)], &NullMeasurer, F(1.0));
    let hits = hits_of(&tree, &[id]);
    (tree, id, hits)
}

#[test]
fn on_drag_fires_with_per_event_delta() {
    let mut n = sized(40.0, 40.0);
    n.handlers.drag = true;
    let (mut tree, knob, hits) = one_node(n);
    let mut timeline = Timeline::new();
    let mut d = DragState::none();
    assert!(d.begin(&mut tree, Some(knob), Some([F(10.0), F(10.0)]), &mut timeline));
    let told = d.fire(&tree, &hits, Some(knob), F(15.0), F(10.0), F(1.0)).unwrap();
    assert_eq!(told.delta, [F(5.0), F(0.0)], "delta is from press origin on first move");
    assert_eq!(told.start, [F(10.0), F(10.0)]);
    assert_eq!(told.rect, [F(0.0), F(0.0), F(40.0), F(40.0)]);
    // Second move: delta is relative to the previous fire, not start.
    let told = d.fire(&tree, &hits, Some(knob), F(22.0), F(10.0), F(1.0)).unwrap();
    assert_eq!(told.delta, [F(7.0), F(0.0)]);
}

#[test]
fn on_drag_not_fired_without_capture() {
    let mut n = sized(40.0, 40.0);
    n.handlers.drag = true;
    let (tree, _knob, hits) = one_node(n);
    // No press captured: no drag fires.
    let mut d = DragState::none();
    assert!(d.fire(&tree, &hits, None, F(20.0), F(10.0), F(1.0)).is_none());
}

fn drop_scene(payload: u64) -> (NodeTree<F>, NodeId, NodeId, Vec<HitEntry<F>>) {
    let mut tree = NodeTree::<F>::new();
    let mut root = Node::rect();
    root.layout.width = Len::Fill;
    root.layout.height = Len::Fill;
    let root = tree.add_root(root);
    let mut src = sized(100.0, 40.0);
    src.drag_payload = Some(payload);
    let src = tree.add_child(root, src);
    let mut dst = sized(100.0, 40.0);
    dst.handlers.drop = true;
    let dst = tree.add_child(root, dst);
    compute_layout(&mut tree, [F(400.0), F(400.0)], &NullMeasurer, F(1.0));
    let hits = hits_of(&tree, &[dst, src]);
    (tree, src, dst, hits)
}

#[test]
fn drag_payload_delivered_to_drop_target() {
    let (mut tree, src, dst, hits) = drop_scene(42);
    let mut timeline = Timeline::new();
    let mut signals = Signals::new();
    let cell = signals.create(Value::Pair([F(0.0); 2]));
    let mut d = DragState::none();
    // Press on the source: latches the payload.
    let from = centre(&tree, src);
    d.begin(&mut tree, Some(src), Some(from), &mut timeline);
    assert!(d.payload.is_some(), "payload latched on press");
    // Release over the drop target.
    let at = Some(centre(&tree, dst));
    let told = d.take_drop(&tree, &hits, at).unwrap();
    d.release(&mut tree, at, cell, &mut timeline, &mut signals, 0);
    assert_eq!((told.node, told.payload), (dst, 42));
    assert!(d.payload.is_none(), "payload cleared after drop");
}

#[test]
fn drop_not_fired_when_released_off_target() {
    let (mut tree, src, _dst, hits) = drop_scene(7);
    let mut timeline = Timeline::new();
    let mut signals = Signals::new();
    let cell = signals.create(Value::Pair([F(0.0); 2]));
    let mut d = DragState::none();
    let from = centre(&tree, src);
    d.begin(&mut tree, Some(src), Some(from), &mut timeline);
    // Release way off in empty space: no drop target there.
    let at = Some([F(350.0), F(350.0)]);
    let told = d.take_drop(&tree, &hits, at);
    d.release(&mut tree, at, cell, &mut timeline, &mut signals, 0);
    assert_eq!(told, None, "drop must not fire off-target");
    assert!(d.payload.is_none(), "payload still cleared");
}

#[test]
fn cursor_override_picked_from_hovered_node() {
    let mut n = sized(20.0, 100.0);
    n.cursor = Some(CursorShape::EwResize);
    let (tree, _id, hits) = one_node(n);
    assert_eq!(
        hovered_node_cursor(&tree, &hits, F(10.0), F(50.0)),
        Some(CursorShape::EwResize)
    );
    // Outside: no override.
    assert_eq!(hovered_node_cursor(&tree, &hits, F(150.0), F(50.0)), None);
}

#[test]
fn press_fires_initial_on_drag_for_click_to_set() {
    // A plain click (press, no move) runs the drag handler once at the press
    // position so that sliders jump on click.
    let mut n = sized(200.0, 8.0);
    n.handlers.drag = true;
    let (mut tree, track, hits) = one_node(n);
    let mut timeline = Timeline::new();
    let mut d = DragState::none();
    let at_once = d.begin(&mut tree, Some(track), Some([F(120.0), F(4.0)]), &mut timeline);
    assert!(at_once);
    let told = d.fire(&tree, &hits, Some(track), F(120.0), F(4.0), F(1.0)).unwrap();
    assert_eq!(told.current, [F(120.0), F(4.0)], "on_drag fires at press position");
}

fn lifted_scene(follow: bool) -> (NodeTree<F>, NodeId) {
    let mut n = sized(80.0, 40.0);
    n.drag_payload = Some(1);
    n.drag_follow = follow;
    let (tree, id, _) = one_node(n);
    (tree, id)
}

#[test]
fn drag_follow_tracks_and_clears() {
    let (mut tree, item) = lifted_scene(true);
    let mut timeline = Timeline::new();
    let mut signals = Signals::new();
    let cell = signals.create(Value::Pair([F(0.0); 2]));
    let mut d = DragState::none();
    d.begin(&mut tree, Some(item), Some([F(10.0), F(10.0)]), &mut timeline);
    assert_eq!(d.follow.map(|l| l.node), Some(item), "lifts on press");
    assert!(d.update_follow(&mut tree, Some(item), F(30.0), F(25.0)));
    assert_eq!(d.follow.map(|l| l.node), Some(item));
    assert_eq!(d.follow.unwrap().offset, [F(20.0), F(15.0)]);
    // Release starts a snap-back: the lift is still active.
    d.release(&mut tree, Some([F(30.0), F(25.0)]), cell, &mut timeline, &mut signals, 0);
    assert!(d.returning.is_some(), "release starts a snap-back");
    assert_eq!(d.follow.map(|l| l.node), Some(item), "still lifted mid-return");
    assert_eq!(timeline.len(), 1);
    assert!(matches!(signals.get(cell), Value::Pair(p) if p == [F(20.0), F(15.0)]));
    // The tween has reached the slot.
    d.tick_return(&mut tree, [F(0.0), F(0.0)]);
    assert!(d.follow.is_none(), "lands: lift cleared");
    assert!(d.returning.is_none());
}

#[test]
fn a_lifted_node_is_drawn_anew() {
    let (mut tree, item) = lifted_scene(true);
    let mut timeline = Timeline::new();
    let mut signals = Signals::new();
    let cell = signals.create(Value::Pair([F(0.0); 2]));
    let mut d = DragState::none();
    let fresh = |tree: &mut NodeTree<F>| tree.take_dirty() & dirty::VISUAL != 0;
    fresh(&mut tree);
    d.begin(&mut tree, Some(item), Some([F(10.0), F(10.0)]), &mut timeline);
    assert!(fresh(&mut tree), "lifted");
    assert!(!d.update_follow(&mut tree, None, F(30.0), F(25.0)));
    assert!(!fresh(&mut tree), "not moved");
    d.update_follow(&mut tree, Some(item), F(30.0), F(25.0));
    assert!(fresh(&mut tree), "moved");
    d.release(&mut tree, Some([F(30.0), F(25.0)]), cell, &mut timeline, &mut signals, 0);
    assert!(fresh(&mut tree), "let go");
    d.tick_return(&mut tree, [F(8.0), F(3.0)]);
    assert!(fresh(&mut tree), "gliding");
    d.clear(&mut tree, &mut timeline);
    assert!(fresh(&mut tree), "put down");
    d.tick_return(&mut tree, [F(8.0), F(3.0)]);
    d.clear(&mut tree, &mut timeline);
    assert!(!fresh(&mut tree), "nothing is lifted");
}

#[test]
fn drag_follow_click_without_move_clears_immediately() {
    let (mut tree, item) = lifted_scene(true);
    let mut timeline = Timeline::new();
    let mut signals = Signals::new();
    let cell = signals.create(Value::Pair([F(0.0); 2]));
    let mut d = DragState::none();
    d.begin(&mut tree, Some(item), Some([F(10.0), F(10.0)]), &mut timeline);
    assert_eq!(d.follow.map(|l| l.node), Some(item));
    // Release at the same spot: no snap-back needed.
    d.release(&mut tree, Some([F(10.0), F(10.0)]), cell, &mut timeline, &mut signals, 0);
    assert!(d.returning.is_none(), "no animation for a zero-move click");
    assert!(d.follow.is_none(), "lift cleared at once");
}

#[test]
fn drag_without_follow_flag_does_not_lift() {
    let (mut tree, item) = lifted_scene(false);
    let mut timeline = Timeline::new();
    let mut d = DragState::none();
    d.begin(&mut tree, Some(item), Some([F(10.0), F(10.0)]), &mut timeline);
    assert!(d.follow.is_none());
    assert!(!d.update_follow(&mut tree, Some(item), F(30.0), F(25.0)));
}

#[test]
fn begin_drag_ignores_non_draggable_node() {
    let mut n = sized(40.0, 40.0);
    n.handlers.click = true;
    let (mut tree, btn, _) = one_node(n);
    let mut timeline = Timeline::new();
    let mut d = DragState::none();
    assert!(!d.begin(&mut tree, Some(btn), Some([F(10.0), F(10.0)]), &mut timeline));
    assert!(d.origin.is_none());
    assert!(d.payload.is_none());
}

#[test]
fn the_end_of_a_drag_is_told_once() {
    let mut n = sized(40.0, 40.0);
    n.handlers.drag = true;
    n.handlers.drag_end = true;
    let (mut tree, id, _) = one_node(n);
    let mut timeline = Timeline::new();
    let mut d = DragState::none();
    d.begin(&mut tree, Some(id), Some([F(10.0), F(10.0)]), &mut timeline);
    assert_eq!(d.take_end(&tree), Some(id));
    assert_eq!(d.take_end(&tree), None);
    d.clear(&mut tree, &mut timeline);
    assert!(d.origin.is_none());
}

// --- binds ---

fn bound(tree: &mut NodeTree<F>, n: Node<F>, source: SignalId) -> (NodeId, Vec<Option<BindSlot<F>>>) {
    let id = tree.add_root(n);
    (id, vec![Some(color_slot(id, source))])
}

#[test]
fn width_px_bind_updates_layout_on_signal_change() {
    let mut signals = Signals::new();
    let w = signals.create(Value::Scalar(F(200.0)));
    let mut tree = NodeTree::<F>::new();
    let (id, mut slots) = bound(&mut tree, sized(200.0, 40.0), w);
    let viewport = [F(800.0), F(400.0)];
    begin_flush(&mut tree, &signals, &NullMeasurer, viewport, F(1.0));
    let initial = tree.get(id).unwrap().rect[2];
    assert!((initial.0 - 200.0).abs() < 0.5, "initial width = signal");
    // The bind takes the new value into the layout; the next flush lays the
    // tree out anew.
    signals.set(w, Value::Scalar(F(360.0)));
    process_width_px_binds(&mut slots, &mut tree, &signals);
    assert!(begin_flush(&mut tree, &signals, &NullMeasurer, viewport, F(1.0)).unwrap().layout);
    let resized = tree.get(id).unwrap().rect[2];
    assert!((resized.0 - 360.0).abs() < 0.5, "width follows signal");
    // Nothing more to do.
    process_width_px_binds(&mut slots, &mut tree, &signals);
    assert!(begin_flush(&mut tree, &signals, &NullMeasurer, viewport, F(1.0)).is_none());
}

#[test]
fn height_px_bind_updates_layout_on_signal_change() {
    let mut signals = Signals::new();
    let h = signals.create(Value::Scalar(F(60.0)));
    let mut tree = NodeTree::<F>::new();
    let (id, mut slots) = bound(&mut tree, sized(120.0, 60.0), h);
    let viewport = [F(400.0), F(600.0)];
    begin_flush(&mut tree, &signals, &NullMeasurer, viewport, F(1.0));
    let initial = tree.get(id).unwrap().rect[3];
    assert!((initial.0 - 60.0).abs() < 0.5);
    signals.set(h, Value::Scalar(F(180.0)));
    process_height_px_binds(&mut slots, &mut tree, &signals);
    begin_flush(&mut tree, &signals, &NullMeasurer, viewport, F(1.0));
    let resized = tree.get(id).unwrap().rect[3];
    assert!((resized.0 - 180.0).abs() < 0.5);
}

#[test]
fn an_animated_colour_moves_and_stops_with_its_node() {
    let mut signals = Signals::new();
    let black = Value::Quad([F(0.0); 4]);
    let white = Value::Quad([F(1.0); 4]);
    let source = signals.create(black);
    let shown = signals.create(black);
    let mut tree = NodeTree::<F>::new();
    let id = tree.add_root(Node::rect());
    let mut slots = vec![Some(BindSlot {
        node_id: id,
        source,
        last_version: 0,
        displayed: Some(shown),
        animation: Some((Curve::Linear, 100 * MS)),
    })];
    let mut timeline = Timeline::new();
    signals.set(source, white);
    process_color_binds(&mut slots, &mut tree, &mut timeline, &signals, 0);
    assert_eq!(timeline.len(), 1);
    let rest = vec![SpringSample { position: F(0.0), velocity: F(0.0) }];
    timeline.tick(&mut signals, &rest, 50 * MS);
    pump_displays(BindKind::Color, &slots, &mut tree, &signals);
    assert_eq!(tree.get(id).unwrap().color, [F(0.5); 4]);
    // The node goes, and its tween with it.
    let gone = tree.remove_subtree(id);
    let places = drop_slots(&mut slots, &gone);
    assert_eq!(places, vec![0]);
    stop_tweens_for_removal(
        &mut timeline,
        &SubtreeRemoval {
            dropped_color_slots: places,
            dropped_position_slots: vec![],
            dropped_size_slots: vec![],
        },
    );
    assert!(timeline.is_empty());
}

#[test]
fn binds_without_a_curve_snap() {
    let mut signals = Signals::new();
    let place = signals.create(Value::Pair([F(0.0), F(0.0)]));
    let extent = signals.create(Value::Pair([F(0.0), F(0.0)]));
    let fade = signals.create(Value::Scalar(F(1.0)));
    let share = signals.create(Value::Scalar(F(0.0)));
    let mut tree = NodeTree::<F>::new();
    let id = tree.add_root(Node::rect());
    let mut timeline = Timeline::new();
    signals.set(place, Value::Pair([F(3.0), F(4.0)]));
    signals.set(extent, Value::Pair([F(5.0), F(6.0)]));
    signals.set(fade, Value::Scalar(F(0.0)));
    signals.set(share, Value::Scalar(F(0.25)));
    process_position_binds(&mut vec![Some(color_slot(id, place))], &mut tree, &mut timeline, &signals, 0);
    process_size_binds(&mut vec![Some(color_slot(id, extent))], &mut tree, &mut timeline, &signals, 0);
    let n = tree.get(id).unwrap();
    assert_eq!(n.layout.abs, Some([F(3.0), F(4.0)]));
    assert!(matches!(n.layout.width, Len::Px(w) if w == F(5.0)));
    assert!(matches!(n.layout.height, Len::Px(h) if h == F(6.0)));
    process_width_pct_binds(&mut vec![Some(color_slot(id, share))], &mut tree, &signals);
    assert!(matches!(tree.get(id).unwrap().layout.width, Len::Pct(p) if p == F(0.25)));
    // What is not seen takes no input.
    process_opacity_binds(&mut vec![Some(color_slot(id, fade))], &mut tree, &mut timeline, &signals, 0);
    assert!(!tree.get(id).unwrap().visible);
    assert!(timeline.is_empty());
}

#[test]
fn texts_and_pictures_follow_their_cells() {
    let mut tree = NodeTree::<F>::new();
    let label = tree.add_root(Node::text("a".to_string(), F(12.0)));
    let pic = tree.add_root(Node::rect());
    let mut texts = vec![TextCell { value: "a".to_string(), version: 0 }];
    let mut images = vec![ImageCell { value: None, version: 0 }];
    let mut ts = vec![Some(SnapSlot { node_id: label, source: 0, last_version: 0 })];
    let mut is = vec![Some(SnapSlot { node_id: pic, source: 0, last_version: 0 }), None];
    tree.take_dirty();
    process_text_binds(&mut ts, &mut tree, &texts);
    process_image_binds(&mut is, &mut tree, &images);
    assert_eq!(tree.take_dirty(), 0);
    texts[0] = TextCell { value: "b".to_string(), version: 1 };
    images[0] = ImageCell { value: Some(ImageHandle(4)), version: 1 };
    process_text_binds(&mut ts, &mut tree, &texts);
    process_image_binds(&mut is, &mut tree, &images);
    assert_eq!(tree.get(label).unwrap().text.as_ref().unwrap().content, "b");
    assert_eq!(tree.get(pic).unwrap().image, Some(ImageHandle(4)));
    assert_ne!(tree.take_dirty(), 0);
    assert_eq!(ts[0].unwrap().last_version, 1);
}

// --- keys ---

const NONE: Modifiers = Modifiers { shift: false, control: false, command: false };
const SHIFT: Modifiers = Modifiers { shift: true, control: false, command: false };
const CTRL: Modifiers = Modifiers { shift: false, control: true, command: false };

#[test]
fn resolve_shift_arrow_extends_selection() {
    assert_eq!(
        resolve_edit_op(&Key::Named(NamedKey::ArrowRight), None, SHIFT),
        Some(EditOp::SelectRight)
    );
    assert_eq!(
        resolve_edit_op(&Key::Named(NamedKey::ArrowLeft), None, SHIFT),
        Some(EditOp::SelectLeft)
    );
    // Without shift, the same keys plain-move.
    assert_eq!(
        resolve_edit_op(&Key::Named(NamedKey::ArrowRight), None, NONE),
        Some(EditOp::MoveRight)
    );
}

#[test]
fn resolve_shift_home_end_select_to_edges() {
    assert_eq!(
        resolve_edit_op(&Key::Named(NamedKey::Home), None, SHIFT),
        Some(EditOp::SelectHome)
    );
    assert_eq!(
        resolve_edit_op(&Key::Named(NamedKey::End), None, SHIFT),
        Some(EditOp::SelectEnd)
    );
}

#[test]
fn resolve_accel_combos() {
    assert_eq!(
        resolve_edit_op(&Key::Character("a".into()), None, CTRL),
        Some(EditOp::SelectAll)
    );
    assert_eq!(
        resolve_edit_op(&Key::Character("c".into()), None, CTRL),
        Some(EditOp::Copy)
    );
    assert_eq!(
        resolve_edit_op(&Key::Character("x".into()), None, CTRL),
        Some(EditOp::Cut)
    );
    // Unmapped accel combo (Ctrl+S) falls through, and the character is not
    // inserted while accel is held.
    assert_eq!(resolve_edit_op(&Key::Character("s".into()), Some("s"), CTRL), None);
}

#[test]
fn resolve_plain_char_inserts() {
    assert_eq!(
        resolve_edit_op(&Key::Character("q".into()), Some("q"), NONE),
        Some(EditOp::Insert("q".to_string()))
    );
}

// --- lists ---

/// A tree with one list that fills the viewport.
fn list_scene(rows: u32) -> (NodeTree<F>, NodeId) {
    let mut tree = NodeTree::<F>::new();
    let mut n = Node::rect();
    n.layout.axis = Axis::Col;
    n.layout.width = Len::Fill;
    n.layout.height = Len::Fill;
    n.layout.overflow_y = Overflow::Scroll;
    n.scroll = Some(at_rest());
    n.lazy_list = Some(LazyListState::new(rows, F(40.0)));
    let id = tree.add_root(n);
    (tree, id)
}

/// Flushes a tree of lists. The result are the rows that were rendered.
fn flush_list(tree: &mut NodeTree<F>) -> Vec<u32> {
    let signals = Signals::new();
    let mut rendered = vec![];
    begin_flush(tree, &signals, &NullMeasurer, [F(400.0), F(200.0)], F(1.0));
    for list in lazy_lists(tree) {
        let (first, end) = match plan_list(tree, list, F(1.0)) {
            Some(ListPlan::Rebuild { first, end }) => {
                clear_rows(tree, list);
                commit_rows(tree, list, vec![], [first, first]);
                (first, end)
            }
            Some(ListPlan::Shift { first, end }) => {
                trim_rows(tree, list, first, end);
                (first, end)
            }
            _ => continue,
        };
        let mut rows = vec![];
        for i in rows_to_render(tree, list, first, end) {
            let before = tree.get(list).unwrap().children.len();
            let mut n = sized(10.0, 40.0);
            n.layout.width = Len::Fill;
            tree.add_child(list, n);
            let row = new_row(tree, list, before).unwrap();
            place_row(tree, list, row, i);
            rows.push(Some(row));
            rendered.push(i);
        }
        finish_rows(tree, list, &rows, first, end);
    }
    tree.mark_all_dirty();
    begin_flush(tree, &signals, &NullMeasurer, [F(400.0), F(200.0)], F(1.0));
    rendered
}

#[test]
fn lazy_list_materializes_visible_window_only() {
    let (mut tree, id) = list_scene(10_000);
    flush_list(&mut tree);
    let list = tree.get(id).unwrap();
    let ll = list.lazy_list.as_ref().unwrap();
    assert!(ll.materialized.len() < 50, "should not materialize all 10K rows");
    assert!(ll.materialized.len() >= 5, "should materialize at least the visible rows");
    // The extent reflects all rows, driving scroll bounds.
    assert!(
        (list.content_size[1].0 - 400_000.0).abs() < 1.0,
        "content_size should equal 10000 * 40"
    );
    // Rows stand below each other.
    let r = tree.get(ll.materialized[3]).unwrap().rect;
    assert_eq!(r[1], F(120.0));
}

#[test]
fn lazy_list_scroll_re_materializes() {
    let (mut tree, id) = list_scene(10_000);
    flush_list(&mut tree);
    let range_before = tree.get(id).unwrap().lazy_list.as_ref().unwrap().range;
    // Scroll down 4000 pixels (100 rows), at once.
    tree.set_scroll_target(id, [F(0.0), F(4000.0)]);
    tree.set_scroll_immediate(id, ScrollAxis::Y, F(4000.0));
    flush_list(&mut tree);
    let range_after = tree.get(id).unwrap().lazy_list.as_ref().unwrap().range;
    assert_ne!(range_before, range_after, "scrolling should shift window");
    assert!(range_after[0] >= 90, "should materialize rows around index 100");
}

#[test]
fn rendered_rows_stay_while_the_window_does() {
    let (mut tree, id) = list_scene(100);
    flush_list(&mut tree);
    assert_eq!(plan_list(&tree, id, F(1.0)), Some(ListPlan::Keep));
    assert_eq!(plan_list(&tree, NodeId { index: 77 }, F(1.0)), None);
}

fn list_state(tree: &NodeTree<F>, id: NodeId) -> &LazyListState<F> {
    tree.get(id).unwrap().lazy_list.as_ref().unwrap()
}

/// Each rendered row lies at its top, and the range is the visible window.
fn rows_are_in_step(tree: &NodeTree<F>, id: NodeId) {
    let list = tree.get(id).unwrap();
    let ll = list.lazy_list.as_ref().unwrap();
    let top = list.scroll.unwrap().current[1];
    assert_eq!(ll.range, ll.visible_window(top, list.rect[3], F(1.0)));
    assert_eq!(ll.materialized.len() as u32, ll.range[1] - ll.range[0]);
    for (k, row) in ll.materialized.iter().enumerate() {
        let want = [F(0.0), ll.row_top_logical(ll.range[0] + k as u32)];
        assert_eq!(tree.get(*row).unwrap().layout.abs, Some(want));
    }
}

#[test]
fn rows_move_when_heights_change_before_a_flush() {
    let (mut tree, id) = list_scene(100);
    let mut ll = LazyListState::new(100, F(40.0));
    ll.set_row_heights(vec![F(40.0); 100]);
    tree.set_lazy_list(id, ll);
    flush_list(&mut tree);
    rows_are_in_step(&tree, id);
    let rows = list_state(&tree, id).materialized.clone();
    let mut ll = tree.take_lazy_list(id).unwrap();
    assert!(ll.set_row_height(1, F(55.0)));
    tree.set_lazy_list(id, ll);
    tree.mark_all_dirty();
    // The flush computes the tops anew; that the rows are still at the old
    // ones is not forgotten by it.
    begin_flush(&mut tree, &Signals::new(), &NullMeasurer, [F(400.0), F(200.0)], F(1.0));
    assert_eq!(plan_list(&tree, id, F(1.0)), Some(ListPlan::Reposition));
    assert!(reposition_rows(&mut tree, id));
    assert_eq!(list_state(&tree, id).materialized, rows, "the rows stay");
    assert_eq!(tree.get(rows[2]).unwrap().layout.abs, Some([F(0.0), F(95.0)]));
    rows_are_in_step(&tree, id);
    assert_eq!(plan_list(&tree, id, F(1.0)), Some(ListPlan::Keep));
    assert!(!reposition_rows(&mut tree, id));
}

#[test]
fn rows_are_in_step_wherever_the_list_is_scrolled() {
    let (mut tree, id) = list_scene(500);
    flush_list(&mut tree);
    for y in [0.0, 130.0, 4000.0, 19_800.0, 77.0] {
        tree.set_scroll_immediate(id, ScrollAxis::Y, F(y));
        flush_list(&mut tree);
        rows_are_in_step(&tree, id);
        assert_eq!(plan_list(&tree, id, F(1.0)), Some(ListPlan::Keep));
    }
}

#[test]
fn only_the_missing_rows_are_rendered() {
    let (mut tree, id) = list_scene(100);
    flush_list(&mut tree);
    let range = list_state(&tree, id).range;
    assert_eq!(range, [0, 7]);
    assert_eq!(rows_to_render(&tree, id, 0, 7), Vec::<u32>::new());
    assert_eq!(rows_to_render(&tree, id, 4, 9), [7, 8]);
    assert_eq!(rows_to_render(&tree, id, 20, 22), [20, 21]);
    assert_eq!(rows_to_render(&tree, id, 5, 5), Vec::<u32>::new());
    assert_eq!(rows_to_render(&tree, NodeId { index: 99 }, 0, 4), Vec::<u32>::new());
    // A row that rendering makes nothing of is left out, and the others stay
    // in order.
    let old = list_state(&tree, id).materialized.clone();
    let extra = tree.add_child(id, sized(10.0, 40.0));
    finish_rows(&mut tree, id, &vec![None, Some(extra)], 4, 9);
    let ll = list_state(&tree, id);
    assert_eq!(ll.materialized, [old[4], old[5], old[6], extra]);
    assert_eq!(ll.range, [4, 9]);
}

#[test]
fn rows_that_stay_in_view_are_not_rendered_again() {
    let (mut tree, id) = list_scene(500);
    assert_eq!(flush_list(&mut tree), (0..7).collect::<Vec<_>>());
    let before = list_state(&tree, id).clone();
    // Three rows on: two that were above the buffer leave, three come.
    tree.set_scroll_immediate(id, ScrollAxis::Y, F(160.0));
    begin_flush(&mut tree, &Signals::new(), &NullMeasurer, [F(400.0), F(200.0)], F(1.0));
    assert_eq!(plan_list(&tree, id, F(1.0)), Some(ListPlan::Shift { first: 2, end: 11 }));
    tree.mark_all_dirty();
    assert_eq!(flush_list(&mut tree), [7, 8, 9, 10]);
    let after = list_state(&tree, id).clone();
    assert_eq!(after.materialized[..5], before.materialized[2..]);
    assert!(tree.get(before.materialized[0]).is_none() && tree.get(before.materialized[1]).is_none());
    rows_are_in_step(&tree, id);
    // Back up: what comes in at the top is rendered, in its place.
    tree.set_scroll_immediate(id, ScrollAxis::Y, F(120.0));
    tree.mark_all_dirty();
    assert_eq!(flush_list(&mut tree), [1]);
    assert_eq!(list_state(&tree, id).materialized[1..], after.materialized[..8]);
    rows_are_in_step(&tree, id);
    // Far away nothing stays.
    tree.set_scroll_immediate(id, ScrollAxis::Y, F(8000.0));
    tree.mark_all_dirty();
    assert_eq!(flush_list(&mut tree).len(), 9);
    rows_are_in_step(&tree, id);
    // A new version renders all rows again.
    let mut ll = tree.take_lazy_list(id).unwrap();
    ll.version += 1;
    let window = ll.range;
    tree.set_lazy_list(id, ll);
    assert_eq!(
        plan_list(&tree, id, F(1.0)),
        Some(ListPlan::Rebuild { first: window[0], end: window[1] })
    );
    assert_eq!(flush_list(&mut tree).len(), 9);
}

// --- resting pointer ---

fn dwell_scene(ms: u64) -> (NodeTree<F>, NodeId) {
    let mut n = sized(40.0, 40.0);
    n.handlers.dwell = Some(ms * MS);
    let (tree, id, _) = one_node(n);
    (tree, id)
}

#[test]
fn dwell_arms_on_hover_into_dwell_node() {
    let mut fired = 0;
    let (tree, id) = dwell_scene(200);
    let now = 5_000 * MS;
    // No hover: the tracker stays off.
    let mut dwell = refresh_dwell(None, &tree, None, now);
    assert!(dwell.is_none());
    // The pointer comes.
    let hovered = Some(id);
    dwell = refresh_dwell(dwell, &tree, hovered, now);
    assert!(dwell.is_some(), "dwell should arm on hover-enter");
    assert!(!dwell.unwrap().fired);
    // Tick before deadline: no fire.
    assert!(tick_dwell(&mut dwell, &tree, hovered, now + 100 * MS).is_none());
    assert_eq!(fired, 0);
    // Tick after deadline: fires once, marks fired.
    let f = tick_dwell(&mut dwell, &tree, hovered, now + 250 * MS).unwrap();
    if f.handler {
        fired += 1;
    }
    assert_eq!(fired, 1);
    assert!(dwell.unwrap().fired);
    // Tick again: no double-fire while still hovered.
    assert!(tick_dwell(&mut dwell, &tree, hovered, now + 500 * MS).is_none());
    assert_eq!(fired, 1);
}

#[test]
fn dwell_resets_when_hover_leaves() {
    let (tree, id) = dwell_scene(200);
    let now = 5_000 * MS;
    let mut dwell = refresh_dwell(None, &tree, Some(id), now);
    // Leave before deadline.
    dwell = refresh_dwell(dwell, &tree, None, now + 50 * MS);
    assert!(dwell.is_none(), "dwell should clear on hover-leave");
    // Re-enter: fresh deadline; previous 50 ms do not count.
    let now2 = now + 60 * MS;
    dwell = refresh_dwell(dwell, &tree, Some(id), now2);
    assert!(tick_dwell(&mut dwell, &tree, Some(id), now2 + 150 * MS).is_none());
    assert!(tick_dwell(&mut dwell, &tree, Some(id), now2 + 210 * MS).unwrap().handler);
}

#[test]
fn dwell_handler_can_mutate_tree_via_ctx() {
    let (mut tree, id) = dwell_scene(100);
    let now = 5_000 * MS;
    let mut dwell = refresh_dwell(None, &tree, Some(id), now);
    if let Some(f) = tick_dwell(&mut dwell, &tree, Some(id), now + 150 * MS) {
        if f.handler {
            tree.set_color(f.node, [F(1.0), F(0.0), F(0.0), F(1.0)]);
        }
    }
    assert_eq!(tree.get(id).unwrap().color, [F(1.0), F(0.0), F(0.0), F(1.0)]);
}
