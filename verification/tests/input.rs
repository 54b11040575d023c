use frostify_gfx::gpu::instance::no_clip;
use frostify_gfx::input::{
    drag_to, end_drag, on_scroll_key, on_wheel, press_scrollbar, pump_held_scroll,
    update_scrollbar_hover, HeldKeys, InputState, KeyCode, ScrollbarPress,
};
use frostify_gfx::layout::Overflow;
use frostify_gfx::node::{
    HitEntry, Node, NodeId, NodeTree, ScrollAxis, ScrollHit, ScrollState, ScrollbarHit,
};
use frostify_gfx::num::Num;
use frostify_gfx::signal::{SignalId, Signals, Value};

/// Numbers as the shell uses them.
#[derive(Clone, Copy, Debug, PartialEq, PartialOrd)]
struct F(f32);

impl Num for F {
    fn of_ratio(num: i32, den: i32) -> F {
        F(num as f32 / den as f32)
    }
    fn of_u64(n: u64) -> F {
        F(n as f32)
    }
    fn of_nanos(ns: u64) -> F {
        F(std::time::Duration::from_nanos(ns).as_secs_f32())
    }
    fn lowest_value() -> F {
        F(f32::NEG_INFINITY)
    }
    fn greatest_value() -> F {
        F(f32::MAX)
    }
    fn far_value() -> F {
        F(1.0e30)
    }
    fn plus(self, other: F) -> F {
        F(self.0 + other.0)
    }
    fn minus(self, other: F) -> F {
        F(self.0 - other.0)
    }
    fn times(self, other: F) -> F {
        F(self.0 * other.0)
    }
    fn over(self, other: F) -> F {
        F(self.0 / other.0)
    }
    fn negated(self) -> F {
        F(-self.0)
    }
    fn abs(self) -> F {
        F(self.0.abs())
    }
    fn max(self, other: F) -> F {
        F(self.0.max(other.0))
    }
    fn min(self, other: F) -> F {
        F(self.0.min(other.0))
    }
    fn floor(self) -> F {
        F(self.0.floor())
    }
    fn ceil(self) -> F {
        F(self.0.ceil())
    }
    fn round(self) -> F {
        F(self.0.round())
    }
    fn to_u32(self) -> u32 {
        self.0 as u32
    }
    fn lt(self, other: F) -> bool {
        self.0 < other.0
    }
    fn le(self, other: F) -> bool {
        self.0 <= other.0
    }
    fn eq(self, other: F) -> bool {
        self.0 == other.0
    }
}

fn scrollable(
    t: &mut NodeTree<F>,
    x: F,
    y: F,
    w: F,
    h: F,
    content: [F; 2],
    axis: char,
) -> NodeId {
    let mut n = Node::rect();
    match axis {
        'y' => n.layout.overflow_y = Overflow::Scroll,
        'x' => n.layout.overflow_x = Overflow::Scroll,
        _ => {
            n.layout.overflow_x = Overflow::Scroll;
            n.layout.overflow_y = Overflow::Scroll;
        }
    }
    n.scroll = Some(ScrollState {
        current: [F(0.0); 2],
        target: [F(0.0); 2],
        overscroll: false,
        snap_step: F(0.0),
        scale: F(1.0),
        bar_active: [false; 2],
        bar_hover: [false; 2],
        bar_alpha: F(0.0),
    });
    n.rect = [x, y, w, h];
    n.content_size = content;
    t.add_root(n)
}

#[test]
fn wheel_bubbles_remainder_to_outer() {
    let mut t = NodeTree::<F>::new();
    let outer = scrollable(&mut t, F(0.0), F(0.0), F(200.0), F(200.0), [F(200.0), F(1000.0)], 'y');
    let inner = scrollable(&mut t, F(10.0), F(10.0), F(180.0), F(100.0), [F(180.0), F(150.0)], 'y');
    // Inner already past its edge — wheel up over inner should
    // forward the unconsumed delta to outer.
    let _ = t.add_scroll_delta(inner, [F(0.0), F(50.0)]); // inner now at 50/50
    let scroll_hits = vec![
        ScrollHit {
            node_id: outer,
            bounds: [F(0.0), F(0.0), F(200.0), F(200.0)],
            clip_rect: no_clip(),
            ancestor_chain: vec![outer],
        },
        ScrollHit {
            node_id: inner,
            bounds: [F(10.0), F(10.0), F(190.0), F(110.0)],
            clip_rect: no_clip(),
            ancestor_chain: vec![inner, outer],
        },
    ];
    let moved = on_wheel([F(100.0), F(60.0)], [F(0.0), F(100.0)], &scroll_hits, &mut t, false);
    assert!(moved);
    // Inner stays clamped at its max (50). Outer absorbs the
    // remaining 100 of the requested 100 (since inner had 0 budget
    // left — it was already at edge).
    let outer_off = t.get(outer).unwrap().scroll.unwrap().target;
    assert!((outer_off[1].0 - 100.0).abs() < 0.01, "outer={outer_off:?}");
}

#[test]
fn shift_swaps_wheel_axis() {
    let mut t = NodeTree::<F>::new();
    let id = scrollable(&mut t, F(0.0), F(0.0), F(200.0), F(100.0), [F(800.0), F(100.0)], 'x');
    let scroll_hits = vec![ScrollHit {
        node_id: id,
        bounds: [F(0.0), F(0.0), F(200.0), F(100.0)],
        clip_rect: no_clip(),
        ancestor_chain: vec![id],
    }];
    // Vertical wheel + shift → horizontal scroll.
    let moved = on_wheel([F(100.0), F(50.0)], [F(0.0), F(80.0)], &scroll_hits, &mut t, true);
    assert!(moved);
    let off = t.get(id).unwrap().scroll.unwrap().target;
    assert_eq!(off[1], F(0.0), "y must remain 0 after shift swap");
    assert!((off[0].0 - 80.0).abs() < 0.01, "x should absorb the 80");
}

#[test]
fn wheel_outside_any_scroll_hit_is_noop() {
    let mut t = NodeTree::<F>::new();
    let id = scrollable(&mut t, F(0.0), F(0.0), F(100.0), F(100.0), [F(100.0), F(500.0)], 'y');
    let scroll_hits = vec![ScrollHit {
        node_id: id,
        bounds: [F(0.0), F(0.0), F(100.0), F(100.0)],
        clip_rect: no_clip(),
        ancestor_chain: vec![id],
    }];
    let moved = on_wheel([F(500.0), F(500.0)], [F(0.0), F(50.0)], &scroll_hits, &mut t, false);
    assert!(!moved);
}

fn make_y_bar(node_id: NodeId, current_frac: F) -> ScrollbarHit<F> {
    // Track 200 px tall, thumb 50 px → travel 150 px.
    let track = [F(190.0), F(0.0), F(200.0), F(200.0)];
    let thumb_y = current_frac.0 * 150.0;
    let thumb = [F(190.0), F(thumb_y), F(200.0), F(thumb_y + 50.0)];
    ScrollbarHit {
        node_id,
        axis: ScrollAxis::Y,
        track,
        thumb,
        clip_rect: no_clip(),
        max_offset: F(800.0),
        track_travel: F(150.0),
    }
}

#[test]
fn hover_in_track_pops_alpha() {
    let mut t = NodeTree::<F>::new();
    let id = scrollable(&mut t, F(0.0), F(0.0), F(100.0), F(100.0), [F(100.0), F(500.0)], 'y');
    let bars = vec![make_y_bar(id, F(0.0))];
    let changed = update_scrollbar_hover(Some([F(195.0), F(100.0)]), &bars, &mut t);
    assert!(changed);
    let s = t.get(id).unwrap().scroll.unwrap();
    assert_eq!(s.bar_hover, [false, true]);
    assert_eq!(s.bar_alpha, F(1.0));
}

#[test]
fn hover_outside_clears_flag() {
    let mut t = NodeTree::<F>::new();
    let id = scrollable(&mut t, F(0.0), F(0.0), F(100.0), F(100.0), [F(100.0), F(500.0)], 'y');
    // Pre-hover so the change has somewhere to fall from.
    t.set_bar_hover(id, [false, true]);
    let bars = vec![make_y_bar(id, F(0.0))];
    let changed = update_scrollbar_hover(Some([F(10.0), F(10.0)]), &bars, &mut t);
    assert!(changed);
    let s = t.get(id).unwrap().scroll.unwrap();
    assert_eq!(s.bar_hover, [false, false]);
}

#[test]
fn press_on_thumb_starts_drag() {
    let mut t = NodeTree::<F>::new();
    let id = scrollable(&mut t, F(0.0), F(0.0), F(100.0), F(100.0), [F(100.0), F(900.0)], 'y');
    let bars = vec![make_y_bar(id, F(0.0))];
    let outcome = press_scrollbar([F(195.0), F(25.0)], &bars, &mut t);
    match outcome {
        ScrollbarPress::StartDrag {
            node_id,
            axis,
            track_travel,
            max_offset,
            ..
        } => {
            assert_eq!(node_id, id);
            assert_eq!(axis, ScrollAxis::Y);
            assert_eq!(track_travel, F(150.0));
            assert_eq!(max_offset, F(800.0));
        }
        other => panic!("expected StartDrag, got {other:?}"),
    }
    let s = t.get(id).unwrap().scroll.unwrap();
    assert_eq!(s.bar_active, [false, true]);
}

#[test]
fn press_on_track_off_thumb_jumps_target() {
    let mut t = NodeTree::<F>::new();
    let id = scrollable(&mut t, F(0.0), F(0.0), F(100.0), F(100.0), [F(100.0), F(900.0)], 'y');
    let bars = vec![make_y_bar(id, F(0.0))];
    // Click near the bottom of the track — far below the thumb at top.
    let outcome = press_scrollbar([F(195.0), F(195.0)], &bars, &mut t);
    assert!(matches!(outcome, ScrollbarPress::JumpedToPosition));
    let s = t.get(id).unwrap().scroll.unwrap();
    assert!(s.target[1] > F(400.0), "target should jump near bottom: {:?}", s.target);
    assert_eq!(s.current[1], F(0.0), "current shouldn't snap — spring chases");
}

#[test]
fn drag_maps_pointer_delta_to_scroll() {
    let mut t = NodeTree::<F>::new();
    let id = scrollable(&mut t, F(0.0), F(0.0), F(100.0), F(100.0), [F(100.0), F(900.0)], 'y');
    // Drag started at y=25 with scroll_origin=0; track 150 px maps
    // to 800 max_off → moving cursor to y=100 (delta 75) should set
    // current to 75 * (800/150) = 400.
    let moved = drag_to(
        [F(195.0), F(100.0)],
        id,
        ScrollAxis::Y,
        F(25.0),
        F(0.0),
        F(150.0),
        F(800.0),
        &mut t,
    );
    assert!(moved);
    let s = t.get(id).unwrap().scroll.unwrap();
    assert!((s.current[1].0 - 400.0).abs() < 0.01, "current={:?}", s.current);
    assert_eq!(s.target[1], s.current[1], "drag keeps target glued to current");
}

#[test]
fn arrow_down_pushes_target_via_cursor_scroll() {
    let mut t = NodeTree::<F>::new();
    let id = scrollable(&mut t, F(0.0), F(0.0), F(200.0), F(200.0), [F(200.0), F(1000.0)], 'y');
    let scroll_hits = vec![ScrollHit {
        node_id: id,
        bounds: [F(0.0), F(0.0), F(200.0), F(200.0)],
        clip_rect: no_clip(),
        ancestor_chain: vec![id],
    }];
    let moved = on_scroll_key(
        KeyCode::ArrowDown,
        Some([F(100.0), F(100.0)]),
        [F(200.0), F(200.0)],
        F(1.0),
        &scroll_hits,
        &mut t,
    );
    assert!(moved);
    let s = t.get(id).unwrap().scroll.unwrap();
    assert!((s.target[1].0 - 40.0).abs() < 0.01, "expected 40, got {:?}", s.target[1]);
}

#[test]
fn arrow_falls_back_to_first_scrollable_without_cursor() {
    let mut t = NodeTree::<F>::new();
    let id = scrollable(&mut t, F(0.0), F(0.0), F(200.0), F(200.0), [F(200.0), F(1000.0)], 'y');
    let moved = on_scroll_key(
        KeyCode::ArrowDown,
        None,
        [F(200.0), F(200.0)],
        F(1.0),
        &Vec::new(),
        &mut t,
    );
    assert!(moved);
    let s = t.get(id).unwrap().scroll.unwrap();
    assert!(s.target[1] > F(0.0));
}

#[test]
fn page_down_jumps_by_viewport_minus_line() {
    let mut t = NodeTree::<F>::new();
    let id = scrollable(&mut t, F(0.0), F(0.0), F(200.0), F(200.0), [F(200.0), F(5000.0)], 'y');
    let scroll_hits = vec![ScrollHit {
        node_id: id,
        bounds: [F(0.0), F(0.0), F(200.0), F(200.0)],
        clip_rect: no_clip(),
        ancestor_chain: vec![id],
    }];
    on_scroll_key(
        KeyCode::PageDown,
        Some([F(100.0), F(100.0)]),
        [F(200.0), F(200.0)],
        F(1.0),
        &scroll_hits,
        &mut t,
    );
    let s = t.get(id).unwrap().scroll.unwrap();
    assert_eq!(s.target[1], F(200.0 - 40.0));
}

#[test]
fn end_jumps_to_max_offset() {
    let mut t = NodeTree::<F>::new();
    let id = scrollable(&mut t, F(0.0), F(0.0), F(200.0), F(200.0), [F(200.0), F(1500.0)], 'y');
    let scroll_hits = vec![ScrollHit {
        node_id: id,
        bounds: [F(0.0), F(0.0), F(200.0), F(200.0)],
        clip_rect: no_clip(),
        ancestor_chain: vec![id],
    }];
    on_scroll_key(
        KeyCode::End,
        Some([F(100.0), F(100.0)]),
        [F(200.0), F(200.0)],
        F(1.0),
        &scroll_hits,
        &mut t,
    );
    let s = t.get(id).unwrap().scroll.unwrap();
    assert_eq!(s.target[1], F(1300.0)); // 1500 - 200
}

#[test]
fn home_returns_to_zero() {
    let mut t = NodeTree::<F>::new();
    let id = scrollable(&mut t, F(0.0), F(0.0), F(200.0), F(200.0), [F(200.0), F(1500.0)], 'y');
    let _ = t.add_scroll_delta(id, [F(0.0), F(500.0)]);
    let scroll_hits = vec![ScrollHit {
        node_id: id,
        bounds: [F(0.0), F(0.0), F(200.0), F(200.0)],
        clip_rect: no_clip(),
        ancestor_chain: vec![id],
    }];
    on_scroll_key(
        KeyCode::Home,
        Some([F(100.0), F(100.0)]),
        [F(200.0), F(200.0)],
        F(1.0),
        &scroll_hits,
        &mut t,
    );
    let s = t.get(id).unwrap().scroll.unwrap();
    assert_eq!(s.target[1], F(0.0));
}

#[test]
fn unhandled_key_returns_false() {
    let mut t = NodeTree::<F>::new();
    let _id = scrollable(&mut t, F(0.0), F(0.0), F(200.0), F(200.0), [F(200.0), F(1500.0)], 'y');
    let moved = on_scroll_key(
        KeyCode::Other(65),
        None,
        [F(200.0), F(200.0)],
        F(1.0),
        &Vec::new(),
        &mut t,
    );
    assert!(!moved);
}

#[test]
fn end_drag_clears_active_flag() {
    let mut t = NodeTree::<F>::new();
    let id = scrollable(&mut t, F(0.0), F(0.0), F(100.0), F(100.0), [F(100.0), F(900.0)], 'y');
    t.set_bar_active(id, [false, true]);
    end_drag(id, ScrollAxis::Y, &mut t);
    let s = t.get(id).unwrap().scroll.unwrap();
    assert_eq!(s.bar_active, [false, false]);
}

fn flag(s: &Signals<F>, id: SignalId) -> bool {
    matches!(s.get(id), Value::Flag(true))
}

struct Buttons {
    tree: NodeTree<F>,
    signals: Signals<F>,
    hits: Vec<HitEntry<F>>,
    ids: Vec<NodeId>,
    hover: Vec<SignalId>,
    pressed: Vec<SignalId>,
    focused: Vec<SignalId>,
}

/// Two buttons side by side, each ten pixels wide and high.
fn buttons() -> Buttons {
    let mut b = Buttons {
        tree: NodeTree::new(),
        signals: Signals::new(),
        hits: Vec::new(),
        ids: Vec::new(),
        hover: Vec::new(),
        pressed: Vec::new(),
        focused: Vec::new(),
    };
    for i in 0..2 {
        let mut n = Node::rect();
        let h = b.signals.create(Value::Flag(false));
        let p = b.signals.create(Value::Flag(false));
        let f = b.signals.create(Value::Flag(false));
        n.interact.hover = Some(h);
        n.interact.pressed = Some(p);
        n.interact.focused = Some(f);
        let id = b.tree.add_root(n);
        let x = 10.0 * i as f32;
        b.hits.push(HitEntry {
            node_id: id,
            bounds: [F(x), F(0.0), F(x + 10.0), F(10.0)],
            clip_rect: no_clip(),
        });
        b.ids.push(id);
        b.hover.push(h);
        b.pressed.push(p);
        b.focused.push(f);
    }
    b
}

#[test]
fn hover_moves_from_node_to_node() {
    let mut b = buttons();
    let mut input: InputState<F> = InputState::new();
    let c = input.on_cursor_moved(F(5.0), F(5.0), &b.hits, &b.tree, &mut b.signals);
    assert!(c.hovered_changed);
    assert!(flag(&b.signals, b.hover[0]));
    let c = input.on_cursor_moved(F(15.0), F(5.0), &b.hits, &b.tree, &mut b.signals);
    assert!(c.any());
    assert!(!flag(&b.signals, b.hover[0]));
    assert!(flag(&b.signals, b.hover[1]));
    let c = input.on_cursor_moved(F(16.0), F(5.0), &b.hits, &b.tree, &mut b.signals);
    assert!(!c.any());
    let c = input.on_cursor_left(&b.hits, &b.tree, &mut b.signals);
    assert!(c.hovered_changed);
    assert!(!flag(&b.signals, b.hover[1]));
}

#[test]
fn a_press_is_captured_until_the_release() {
    let mut b = buttons();
    let mut input: InputState<F> = InputState::new();
    input.on_cursor_moved(F(5.0), F(5.0), &b.hits, &b.tree, &mut b.signals);
    let c = input.on_left_pressed(&b.hits, &b.tree, &mut b.signals);
    assert!(c.pressed_changed && c.focused_changed);
    assert_eq!(input.captured, Some(b.ids[0]));
    assert!(flag(&b.signals, b.pressed[0]));
    assert!(flag(&b.signals, b.focused[0]));
    // Off the node it no longer looks pressed, but hover stays with it.
    input.on_cursor_moved(F(15.0), F(5.0), &b.hits, &b.tree, &mut b.signals);
    assert_eq!(input.hovered, Some(b.ids[0]));
    assert!(!flag(&b.signals, b.pressed[0]));
    input.on_left_released(&b.hits, &b.tree, &mut b.signals);
    assert_eq!(input.captured, None);
    assert_eq!(input.hovered, Some(b.ids[1]));
    assert!(flag(&b.signals, b.hover[1]));
}

#[test]
fn the_topmost_entry_is_hit() {
    let mut b = buttons();
    let over = b.tree.add_root(Node::rect());
    b.hits.insert(
        0,
        HitEntry {
            node_id: over,
            bounds: [F(0.0), F(0.0), F(20.0), F(10.0)],
            clip_rect: [F(0.0), F(0.0), F(4.0), F(10.0)],
        },
    );
    assert_eq!(InputState::hit_test(&b.hits, F(2.0), F(5.0)), Some(over));
    // Clipped away there.
    assert_eq!(InputState::hit_test(&b.hits, F(6.0), F(5.0)), Some(b.ids[0]));
    assert_eq!(InputState::hit_test(&b.hits, F(50.0), F(5.0)), None);
}

#[test]
fn held_arrows_scroll_by_their_speed() {
    let mut t = NodeTree::<F>::new();
    let id = scrollable(&mut t, F(0.0), F(0.0), F(100.0), F(100.0), [F(100.0), F(5000.0)], 'y');
    let mut held = HeldKeys::none();
    assert!(held.is_empty());
    held.set(KeyCode::ArrowDown, true);
    let moved = pump_held_scroll(held, None, &Vec::new(), &mut t, F(1.0), F(0.5));
    assert!(moved);
    assert_eq!(t.get(id).unwrap().scroll.unwrap().target[1], F(300.0));
    held.set(KeyCode::ArrowDown, false);
    assert!(!pump_held_scroll(held, None, &Vec::new(), &mut t, F(1.0), F(0.5)));
}

fn hit(id: NodeId) -> Vec<ScrollHit<F>> {
    vec![ScrollHit {
        node_id: id,
        bounds: [F(0.0), F(0.0), F(200.0), F(200.0)],
        clip_rect: no_clip(),
        ancestor_chain: vec![id],
    }]
}

fn jump(code: KeyCode, id: NodeId, t: &mut NodeTree<F>) -> bool {
    on_scroll_key(code, Some([F(100.0), F(100.0)]), [F(200.0), F(200.0)], F(1.0), &hit(id), t)
}

#[test]
fn jumps_to_where_the_content_is_move_nothing() {
    let mut t = NodeTree::<F>::new();
    let id = scrollable(&mut t, F(0.0), F(0.0), F(200.0), F(200.0), [F(200.0), F(1500.0)], 'y');
    assert!(!jump(KeyCode::Home, id, &mut t));
    assert!(jump(KeyCode::End, id, &mut t));
    assert!(!jump(KeyCode::End, id, &mut t));
    assert!(jump(KeyCode::Home, id, &mut t));
    assert_eq!(t.get(id).unwrap().scroll.unwrap().target[1], F(0.0));
}

fn stepped(step: f32) -> (NodeTree<F>, NodeId) {
    let mut t = NodeTree::<F>::new();
    let mut n = Node::rect();
    n.layout.overflow_y = Overflow::Scroll;
    n.scroll = Some(ScrollState {
        current: [F(0.0); 2],
        target: [F(0.0); 2],
        overscroll: false,
        snap_step: F(step),
        scale: F(1.0),
        bar_active: [false; 2],
        bar_hover: [false; 2],
        bar_alpha: F(0.0),
    });
    n.rect = [F(0.0), F(0.0), F(100.0), F(100.0)];
    n.content_size = [F(100.0), F(450.0)];
    let id = t.add_root(n);
    (t, id)
}

fn target(t: &NodeTree<F>, id: NodeId) -> f32 {
    t.get(id).unwrap().scroll.unwrap().target[1].0
}

#[test]
fn a_drag_ends_on_a_multiple_of_the_step() {
    let (mut t, id) = stepped(40.0);
    for (at, rest) in [(0.0, 0.0), (59.0, 40.0), (61.0, 80.0), (349.0, 350.0), (345.0, 350.0)] {
        t.set_scroll_immediate(id, ScrollAxis::Y, F(at));
        end_drag(id, ScrollAxis::Y, &mut t);
        assert_eq!(target(&t, id), rest, "let go at {at}");
        assert_eq!(t.get(id).unwrap().scroll.unwrap().current[1], F(at), "content glides there");
    }
    t.set_scroll_immediate(id, ScrollAxis::Y, F(330.0));
    end_drag(id, ScrollAxis::Y, &mut t);
    assert_eq!(target(&t, id), 320.0);
    // The step is in logical pixels.
    let (mut t, id) = stepped(40.0);
    let mut n = t.get(id).unwrap().scroll.unwrap();
    n.scale = F(2.0);
    t.set_scroll(id, Some(n));
    t.set_scroll_immediate(id, ScrollAxis::Y, F(61.0));
    end_drag(id, ScrollAxis::Y, &mut t);
    assert_eq!(target(&t, id), 80.0);
    t.set_scroll_target(id, [F(0.0), F(39.0)]);
    assert_eq!(target(&t, id), 0.0);
    let (mut t, id) = stepped(0.0);
    t.set_scroll_immediate(id, ScrollAxis::Y, F(59.0));
    end_drag(id, ScrollAxis::Y, &mut t);
    assert_eq!(target(&t, id), 59.0);
}

#[test]
fn held_arrows_pass_over_the_steps() {
    let (mut t, id) = stepped(40.0);
    let mut held = HeldKeys::none();
    held.set(KeyCode::ArrowDown, true);
    assert!(pump_held_scroll(held, None, &Vec::new(), &mut t, F(1.0), F(0.015625)));
    assert_eq!(target(&t, id), 9.375);
    // A wheel goes to a step.
    assert!(on_wheel([F(50.0), F(50.0)], [F(0.0), F(70.0)], &hit(id), &mut t, false));
    assert_eq!(target(&t, id), 80.0);
    assert_eq!(t.add_scroll_delta_continuous(id, [F(0.0), F(3.0)])[1], F(3.0));
    assert_eq!(target(&t, id), 83.0);
    // The end is reached though it is no multiple.
    assert!(jump(KeyCode::End, id, &mut t));
    assert_eq!(target(&t, id), 350.0);
}
