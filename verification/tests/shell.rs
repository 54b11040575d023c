use frostify_gfx::app::caret::{apply_edit, caret_index_at_x, move_caret, CaretBlink};
use frostify_gfx::app::flush::{begin_flush, finish_layout};
use frostify_gfx::app::hover::{
    arm_hover_recheck, hint_text, hover_recheck_due, hud_due, step_hint, Hint, HINT_DWELL,
    HOVER_RECHECK,
};
use frostify_gfx::app::keys::{route_key, Key, KeyAction, KeyPress, Modifiers, NamedKey};
use frostify_gfx::app::layers::{
    collect_layer_binds, expand_events, layer_draws, pump_layer_offset_binds,
    pump_layer_opacity_binds, spans_to_instance_ranges, take_flush, FlatEvent,
};
use frostify_gfx::app::overlay::{build_hint, build_hud};
use frostify_gfx::app::shell::{PressOutcome, Shell, WheelOutcome};
use frostify_gfx::app::turn::{
    capture_due, hold_span, react_to, scroll_span, turn_step, Deadlines, Happened, TurnAt,
    TurnEvent, TurnStep, Wakes,
};
use frostify_gfx::app::window::{
    edge_at, logical_size, on_resized, refresh_cursor, scale_changed, wheel_amounts, AppConfig,
    Edge, WheelDelta,
};
use frostify_gfx::automation::{automation_tick, AutomationState, Inject, Script, ScriptTick, Step};
use frostify_gfx::editor::{EditOp, EditorState};
use frostify_gfx::gpu::image_atlas::ImageAtlas;
use frostify_gfx::gpu::instance::{no_clip, ShapeInstance, SHAPE_KIND_GLASS};
use frostify_gfx::input::{InputState, KeyCode};
use frostify_gfx::layer::{Damage, LayerTree};
use frostify_gfx::layout::{compute_layout, Len, Measurer, NullMeasurer, Overflow};
use frostify_gfx::node::{
    dirty, CursorShape, ExternalSpan, HitEntry, LayerSpan, Node, NodeId, NodeTree, ScrollHit,
    ScrollState, ScrollbarHit, WindowAction,
};
use frostify_gfx::num::Num;
use frostify_gfx::signal::{SignalId, Signals, Value};

/// Numbers as the shell uses them.
#[derive(Clone, Copy, Debug, PartialEq, PartialOrd)]
struct F(f32);

impl Num for F {
    fn of_ratio(num: i32, den: i32) -> F {
        F(num as f32 / den as f32)
    }
    fn of_u64(n: u64) -> F {
        F(n as f32)
    }
    fn of_nanos(ns: u64) -> F {
        F(std::time::Duration::from_nanos(ns).as_secs_f32())
    }
    fn lowest_value() -> F {
        F(f32::NEG_INFINITY)
    }
    fn greatest_value() -> F {
        F(f32::MAX)
    }
    fn far_value() -> F {
        F(1.0e30)
    }
    fn plus(self, other: F) -> F {
        F(self.0 + other.0)
    }
    fn minus(self, other: F) -> F {
        F(self.0 - other.0)
    }
    fn times(self, other: F) -> F {
        F(self.0 * other.0)
    }
    fn over(self, other: F) -> F {
        F(self.0 / other.0)
    }
    fn negated(self) -> F {
        F(-self.0)
    }
    fn abs(self) -> F {
        F(self.0.abs())
    }
    fn max(self, other: F) -> F {
        F(self.0.max(other.0))
    }
    fn min(self, other: F) -> F {
        F(self.0.min(other.0))
    }
    fn floor(self) -> F {
        F(self.0.floor())
    }
    fn ceil(self) -> F {
        F(self.0.ceil())
    }
    fn round(self) -> F {
        F(self.0.round())
    }
    fn to_u32(self) -> u32 {
        self.0 as u32
    }
    fn lt(self, other: F) -> bool {
        self.0 < other.0
    }
    fn le(self, other: F) -> bool {
        self.0 <= other.0
    }
    fn eq(self, other: F) -> bool {
        self.0 == other.0
    }
}

const MS: u64 = 1_000_000;

fn sized(w: f32, h: f32) -> Node<F> {
    let mut n = Node::rect();
    n.layout.width = Len::Px(F(w));
    n.layout.height = Len::Px(F(h));
    n
}

fn at_rest() -> ScrollState<F> {
    ScrollState {
        current: [F(0.0); 2],
        target: [F(0.0); 2],
        overscroll: false,
        snap_step: F(0.0),
        scale: F(1.0),
        bar_active: [false; 2],
        bar_hover: [false; 2],
        bar_alpha: F(0.0),
    }
}

fn entry(id: NodeId, x: f32, y: f32, w: f32, h: f32) -> HitEntry<F> {
    HitEntry { node_id: id, bounds: [F(x), F(y), F(x + w), F(y + h)], clip_rect: no_clip() }
}

fn lit(signals: &Signals<F>, cell: SignalId) -> bool {
    matches!(signals.get(cell), Value::Flag(true))
}

/// A shell with one button of 40 by 40 pixels, and its hover cell.
fn button() -> (Shell<F>, NodeId, SignalId) {
    let mut s = Shell::new(F(1.0));
    let hover = s.signals.create(Value::Flag(false));
    let mut n = sized(40.0, 40.0);
    n.handlers.click = true;
    n.interact.hover = Some(hover);
    let id = s.tree.add_root(n);
    s.hits = vec![entry(id, 0.0, 0.0, 40.0, 40.0)];
    (s, id, hover)
}

#[test]
fn a_press_and_its_end_on_a_node_click_it() {
    let (mut s, id, hover) = button();
    let out = s.on_cursor_moved(F(10.0), F(10.0), None, 0);
    assert!(out.react);
    assert_eq!(out.shape, Some(CursorShape::Pointer));
    assert!(lit(&s.signals, hover));
    assert!(matches!(
        s.on_left_pressed(None),
        PressOutcome::Pressed { drag: None, outside: false, field: None, .. }
    ));
    assert_eq!(s.input.captured, Some(id));
    assert_eq!(s.on_left_released().click, Some(id));
    assert_eq!(s.input.captured, None);
}

#[test]
fn a_press_dragged_off_its_node_clicks_nothing() {
    let (mut s, _id, _) = button();
    s.on_cursor_moved(F(10.0), F(10.0), None, 0);
    s.on_left_pressed(None);
    s.on_cursor_moved(F(80.0), F(80.0), None, 0);
    assert_eq!(s.on_left_released().click, None);
}

#[test]
fn the_right_button_clicks_on_its_own() {
    let (mut s, id, _) = button();
    assert_eq!(s.on_right_released(), None);
    s.on_cursor_moved(F(10.0), F(10.0), None, 0);
    s.on_right_pressed();
    assert_eq!(s.input.captured, None);
    assert_eq!(s.on_right_released(), Some(id));
    assert_eq!(s.on_right_released(), None);
    s.on_right_pressed();
    s.on_cursor_moved(F(80.0), F(10.0), None, 0);
    assert_eq!(s.on_right_released(), None);
}

#[test]
fn edges_and_window_controls_take_presses_first() {
    let mut s = Shell::new(F(1.0));
    let mut n = sized(40.0, 40.0);
    n.window_action = Some(WindowAction::Close);
    let id = s.tree.add_root(n);
    s.hits = vec![entry(id, 0.0, 0.0, 40.0, 40.0)];
    s.on_cursor_moved(F(10.0), F(10.0), None, 0);
    assert!(matches!(
        s.on_left_pressed(Some(Edge::North)),
        PressOutcome::Resize(Edge::North)
    ));
    assert!(matches!(s.on_left_pressed(None), PressOutcome::Window(WindowAction::Close)));
}

fn scroller(s: &mut Shell<F>) -> NodeId {
    let mut n = Node::rect();
    n.layout.overflow_y = Overflow::Scroll;
    n.scroll = Some(at_rest());
    n.rect = [F(0.0), F(0.0), F(100.0), F(100.0)];
    n.content_size = [F(100.0), F(1000.0)];
    let id = s.tree.add_root(n);
    s.scroll_hits = vec![ScrollHit {
        node_id: id,
        bounds: [F(0.0), F(0.0), F(100.0), F(100.0)],
        clip_rect: no_clip(),
        ancestor_chain: vec![id],
    }];
    s.scroll_bars = vec![ScrollbarHit {
        node_id: id,
        axis: frostify_gfx::node::ScrollAxis::Y,
        track: [F(90.0), F(0.0), F(100.0), F(100.0)],
        thumb: [F(90.0), F(0.0), F(100.0), F(10.0)],
        track_travel: F(90.0),
        max_offset: F(900.0),
        clip_rect: no_clip(),
    }];
    id
}

#[test]
fn the_wheel_scrolls_what_is_under_the_pointer() {
    let mut s = Shell::new(F(1.0));
    let id = scroller(&mut s);
    assert!(matches!(
        s.on_mouse_wheel(WheelDelta::Lines([F(0.0), F(-1.0)]), 0),
        WheelOutcome::Ignored
    ));
    s.on_cursor_moved(F(50.0), F(50.0), None, 0);
    s.tree.take_dirty();
    assert!(matches!(
        s.on_mouse_wheel(WheelDelta::Lines([F(0.0), F(-1.0)]), 0),
        WheelOutcome::Scrolled(true)
    ));
    assert_eq!(s.tree.get(id).unwrap().scroll.unwrap().target, [F(0.0), F(50.0)]);
    assert_eq!(s.tree.take_dirty(), dirty::SCROLL);
    // A node that handles the wheel itself goes first.
    let mut n = sized(100.0, 100.0);
    n.handlers.wheel = true;
    let over = s.tree.add_root(n);
    s.hits = vec![entry(over, 0.0, 0.0, 100.0, 100.0)];
    match s.on_mouse_wheel(WheelDelta::Pixels([F(0.0), F(100.0)]), 7) {
        WheelOutcome::Handler(c) => {
            assert_eq!((c.node, c.now), (over, 7));
            assert_eq!(c.delta, [F(0.0), F(2.0)]);
            assert_eq!(c.rect, [F(0.0), F(0.0), F(100.0), F(100.0)]);
        }
        other => panic!("{:?}", other),
    }
}

#[test]
fn a_scrollbar_is_dragged_and_let_go() {
    let mut s = Shell::new(F(1.0));
    let id = scroller(&mut s);
    s.on_cursor_moved(F(95.0), F(5.0), None, 0);
    assert_eq!(s.tree.get(id).unwrap().scroll.unwrap().bar_hover, [false, true]);
    assert!(matches!(s.on_left_pressed(None), PressOutcome::Scrollbar));
    // The place is kept, and followed once a frame.
    s.on_cursor_moved(F(95.0), F(14.0), None, 0);
    assert_eq!(s.tree.get(id).unwrap().scroll.unwrap().current[1], F(0.0));
    let (told, moved) = s.follow_drag();
    assert!(told.is_none() && moved);
    assert_eq!(s.tree.get(id).unwrap().scroll.unwrap().current[1], F(90.0));
    assert!(!s.follow_drag().1);
    s.on_cursor_moved(F(95.0), F(23.0), None, 0);
    s.on_left_released();
    let sc = s.tree.get(id).unwrap().scroll.unwrap();
    assert_eq!(sc.current[1], F(180.0));
    assert_eq!(sc.bar_active, [false, false]);
    assert!(!s.let_go_of_bar());
}

#[test]
fn leaving_the_window_puts_everything_to_rest() {
    let (mut s, id, hover) = button();
    s.on_cursor_moved(F(10.0), F(10.0), None, 0);
    s.on_left_pressed(None);
    s.show_hint(id, 0);
    let (redraw, hint, shape) = s.cancel_pointer();
    assert!(redraw && hint && shape);
    assert!(!lit(&s.signals, hover));
    assert_eq!((s.input.cursor, s.input.hovered, s.input.captured), (None, None, None));
    assert!(s.timeline.is_empty());
    assert_eq!(s.cancel_pointer(), (false, false, false));
}

#[test]
fn hover_is_found_anew_when_the_scene_moves() {
    let (mut s, id, hover) = button();
    s.on_cursor_moved(F(60.0), F(10.0), None, 0);
    assert_eq!(s.input.hovered, None);
    s.hits = vec![entry(id, 50.0, 0.0, 40.0, 40.0)];
    s.next_recheck = arm_hover_recheck(s.next_recheck, true, 0);
    assert_eq!(s.next_recheck, Some(HOVER_RECHECK));
    assert!(!s.tick_hover_recheck(HOVER_RECHECK - 1));
    assert!(s.tick_hover_recheck(HOVER_RECHECK));
    assert_eq!(s.input.hovered, Some(id));
    assert!(lit(&s.signals, hover));
    // While something holds the pointer it is put off.
    assert_eq!(hover_recheck_due(Some(5), true, 9), (Some(9 + HOVER_RECHECK), false));
    assert_eq!(hover_recheck_due(Some(5), false, 9), (None, true));
    assert_eq!(arm_hover_recheck(None, false, 0), None);
}

#[test]
fn hints_come_and_go_with_the_pointer() {
    let mut s = Shell::new(F(1.0));
    let mut n = sized(40.0, 40.0);
    n.interact.hover = Some(s.signals.create(Value::Flag(false)));
    n.hover_hint = Some("fixed".to_string());
    n.hover_hint_text = Some("live".to_string());
    assert_eq!(hint_text(&n), Some("live".to_string()));
    let id = s.tree.add_root(n);
    s.hits = vec![entry(id, 0.0, 0.0, 40.0, 40.0)];
    s.on_cursor_moved(F(10.0), F(10.0), None, 0);
    assert_eq!(s.dwell.unwrap().deadline, HINT_DWELL);
    s.show_hint(id, HINT_DWELL);
    assert_eq!(s.hint.painted(&s.tree), Some("live".to_string()));
    assert_eq!(s.timeline.len(), 1);
    s.on_cursor_moved(F(80.0), F(10.0), None, HINT_DWELL);
    assert!(!s.hint.visible);
    let step = step_hint(s.hint, F(0.5), false);
    assert!(step.repaint && !step.clear);
    assert!(step_hint(s.hint, F(0.01), false).clear);
    assert!(s.clear_hint());
    assert_eq!(step_hint(s.hint, F(0.5), true).repaint, false);
    assert!(!s.clear_hint());
    let mut h = Hint::none();
    assert!(!h.fade_out());
    h.show(id);
    assert!(!hud_due(h, None, 0));
    assert!(h.fade_out() && !h.fade_out());
    assert!(h.clear());
    assert!(hud_due(h, None, 0));
    assert!(!hud_due(h, Some(0), 99 * MS));
    assert!(hud_due(h, Some(0), 100 * MS));
}

// --- text fields ---

struct Mono;

impl Measurer<F> for Mono {
    fn measure_text(&self, content: &str, font_size: F, line_height: F) -> [F; 2] {
        [F(content.chars().count() as f32 * font_size.0), line_height]
    }
    fn measure_text_constrained(&self, content: &str, font_size: F, line_height: F, _max: F) -> [F; 2] {
        self.measure_text(content, font_size, line_height)
    }
}

fn field() -> (NodeTree<F>, Signals<F>, NodeId) {
    let mut tree = NodeTree::<F>::new();
    let mut signals = Signals::new();
    let mut n = sized(200.0, 20.0);
    n.interact.focused = Some(signals.create(Value::Flag(false)));
    let id = tree.add_root(n);
    let selection_node = tree.add_child(id, sized(0.0, 0.0));
    let text_node = tree.add_child(id, Node::text("".to_string(), F(10.0)));
    let caret_node = tree.add_child(id, sized(2.0, 10.0));
    tree.set_editor(
        id,
        EditorState {
            value: "".to_string(),
            cursor: 0,
            selection_anchor: None,
            placeholder: "name".to_string(),
            font_size: F(10.0),
            text_color: [F(1.0); 4],
            placeholder_color: [F(0.5); 4],
            text_node,
            caret_node,
            selection_node,
        },
    );
    (tree, signals, id)
}

#[test]
fn an_empty_field_shows_its_placeholder() {
    let (mut tree, mut signals, id) = field();
    let ed = tree.get(id).unwrap().editor.clone().unwrap();
    let vp = [F(300.0), F(300.0)];
    begin_flush(&mut tree, &signals, &Mono, vp, F(1.0)).unwrap();
    let t = tree.get(ed.text_node).unwrap();
    assert_eq!(t.text.as_ref().unwrap().content, "name");
    assert_eq!(t.color, [F(0.5); 4]);
    // With the focus it is empty.
    let cell = tree.get(id).unwrap().interact.focused.unwrap();
    signals.set(cell, Value::Flag(true));
    let plan = begin_flush(&mut tree, &signals, &Mono, vp, F(1.0)).unwrap();
    assert_eq!(tree.get(ed.text_node).unwrap().text.as_ref().unwrap().content, "");
    finish_layout(&mut tree, &signals, &Mono, F(1.0), plan);
    assert!(tree.get(ed.caret_node).unwrap().visible);
    let out = apply_edit(&mut tree, id, EditOp::Insert("héllo".to_string())).unwrap();
    assert!(out.value_changed);
    assert_eq!(tree.get(ed.text_node).unwrap().text.as_ref().unwrap().content, "héllo");
    let plan = begin_flush(&mut tree, &signals, &Mono, vp, F(1.0)).unwrap();
    finish_layout(&mut tree, &signals, &Mono, F(1.0), plan);
    let text = tree.get(ed.text_node).unwrap().rect;
    let caret = tree.get(ed.caret_node).unwrap().rect;
    assert_eq!(caret[0].0, text[0].0 + 50.0);
    assert_eq!(caret[2], F(2.0));
    assert!(apply_edit(&mut tree, ed.text_node, EditOp::Submit).is_none());
}

/// A shell with one text field that holds `abc`.
fn field_shell() -> (Shell<F>, NodeId) {
    let mut s = Shell::new(F(1.0));
    let (tree, _, id) = field();
    s.tree = tree;
    // The focus cell of the field is the first of the store.
    assert_eq!(s.tree.get(id).unwrap().interact.focused.unwrap().index, 0);
    s.edit(id, EditOp::Insert("abc".to_string()), 0).unwrap();
    (s, id)
}

#[test]
fn the_focus_shows_the_caret_afresh() {
    let (mut s, id) = field_shell();
    let caret = s.tree.get(id).unwrap().editor.as_ref().unwrap().caret_node;
    s.tree.set_opacity(caret, F(0.0));
    s.tree.take_dirty();
    assert!(s.focus(Some(id), 7));
    assert_eq!(s.input.focused, Some(id));
    assert_eq!((s.blink.anchor, s.blink.on), (7, true));
    assert_eq!(s.tree.get(caret).unwrap().opacity, F(1.0));
    assert_ne!(s.tree.take_dirty() & dirty::TRANSFORM, 0);
    assert!(!s.focus(Some(id), 9));
    assert_eq!(s.blink.anchor, 7);
    s.blur_field(id);
    assert_eq!(s.input.focused, None);
    assert_eq!(s.tree.take_dirty(), dirty::TRANSFORM);
}

#[test]
fn copying_does_not_disturb_the_caret() {
    let (mut s, id) = field_shell();
    s.edit(id, EditOp::SelectAll, 5).unwrap();
    assert_eq!(s.blink.anchor, 5);
    let out = s.edit(id, EditOp::Copy, 9).unwrap();
    assert_eq!(out.clipboard_write.as_deref(), Some("abc"));
    assert_eq!(s.blink.anchor, 5);
    assert!(s.edit(NodeId { index: 99 }, EditOp::Copy, 9).is_none());
}

#[test]
fn a_press_and_a_drag_select_text() {
    let (mut s, id) = field_shell();
    let cursor = |s: &Shell<F>| {
        let ed = s.tree.get(id).unwrap().editor.as_ref().unwrap();
        (ed.cursor, ed.selection_anchor)
    };
    assert!(s.place_caret(&Mono, id, F(11.0), true, 3));
    assert_eq!(cursor(&s), (1, Some(1)));
    assert!(s.place_caret(&Mono, id, F(29.0), false, 4));
    assert_eq!(cursor(&s), (3, Some(1)));
    assert!(!s.place_caret(&Mono, id, F(31.0), false, 5));
    assert_eq!(s.blink.anchor, 4);
    // Back to where it began: nothing is selected.
    assert!(s.place_caret(&Mono, id, F(11.0), false, 6));
    assert_eq!(cursor(&s), (1, Some(1)));
    assert!(!s.place_caret(&Mono, NodeId { index: 99 }, F(0.0), true, 6));
}

#[test]
fn tab_moves_the_focus_of_the_shell() {
    let mut s = Shell::new(F(1.0));
    for order in [2, 1] {
        let mut n = sized(10.0, 10.0);
        n.layout.focus_order = order;
        s.tree.add_root(n);
    }
    compute_layout(&mut s.tree, [F(50.0), F(50.0)], &NullMeasurer, F(1.0));
    let ids: Vec<NodeId> = s.tree.roots().clone();
    assert!(s.tab([F(50.0), F(50.0)], true, 0));
    assert_eq!(s.input.focused, Some(ids[1]));
    assert!(s.tab([F(50.0), F(50.0)], true, 0));
    assert!(s.tab([F(50.0), F(50.0)], false, 0));
    assert_eq!(s.input.focused, Some(ids[1]));
    let mut empty: Shell<F> = Shell::new(F(1.0));
    assert!(!empty.tab([F(50.0), F(50.0)], true, 0));
}

// --- time ---

#[test]
fn a_rested_pointer_shows_a_hint() {
    let mut s = Shell::new(F(1.0));
    let mut n = sized(40.0, 40.0);
    n.interact.hover = Some(s.signals.create(Value::Flag(false)));
    n.hover_hint = Some("hint".to_string());
    let id = s.tree.add_root(n);
    s.hits = vec![entry(id, 0.0, 0.0, 40.0, 40.0)];
    s.on_cursor_moved(F(5.0), F(5.0), None, 0);
    assert!(s.tick_dwell(HINT_DWELL - 1).is_none());
    let fire = s.tick_dwell(HINT_DWELL).unwrap();
    assert!(fire.hint && !fire.handler);
    assert_eq!(s.hint.node, Some(id));
    // Painted while it fades in.
    assert!(s.tick_hint().repaint);
    // The pointer leaves, and the hint goes once it has faded out.
    s.on_cursor_moved(F(90.0), F(5.0), None, HINT_DWELL);
    assert!(!s.hint.visible);
    let step = s.tick_hint();
    assert!(step.clear);
    assert_eq!(s.hint.node, None);
}

#[test]
fn a_dropped_node_glides_home() {
    let mut s = Shell::new(F(1.0));
    let mut n = sized(40.0, 40.0);
    n.drag_follow = true;
    let id = s.tree.add_root(n);
    s.hits = vec![entry(id, 0.0, 0.0, 40.0, 40.0)];
    s.on_cursor_moved(F(5.0), F(5.0), None, 0);
    s.on_left_pressed(None);
    s.on_cursor_moved(F(25.0), F(35.0), None, 0);
    s.tree.take_dirty();
    s.follow_drag();
    assert!(s.tree.take_dirty() & dirty::VISUAL != 0, "drawn anew where it is");
    assert_eq!(s.drag.follow.unwrap().offset, [F(20.0), F(30.0)]);
    s.on_left_released();
    s.release_drag(0);
    assert_eq!(s.timeline.len(), 1);
    s.tick_drag_return();
    assert_eq!(s.drag.follow.unwrap().offset, [F(20.0), F(30.0)]);
    let cell = s.drag_offset;
    s.signals.set(cell, Value::Pair([F(0.0), F(0.0)]));
    s.tick_drag_return();
    assert!(s.drag.follow.is_none() && s.drag.returning.is_none());
}

#[test]
fn keys_scroll_the_container_under_the_pointer() {
    let mut s = Shell::new(F(1.0));
    let id = scroller(&mut s);
    let target = |s: &Shell<F>| s.tree.get(id).unwrap().scroll.unwrap().target[1];
    assert!(s.scroll_by_key(KeyCode::End, [F(100.0), F(100.0)]));
    assert_eq!(target(&s), F(900.0));
    assert!(s.scroll_by_key(KeyCode::Home, [F(100.0), F(100.0)]));
    assert_eq!(target(&s), F(0.0));
    assert!(!s.scroll_by_key(KeyCode::F1, [F(100.0), F(100.0)]));
    assert!(!s.pump_held(None, 0));
    s.held.set(KeyCode::ArrowDown, true);
    assert!(s.pump_held(None, 0));
    assert!((target(&s).0 - 10.0).abs() < 1.0e-3);
}

#[test]
fn a_moving_pointer_is_told_once_a_frame() {
    let mut s = Shell::new(F(2.0));
    let mut n = sized(40.0, 40.0);
    n.handlers.hover_move = true;
    let id = s.tree.add_root(n);
    s.hits = vec![entry(id, 0.0, 0.0, 40.0, 40.0)];
    s.on_cursor_moved(F(5.0), F(6.0), None, 0);
    s.on_cursor_moved(F(7.0), F(8.0), None, 0);
    let told = s.follow_hover_move().unwrap();
    assert_eq!((told.node, told.pos, told.scale), (id, [F(7.0), F(8.0)], F(2.0)));
    assert!(s.follow_hover_move().is_none());
}

#[test]
fn the_caret_goes_to_the_nearest_boundary() {
    let at = |x: f32| caret_index_at_x(&Mono, "héllo", F(10.0), F(1.0), F(100.0), F(x));
    assert_eq!(at(0.0), 0);
    assert_eq!(at(104.0), 0);
    assert_eq!(at(106.0), 1);
    // The accented letter takes two bytes.
    assert_eq!(at(118.0), 3);
    assert_eq!(at(900.0), 6);
}

#[test]
fn a_dragged_caret_selects() {
    let (mut tree, _signals, id) = field();
    apply_edit(&mut tree, id, EditOp::Insert("abcdef".to_string())).unwrap();
    assert!(move_caret(&mut tree, id, 2, true));
    let ed = tree.get(id).unwrap().editor.clone().unwrap();
    assert_eq!((ed.cursor, ed.selection_anchor), (2, Some(2)));
    assert!(move_caret(&mut tree, id, 4, false));
    assert!(!move_caret(&mut tree, id, 4, false));
    let ed = tree.get(id).unwrap().editor.clone().unwrap();
    assert_eq!((ed.cursor, ed.selection_anchor), (4, Some(2)));
}

#[test]
fn the_caret_blinks_while_its_field_has_the_focus() {
    let (mut tree, _signals, id) = field();
    let caret = tree.get(id).unwrap().editor.as_ref().unwrap().caret_node;
    let mut b = CaretBlink { anchor: 0, on: true };
    b.reset(id, &mut tree, 1_000 * MS);
    assert_eq!(b.tick(Some(id), &mut tree, 1_100 * MS), (false, Some(1_530 * MS)));
    assert_eq!(b.tick(Some(id), &mut tree, 1_530 * MS), (true, Some(2_060 * MS)));
    assert_eq!(tree.get(caret).unwrap().opacity, F(0.0));
    assert_eq!(b.tick(None, &mut tree, 1_600 * MS), (false, None));
    assert!(b.on);
    b.reset(id, &mut tree, 2_000 * MS);
    assert_eq!(tree.get(caret).unwrap().opacity, F(1.0));
}

// --- keys ---

fn press(code: KeyCode, key: Key) -> KeyPress {
    KeyPress { code, key, text: None, pressed: true, repeat: false }
}

#[test]
fn keys_go_to_the_field_then_to_the_shell() {
    let none = Modifiers { shift: false, control: false, command: false };
    let shift = Modifiers { shift: true, ..none };
    let command = Modifiers { command: true, ..none };
    let f = NodeId { index: 4 };
    let esc = press(KeyCode::Escape, Key::Named(NamedKey::Escape));
    assert!(matches!(route_key(Some(f), &esc, none), KeyAction::Blur(n) if n == f));
    assert!(matches!(route_key(None, &esc, none), KeyAction::Exit));
    let v = press(KeyCode::Other(0), Key::Character("V".to_string()));
    assert!(matches!(route_key(Some(f), &v, command), KeyAction::Paste(n) if n == f));
    let tab = press(KeyCode::Tab, Key::Named(NamedKey::Other));
    assert!(matches!(route_key(None, &tab, shift), KeyAction::Tab { forward: false }));
    let mut down = press(KeyCode::ArrowDown, Key::Unidentified);
    assert!(matches!(route_key(None, &down, none), KeyAction::ScrollHeld));
    down.repeat = true;
    assert!(matches!(route_key(None, &down, none), KeyAction::Ignore));
    down.pressed = false;
    assert!(matches!(route_key(None, &down, none), KeyAction::Release { hook: false }));
    down.repeat = false;
    assert!(matches!(route_key(None, &down, none), KeyAction::Release { hook: false }));
    assert!(matches!(route_key(Some(f), &down, none), KeyAction::Release { hook: false }));
    let end = press(KeyCode::End, Key::Unidentified);
    assert!(matches!(route_key(None, &end, none), KeyAction::ScrollJump { hold: true }));
    for (code, want) in [
        (KeyCode::F1, "ToggleStats"),
        (KeyCode::F2, "Screenshot"),
        (KeyCode::F4, "ToggleOverdraw"),
        (KeyCode::F5, "Refresh"),
    ] {
        assert_eq!(format!("{:?}", route_key(None, &press(code, Key::Unidentified), none)), want);
    }
    let other = press(KeyCode::Other(9), Key::Unidentified);
    assert!(matches!(route_key(None, &other, none), KeyAction::Hook { hook: true }));
    let enter = press(KeyCode::Other(9), Key::Named(NamedKey::Enter));
    assert!(matches!(
        route_key(Some(f), &enter, none),
        KeyAction::Edit(n, EditOp::Submit) if n == f
    ));
}

// --- the window ---

#[test]
fn corners_come_before_edges() {
    let at = |x: f32, y: f32| edge_at(F(x), F(y), [200, 100], false);
    assert_eq!(at(2.0, 2.0), Some(Edge::NorthWest));
    assert_eq!(at(198.0, 2.0), Some(Edge::NorthEast));
    assert_eq!(at(2.0, 98.0), Some(Edge::SouthWest));
    assert_eq!(at(198.0, 98.0), Some(Edge::SouthEast));
    assert_eq!(at(100.0, 1.0), Some(Edge::North));
    assert_eq!(at(100.0, 99.0), Some(Edge::South));
    assert_eq!(at(1.0, 50.0), Some(Edge::West));
    assert_eq!(at(199.0, 50.0), Some(Edge::East));
    assert_eq!(at(100.0, 50.0), None);
    assert_eq!(edge_at(F(1.0), F(1.0), [200, 100], true), None);
}

#[test]
fn the_pointer_shape_is_set_once() {
    let (s, _id, _) = button();
    let mut last = CursorShape::Default;
    let over = |last: &mut CursorShape, edge| {
        refresh_cursor(last, edge, &s.tree, &s.hits, None, F(10.0), F(10.0))
    };
    assert_eq!(over(&mut last, Some(Edge::East)), Some(CursorShape::EResize));
    assert_eq!(over(&mut last, None), Some(CursorShape::Pointer));
    assert_eq!(over(&mut last, None), None);
}

#[test]
fn a_change_of_scale_keeps_the_logical_size() {
    assert_eq!(logical_size([300, 150], F(1.5)), [200, 100]);
    // Just after the scale changed: another size is sent back.
    let r = on_resized([200, 100], F(1.5), [280, 140], Some(0), 10 * MS);
    assert_eq!((r.logical, r.force, r.restore_position), ([200, 100], Some([300, 150]), true));
    // Later: the logical size follows.
    let r = on_resized([200, 100], F(1.5), [600, 300], Some(0), 60_000 * MS);
    assert_eq!((r.logical, r.force, r.restore_position), ([400, 200], None, false));
    let r = on_resized([200, 100], F(1.5), [300, 150], None, 0);
    assert_eq!((r.logical, r.force), ([200, 100], None));
    assert!(scale_changed(F(1.5), F(1.0)));
    assert!(!scale_changed(F(1.5), F(1.5)));
}

#[test]
fn wheel_movements_in_lines_and_pixels() {
    let (lines, px) = wheel_amounts(WheelDelta::Lines([F(1.0), F(-2.0)]), F(2.0));
    assert_eq!(lines, [F(1.0), F(-2.0)]);
    assert_eq!(px, [F(-100.0), F(200.0)]);
    let (lines, px) = wheel_amounts(WheelDelta::Pixels([F(0.0), F(50.0)]), F(2.0));
    assert_eq!(lines, [F(0.0), F(0.5)]);
    assert_eq!(px, [F(0.0), F(-50.0)]);
}

#[test]
fn a_new_window_is_plain() {
    let c: AppConfig<F> = AppConfig::new("t".to_string(), 640, 480);
    assert!(!c.decorations && c.transparent && c.blur);
    assert_eq!(c.capture_dir, "debug_captures");
    let c = AppConfig { window_corner_radius: F(8.0), ..c };
    assert_eq!((c.corner_radius(false), c.corner_radius(true)), (F(8.0), F(0.0)));
}

// --- turns ---

const REST: Deadlines = Deadlines {
    timeline: None,
    timeline_rest: None,
    scrolling: false,
    dwell: None,
    recheck: None,
    capture: None,
    script: None,
    caret: None,
};

#[test]
fn the_loop_sleeps_to_the_first_deadline() {
    assert_eq!(REST.next_wake(5), None);
    let d = Deadlines { dwell: Some(90), caret: Some(70), script: Some(80), ..REST };
    assert_eq!(d.next_wake(5), Some(70));
    let d = Deadlines { timeline: Some(16 * MS), scrolling: true, recheck: Some(99 * MS), ..REST };
    assert_eq!(d.next_wake(MS), Some(17 * MS));
    let d = Deadlines { timeline_rest: Some(3), capture: Some(4), ..REST };
    assert_eq!(d.next_wake(0), Some(3));
    assert!(capture_due(Some(4), 4) && !capture_due(Some(4), 3) && !capture_due(None, 3));
}

#[test]
fn what_happened_decides_what_is_done() {
    let none = Happened {
        tweened: false,
        hook: false,
        scroll_moved: false,
        drag_moved: false,
        hover_moved: false,
        dwell_fired: false,
        caret_blinked: false,
    };
    let r = react_to(none);
    assert!(!r.binds && !r.layer_opacities && !r.layer_offsets && !r.displays && !r.flush);
    let r = react_to(Happened { tweened: true, ..none });
    assert!(r.binds && r.layer_opacities && !r.layer_offsets && r.displays && r.flush);
    let r = react_to(Happened { drag_moved: true, ..none });
    assert!(!r.binds && r.layer_offsets && r.flush);
    let r = react_to(Happened { hook: true, ..none });
    assert!(r.binds && !r.displays && r.flush);
    let w = Wakes {
        timeline_active: false,
        scroll_active: false,
        drag_moved: false,
        hover_moved: false,
        dwell_pending: false,
        dwell_fired: false,
        hover_rechecked: false,
        recheck_armed: false,
        hint_repaint: false,
        script: false,
        caret: false,
    };
    assert!(w.is_idle());
    assert!(!Wakes { caret: true, ..w }.is_idle());
}

const ASLEEP: Wakes = Wakes {
    timeline_active: false,
    scroll_active: false,
    drag_moved: false,
    hover_moved: false,
    dwell_pending: false,
    dwell_fired: false,
    hover_rechecked: false,
    recheck_armed: false,
    hint_repaint: false,
    script: false,
    caret: false,
};

/// The steps of a turn, by name.
fn turn(begun: TurnEvent, wakes: Wakes, asks: bool) -> Vec<String> {
    let still = Happened {
        tweened: false,
        hook: false,
        scroll_moved: false,
        drag_moved: false,
        hover_moved: false,
        dwell_fired: false,
        caret_blinked: false,
    };
    let mut at = TurnAt::Start;
    let mut event = begun;
    let mut names = vec![];
    loop {
        let (next, step) = turn_step(at, event);
        at = next;
        let name = format!("{step:?}");
        names.push(name.split('(').next().unwrap().to_string());
        event = match step {
            TurnStep::RunHook => TurnEvent::HookRan { rebuild: asks },
            TurnStep::Gather => TurnEvent::Gathered(wakes),
            TurnStep::Tick => TurnEvent::Ticked(still),
            TurnStep::React(r) => {
                assert_eq!(r.binds, names.contains(&"RunHook".to_string()));
                TurnEvent::Done
            }
            _ => TurnEvent::Done,
        };
        if at == TurnAt::Over {
            assert_eq!(turn_step(at, event), (TurnAt::Over, TurnStep::Nothing));
            return names;
        }
    }
}

#[test]
fn the_frame_hook_runs_once_before_the_tick() {
    let awake = Wakes { timeline_active: true, ..ASLEEP };
    let begun = |capture_due, rebuild, hook| TurnEvent::Begun { capture_due, rebuild, hook };
    assert_eq!(turn(begun(true, true, true), awake, false), ["Capture"]);
    assert_eq!(turn(begun(false, false, false), ASLEEP, false), ["Drain", "Gather", "Park"]);
    assert_eq!(
        turn(begun(false, false, true), ASLEEP, false),
        ["Drain", "RunHook", "ProcessBinds", "Flush", "Gather", "Park"]
    );
    assert_eq!(
        turn(begun(false, true, true), awake, true),
        [
            "Rebuild", "Drain", "RunHook", "Rebuild", "Flush", "Gather", "Tick", "React",
            "Schedule"
        ]
    );
    assert_eq!(
        turn(begun(false, true, false), awake, false),
        ["Rebuild", "Drain", "Gather", "Tick", "React", "Schedule"]
    );
    // An event out of place changes nothing.
    assert_eq!(turn_step(TurnAt::Hooking, TurnEvent::Done), (TurnAt::Hooking, TurnStep::Nothing));
}

#[test]
fn spans_are_capped() {
    assert_eq!(hold_span::<F>(None, 5), F(1.0 / 60.0));
    assert_eq!(scroll_span::<F>(None, 5), F(0.0));
    assert_eq!(scroll_span::<F>(Some(0), 10 * MS), F(0.01));
    assert_eq!(scroll_span::<F>(Some(0), 900 * MS), F(0.05));
    assert_eq!(hold_span::<F>(Some(9), 5), F(0.0));
}

#[test]
fn a_script_feeds_the_shell_step_by_step() {
    let p = [F(1.0), F(2.0)];
    let q = [F(3.0), F(4.0)];
    let mut st = AutomationState::new(Script::new(vec![
        Step::Click(p),
        Step::Wait(50),
        Step::Hover(q, 30),
        Step::Drag(p, q),
        Step::Scroll(p, q),
        Step::RightClick(p),
        Step::Screenshot("a.png".to_string()),
    ]));
    let mut fed: Vec<String> = vec![];
    let mut wakes: Vec<Option<u64>> = vec![];
    let mut now = 0;
    loop {
        match automation_tick(&mut st, now) {
            ScriptTick::Done => break,
            ScriptTick::Run { inject, next } => {
                for i in inject {
                    fed.push(match i {
                        Inject::Move(a) => format!("m{}", a[0].0),
                        Inject::Left(d) => format!("l{}", d),
                        Inject::Right(d) => format!("r{}", d),
                        Inject::Wheel(d) => format!("w{}", d[1].0),
                        Inject::Screenshot(f) => f,
                    });
                }
                wakes.push(next);
                now += 20;
            }
        }
    }
    assert_eq!(
        fed,
        vec![
            "m1", "ltrue", "lfalse", "m3", "m1", "ltrue", "m3", "lfalse", "m1", "w4", "m1",
            "rtrue", "rfalse", "a.png"
        ]
    );
    // Waits hold the next step back.
    assert_eq!(wakes[0], Some(0));
    assert_eq!(wakes[1], Some(70));
    assert_eq!(wakes[2], Some(70));
    assert!(st.finished());
}

// --- overlay ---

#[test]
fn a_script_can_go_past_its_end() {
    let mut state = AutomationState::new(Script::new(vec![Step::<F>::Wait(5)]));
    state.advance_now(3);
    assert!(state.finished() && state.current().is_none());
    state.advance_after(4, 6);
    assert_eq!(state.next_at(), Some(10));
    state.advance_now(11);
    assert!(state.finished() && state.due(11) && !state.due(10));
    assert!(matches!(automation_tick(&mut state, 12), ScriptTick::Done));
}

#[test]
fn the_scene_takes_a_press() {
    let (mut s, id, _) = button();
    s.on_cursor_moved(F(5.0), F(5.0), None, 0);
    let out = s.press_scene();
    assert!(matches!(out, PressOutcome::Pressed { outside: false, drag: None, .. }));
    assert_eq!((s.input.captured, s.input.focused), (Some(id), Some(id)));
}

#[test]
fn a_hint_stays_on_the_surface() {
    let (shape, label) =
        build_hint(F(42.0), [F(100.0), F(200.0)], [F(400.0), F(300.0)], F(1.0), F(1.0));
    assert_eq!(shape.size, [F(60.0), F(27.0)]);
    assert_eq!(shape.position, [F(70.0), F(167.0)]);
    assert_eq!(label.text.position, [F(79.0), F(172.0)]);
    assert_eq!((label.font_size, label.line_height), (F(12.5), F(17.0)));
    // No room above: below. No room beside: moved in.
    let (shape, label) = build_hint(F(42.0), [F(2.0), F(10.0)], [F(400.0), F(300.0)], F(7.0), F(1.0));
    assert_eq!(shape.position, [F(0.0), F(16.0)]);
    assert_eq!(label.text.opacity, F(1.0));
}

#[test]
fn the_statistics_have_nine_lines() {
    let (panel, labels) = build_hud(F(2.0));
    assert_eq!(labels.len(), 9);
    assert_eq!(panel.position, [F(24.0), F(24.0)]);
    assert_eq!(panel.size, [F(320.0), F(32.0 + 9.0 * 28.0)]);
    assert_eq!(labels[3].text.position, [F(40.0), F(40.0 + 84.0)]);
}

// --- layers ---

fn span(node: u32, from: usize, to: usize) -> LayerSpan<F> {
    LayerSpan {
        node: NodeId { index: node },
        events: from..to,
        scroll: None,
        external: None,
        edge_fade: [F(0.0); 4],
        edge_fade_falloff: F(1.0),
    }
}

#[test]
fn pieces_expand_to_shapes() {
    let atlas: ImageAtlas<F> = ImageAtlas::new(64);
    let mut rect = ShapeInstance::<F>::default();
    rect.border_radius = [F(2.0); 4];
    rect.roughness = F(3.0);
    let mut glass = rect;
    glass.shape_kind = SHAPE_KIND_GLASS;
    let glyph = ShapeInstance::<F>::default();
    let out = expand_events(
        &vec![
            FlatEvent::Shape(rect),
            FlatEvent::Text(vec![glyph, glyph]),
            FlatEvent::Text(vec![]),
            FlatEvent::Shape(glass),
        ],
        &atlas,
        F(2.0),
    );
    assert_eq!(out.shapes.len(), 4);
    assert_eq!(out.starts, vec![0, 1, 3, 3, 4]);
    assert_eq!(out.glass_count, 1);
    assert_eq!(out.shapes[0].border_radius, [F(4.0); 4]);
    assert_eq!(out.shapes[0].roughness, F(3.0));
    assert_eq!(out.shapes[3].roughness, F(6.0));
    // Spans become ranges of shapes, in painting order; empty ones go.
    let spans = vec![span(8, 3, 4), span(9, 0, 2), span(7, 2, 3)];
    let ranges = spans_to_instance_ranges(&spans, &out.starts);
    let got: Vec<(u32, std::ops::Range<u32>)> =
        ranges.iter().map(|r| (r.node.index, r.instances.clone())).collect();
    assert_eq!(got, vec![(9, 0..3), (8, 3..4)]);
}

#[test]
fn layers_follow_their_cells() {
    let mut tree = NodeTree::<F>::new();
    let mut signals = Signals::new();
    let o = signals.create(Value::Scalar(F(0.5)));
    let x = signals.create(Value::Scalar(F(12.0)));
    let mut n = sized(30.0, 20.0);
    n.layer_opacity = Some(o);
    n.layer_offset_x = Some(x);
    n.border_radius = [F(3.0); 4];
    let id = tree.add_root(n);
    compute_layout(&mut tree, [F(100.0), F(100.0)], &NullMeasurer, F(1.0));
    let ranges = spans_to_instance_ranges(&vec![span(id.index, 0, 1)], &vec![0, 1]);
    let mut layers = LayerTree::single_root();
    layers.rebuild(&ranges, 1, [100, 100], Damage::classify(dirty::TREE));
    let (ops, offs) = collect_layer_binds(&ranges, &tree);
    assert_eq!((ops.len(), offs.len()), (1, 1));
    layers.take_composite_dirty();
    assert!(pump_layer_opacity_binds(&mut layers, &ops, &signals));
    assert!(!pump_layer_opacity_binds(&mut layers, &ops, &signals));
    assert!(pump_layer_offset_binds(&mut layers, &offs, &signals, F(2.0)));
    assert!(layers.take_composite_dirty());
    let draws = layer_draws(&layers, &tree, F(2.0));
    let d = draws.iter().find(|d| d.round_rect.is_some()).unwrap();
    assert_eq!((d.opacity, d.offset), (F(0.5), [F(24.0), F(0.0)]));
    assert_eq!(d.corner_radius, F(6.0));
    assert_eq!(d.round_rect, Some([F(0.0), F(0.0), F(30.0), F(20.0)]));
}

#[test]
fn an_outside_texture_is_a_layer_of_its_own() {
    let mut s = span(4, 0, 0);
    s.external = Some(ExternalSpan {
        origin: [F(5.0), F(6.0)],
        size: [F(20.0), F(10.0)],
        clip: no_clip(),
        radius: F(3.0),
    });
    let ranges = spans_to_instance_ranges(&vec![s], &vec![0, 2]);
    assert_eq!(ranges[0].instances, 0..0);
    let mut layers = LayerTree::single_root();
    layers.rebuild(&ranges, 2, [100, 100], Damage::classify(dirty::TREE));
    let draws = layer_draws(&layers, &NodeTree::new(), F(1.0));
    let d = draws.iter().find(|d| d.external.is_some()).unwrap();
    assert_eq!(d.external, Some(NodeId { index: 4 }));
    let w = d.window.unwrap();
    assert_eq!((w.dst_origin, w.tex_size), ([F(5.0), F(6.0)], [F(20.0), F(10.0)]));
    assert_eq!(d.corner_radius, F(3.0));
}

#[test]
fn a_flush_takes_what_changed() {
    let mut tree = NodeTree::<F>::new();
    assert!(take_flush(&mut tree).is_none());
    let id = tree.add_root(Node::rect());
    let p = take_flush(&mut tree).unwrap();
    assert!(p.layout);
    assert!(take_flush(&mut tree).is_none());
    tree.set_color(id, [F(1.0); 4]);
    let p = take_flush(&mut tree).unwrap();
    assert!(!p.layout && p.backdrop);
}

#[test]
fn a_fresh_pointer_is_nowhere() {
    let i: InputState<F> = InputState::new();
    assert_eq!((i.cursor, i.hovered, i.captured, i.focused), (None, None, None, None));
    assert_eq!(InputState::hit_test(&vec![], F(0.0), F(0.0)), None);
}
