use frostify_gfx::editor::{
    apply, next_char_boundary, prev_char_boundary, selected_text, selection_range, EditOp,
    EditorState,
};
use frostify_gfx::node::NodeId;
use frostify_gfx::num::Num;

/// Numbers as the shell uses them.
#[derive(Clone, Copy, Debug, PartialEq, PartialOrd)]
struct F(f32);

impl Num for F {
    fn of_ratio(num: i32, den: i32) -> F {
        F(num as f32 / den as f32)
    }
    fn of_u64(n: u64) -> F {
        F(n as f32)
    }
    fn of_nanos(ns: u64) -> F {
        F(std::time::Duration::from_nanos(ns).as_secs_f32())
    }
    fn lowest_value() -> F {
        F(f32::NEG_INFINITY)
    }
    fn greatest_value() -> F {
        F(f32::MAX)
    }
    fn far_value() -> F {
        F(1.0e30)
    }
    fn plus(self, other: F) -> F {
        F(self.0 + other.0)
    }
    fn minus(self, other: F) -> F {
        F(self.0 - other.0)
    }
    fn times(self, other: F) -> F {
        F(self.0 * other.0)
    }
    fn over(self, other: F) -> F {
        F(self.0 / other.0)
    }
    fn negated(self) -> F {
        F(-self.0)
    }
    fn abs(self) -> F {
        F(self.0.abs())
    }
    fn max(self, other: F) -> F {
        F(self.0.max(other.0))
    }
    fn min(self, other: F) -> F {
        F(self.0.min(other.0))
    }
    fn floor(self) -> F {
        F(self.0.floor())
    }
    fn ceil(self) -> F {
        F(self.0.ceil())
    }
    fn round(self) -> F {
        F(self.0.round())
    }
    fn to_u32(self) -> u32 {
        self.0 as u32
    }
    fn lt(self, other: F) -> bool {
        self.0 < other.0
    }
    fn le(self, other: F) -> bool {
        self.0 <= other.0
    }
    fn eq(self, other: F) -> bool {
        self.0 == other.0
    }
}

fn make(value: &str, cursor: usize) -> EditorState<F> {
    let dummy = NodeId { index: u32::MAX };
    EditorState {
        value: value.to_string(),
        cursor,
        selection_anchor: None,
        placeholder: String::new(),
        font_size: F(14.0),
        text_color: [F(1.0), F(1.0), F(1.0), F(1.0)],
        placeholder_color: [F(1.0), F(1.0), F(1.0), F(0.45)],
        text_node: dummy,
        caret_node: dummy,
        selection_node: dummy,
    }
}

#[test]
fn insert_at_end() {
    let mut st = make("foo", 3);
    let out = apply(EditOp::Insert("bar".to_string()), &mut st);
    assert_eq!(st.value, "foobar");
    assert_eq!(st.cursor, 6);
    assert!(out.value_changed && out.cursor_moved);
}

#[test]
fn insert_in_middle() {
    let mut st = make("foo", 1);
    apply(EditOp::Insert("X".to_string()), &mut st);
    assert_eq!(st.value, "fXoo");
    assert_eq!(st.cursor, 2);
}

#[test]
fn backspace_removes_prior_char() {
    let mut st = make("foo", 3);
    apply(EditOp::DeleteBack, &mut st);
    assert_eq!(st.value, "fo");
    assert_eq!(st.cursor, 2);
}

#[test]
fn backspace_at_start_noop() {
    let mut st = make("foo", 0);
    let out = apply(EditOp::DeleteBack, &mut st);
    assert_eq!(st.value, "foo");
    assert!(!out.any());
}

#[test]
fn delete_forward_keeps_cursor() {
    let mut st = make("foo", 1);
    apply(EditOp::DeleteForward, &mut st);
    assert_eq!(st.value, "fo");
    assert_eq!(st.cursor, 1);
}

#[test]
fn move_left_and_right() {
    let mut st = make("ab", 2);
    apply(EditOp::MoveLeft, &mut st);
    assert_eq!(st.cursor, 1);
    apply(EditOp::MoveLeft, &mut st);
    assert_eq!(st.cursor, 0);
    let out = apply(EditOp::MoveLeft, &mut st);
    assert!(!out.cursor_moved, "no-op at start");
    apply(EditOp::MoveRight, &mut st);
    assert_eq!(st.cursor, 1);
}

#[test]
fn home_end() {
    let mut st = make("hello", 2);
    apply(EditOp::Home, &mut st);
    assert_eq!(st.cursor, 0);
    apply(EditOp::End, &mut st);
    assert_eq!(st.cursor, 5);
}

#[test]
fn utf8_boundaries_respected() {
    // "héllo" — `é` is 2 bytes (0xC3 0xA9).
    let mut st = make("héllo", 3); // cursor after `é`
    apply(EditOp::MoveLeft, &mut st);
    assert_eq!(st.cursor, 1); // walked past the 2-byte é
    apply(EditOp::DeleteForward, &mut st);
    assert_eq!(st.value, "hllo"); // dropped the full é
}

#[test]
fn submit_sets_flag_only() {
    let mut st = make("foo", 3);
    let out = apply(EditOp::Submit, &mut st);
    assert!(out.submitted);
    assert!(!out.value_changed);
    assert_eq!(st.value, "foo");
}

// --- selection + clipboard ---

#[test]
fn shift_right_extends_selection() {
    let mut st = make("hello", 0);
    apply(EditOp::SelectRight, &mut st);
    apply(EditOp::SelectRight, &mut st);
    assert_eq!(st.selection_anchor, Some(0));
    assert_eq!(st.cursor, 2);
    assert_eq!(selection_range(&st), Some((0, 2)));
    assert_eq!(selected_text(&st).as_deref(), Some("he"));
}

#[test]
fn shift_left_extends_then_shrinks() {
    let mut st = make("hello", 5);
    apply(EditOp::SelectLeft, &mut st); // anchor 5, cursor 4
    apply(EditOp::SelectLeft, &mut st); // cursor 3
    assert_eq!(selection_range(&st), Some((3, 5)));
    // Shrinking back the other way reduces the span.
    apply(EditOp::SelectRight, &mut st); // cursor 4
    assert_eq!(selection_range(&st), Some((4, 5)));
}

#[test]
fn select_all_then_collapse_with_arrow() {
    let mut st = make("hello", 2);
    apply(EditOp::SelectAll, &mut st);
    assert_eq!(selection_range(&st), Some((0, 5)));
    // Left collapses to the start; Right would collapse to the end.
    let out = apply(EditOp::MoveLeft, &mut st);
    assert_eq!(st.cursor, 0);
    assert_eq!(st.selection_anchor, None);
    assert!(out.selection_changed);
}

#[test]
fn typing_replaces_selection() {
    let mut st = make("hello", 0);
    apply(EditOp::SelectAll, &mut st);
    apply(EditOp::Insert("Z".to_string()), &mut st);
    assert_eq!(st.value, "Z");
    assert_eq!(st.cursor, 1);
    assert_eq!(st.selection_anchor, None);
}

#[test]
fn delete_back_removes_whole_selection() {
    let mut st = make("hello", 1);
    apply(EditOp::SelectRight, &mut st); // select "e"
    apply(EditOp::SelectRight, &mut st); // select "el"
    apply(EditOp::DeleteBack, &mut st);
    assert_eq!(st.value, "hlo");
    assert_eq!(st.cursor, 1);
    assert_eq!(st.selection_anchor, None);
}

#[test]
fn copy_reports_selection_without_mutating() {
    let mut st = make("hello", 0);
    apply(EditOp::SelectRight, &mut st);
    apply(EditOp::SelectRight, &mut st);
    let out = apply(EditOp::Copy, &mut st);
    assert_eq!(out.clipboard_write.as_deref(), Some("he"));
    assert!(!out.value_changed);
    assert_eq!(st.value, "hello");
    // Selection survives a copy.
    assert_eq!(selection_range(&st), Some((0, 2)));
}

#[test]
fn cut_copies_then_deletes() {
    let mut st = make("hello", 0);
    apply(EditOp::SelectRight, &mut st);
    apply(EditOp::SelectRight, &mut st);
    let out = apply(EditOp::Cut, &mut st);
    assert_eq!(out.clipboard_write.as_deref(), Some("he"));
    assert_eq!(st.value, "llo");
    assert_eq!(st.cursor, 0);
    assert!(st.selection_anchor.is_none());
}

#[test]
fn paste_replaces_selection() {
    let mut st = make("hello", 0);
    apply(EditOp::SelectRight, &mut st);
    apply(EditOp::SelectRight, &mut st); // select "he"
    apply(EditOp::Paste("XY".to_string()), &mut st);
    assert_eq!(st.value, "XYllo");
    assert_eq!(st.cursor, 2);
}

#[test]
fn paste_at_caret_without_selection() {
    let mut st = make("ac", 1);
    apply(EditOp::Paste("b".to_string()), &mut st);
    assert_eq!(st.value, "abc");
    assert_eq!(st.cursor, 2);
}

#[test]
fn copy_with_no_selection_writes_nothing() {
    let mut st = make("hello", 2);
    let out = apply(EditOp::Copy, &mut st);
    assert!(out.clipboard_write.is_none());
}

#[test]
fn boundaries_step_over_whole_characters() {
    assert_eq!(prev_char_boundary("h\u{e9}llo", 3), 1);
    assert_eq!(next_char_boundary("h\u{e9}llo", 1), 3);
    assert_eq!(prev_char_boundary("abc", 0), 0);
    assert_eq!(next_char_boundary("abc", 3), 3);
}

#[test]
fn paste_puts_back_what_cut_took() {
    let mut st = make("hello", 1);
    apply(EditOp::SelectRight, &mut st);
    apply(EditOp::SelectRight, &mut st);
    let out = apply(EditOp::Cut, &mut st);
    assert_eq!(st.value, "hlo");
    apply(EditOp::Paste(out.clipboard_write.unwrap()), &mut st);
    assert_eq!(st.value, "hello");
    assert_eq!(st.cursor, 3);
    assert_eq!(st.selection_anchor, None);
}

#[test]
fn pasting_nothing_deletes_the_selection() {
    let mut st = make("hello", 2);
    st.selection_anchor = Some(0);
    let out = apply(EditOp::Paste(String::new()), &mut st);
    assert_eq!(st.value, "llo");
    assert_eq!(st.cursor, 0);
    assert_eq!(st.selection_anchor, None);
    assert!(out.value_changed && out.selection_changed && out.cursor_moved);
}

#[test]
fn only_a_caret_that_moved_is_reported() {
    // Deleting a selection whose start is the caret leaves it where it is.
    let mut st = make("hello", 0);
    st.selection_anchor = Some(2);
    let out = apply(EditOp::DeleteBack, &mut st);
    assert_eq!((st.value.as_str(), st.cursor), ("llo", 0));
    assert!(out.value_changed && out.selection_changed && !out.cursor_moved);
    // A selection that collapses to the caret.
    let mut st = make("hello", 3);
    st.selection_anchor = Some(1);
    let out = apply(EditOp::MoveRight, &mut st);
    assert_eq!((st.cursor, st.selection_anchor), (3, None));
    assert!(out.selection_changed && !out.cursor_moved);
    let mut st = make("hello", 1);
    st.selection_anchor = Some(3);
    let out = apply(EditOp::Cut, &mut st);
    assert_eq!((st.value.as_str(), st.cursor), ("hlo", 1));
    assert!(out.selection_changed && !out.cursor_moved);
    assert_eq!(out.clipboard_write.as_deref(), Some("el"));
    // Everything is selected already.
    let mut st = make("hello", 5);
    assert!(apply(EditOp::SelectAll, &mut st).selection_changed);
    assert!(!apply(EditOp::SelectAll, &mut st).any());
    // Typing as much as was selected before the caret.
    let mut st = make("hello", 2);
    st.selection_anchor = Some(0);
    let out = apply(EditOp::Insert("HE".to_string()), &mut st);
    assert_eq!((st.value.as_str(), st.cursor), ("HEllo", 2));
    assert!(out.value_changed && !out.cursor_moved);
}

#[test]
fn backspace_takes_back_a_typed_character() {
    let mut st = make("ab", 1);
    apply(EditOp::Insert("\u{e9}".to_string()), &mut st);
    assert_eq!(st.cursor, 3);
    apply(EditOp::DeleteBack, &mut st);
    assert_eq!(st.value, "ab");
    assert_eq!(st.cursor, 1);
}

#[test]
fn select_home_and_end_select_to_the_edges() {
    let mut st = make("hello", 2);
    apply(EditOp::SelectHome, &mut st);
    assert_eq!(selection_range(&st), Some((0, 2)));
    apply(EditOp::SelectEnd, &mut st);
    assert_eq!(selection_range(&st), Some((2, 5)));
    assert_eq!(selected_text(&st).as_deref(), Some("llo"));
}
