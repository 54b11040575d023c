use frostify_gfx::lazy_list::LazyListState;
use frostify_gfx::num::Num;

/// Numbers as the shell uses them.
#[derive(Clone, Copy, Debug, PartialEq, PartialOrd)]
struct F(f32);

impl Num for F {
    fn of_ratio(num: i32, den: i32) -> F {
        F(num as f32 / den as f32)
    }
    fn of_u64(n: u64) -> F {
        F(n as f32)
    }
    fn of_nanos(ns: u64) -> F {
        F(std::time::Duration::from_nanos(ns).as_secs_f32())
    }
    fn lowest_value() -> F {
        F(f32::NEG_INFINITY)
    }
    fn greatest_value() -> F {
        F(f32::MAX)
    }
    fn far_value() -> F {
        F(1.0e30)
    }
    fn plus(self, other: F) -> F {
        F(self.0 + other.0)
    }
    fn minus(self, other: F) -> F {
        F(self.0 - other.0)
    }
    fn times(self, other: F) -> F {
        F(self.0 * other.0)
    }
    fn over(self, other: F) -> F {
        F(self.0 / other.0)
    }
    fn negated(self) -> F {
        F(-self.0)
    }
    fn abs(self) -> F {
        F(self.0.abs())
    }
    fn max(self, other: F) -> F {
        F(self.0.max(other.0))
    }
    fn min(self, other: F) -> F {
        F(self.0.min(other.0))
    }
    fn floor(self) -> F {
        F(self.0.floor())
    }
    fn ceil(self) -> F {
        F(self.0.ceil())
    }
    fn round(self) -> F {
        F(self.0.round())
    }
    fn to_u32(self) -> u32 {
        self.0 as u32
    }
    fn lt(self, other: F) -> bool {
        self.0 < other.0
    }
    fn le(self, other: F) -> bool {
        self.0 <= other.0
    }
    fn eq(self, other: F) -> bool {
        self.0 == other.0
    }
}

fn make(count: u32, h: F) -> LazyListState<F> {
    LazyListState::new(count, h)
}

// --- uniform path ---

#[test]
fn window_covers_visible_rows_plus_buffer() {
    let ll = make(1000, F(40.0));
    let w = ll.visible_window(F(200.0), F(200.0), F(1.0));
    assert_eq!(w, [3, 12]);
}

#[test]
fn window_at_top_clamps_start_to_zero() {
    let ll = make(1000, F(40.0));
    let w = ll.visible_window(F(0.0), F(200.0), F(1.0));
    assert_eq!(w[0], 0);
}

#[test]
fn window_at_bottom_clamps_end_to_count() {
    let ll = make(20, F(40.0));
    let w = ll.visible_window(F(800.0), F(200.0), F(1.0));
    assert_eq!(w[1], 20);
}

#[test]
fn empty_list_yields_empty_window() {
    let ll = make(0, F(40.0));
    let w = ll.visible_window(F(0.0), F(200.0), F(1.0));
    assert_eq!(w, [0, 0]);
}

#[test]
fn scale_factor_applied() {
    let ll = make(100, F(40.0));
    let w = ll.visible_window(F(0.0), F(200.0), F(2.0));
    assert_eq!(w, [0, 5]);
}

#[test]
fn fewer_items_than_buffer_still_clamps() {
    let ll = make(3, F(40.0));
    let w = ll.visible_window(F(0.0), F(500.0), F(1.0));
    assert_eq!(w, [0, 3]);
}

// --- variable path ---

#[test]
fn enable_variable_heights_initializes_to_item_height() {
    let mut ll = make(5, F(40.0));
    ll.enable_variable_heights();
    ll.ensure_prefix_fresh();
    assert_eq!(ll.prefix, vec![F(0.0), F(40.0), F(80.0), F(120.0), F(160.0), F(200.0)]);
    assert_eq!(ll.total_height_logical(), F(200.0));
}

#[test]
fn set_row_height_bumps_versions_and_dirties_only_from_changed_row() {
    let mut ll = make(5, F(40.0));
    ll.enable_variable_heights();
    ll.ensure_prefix_fresh();
    let v0 = ll.heights_version;
    let changed = ll.set_row_height(2, F(100.0));
    assert!(changed);
    assert!(ll.heights_version > v0);
    assert_eq!(ll.first_dirty_row, 2);
    ll.ensure_prefix_fresh();
    // Rows 0,1 untouched; row 2 now 100 px tall; rows 3,4 still 40.
    assert_eq!(ll.prefix, vec![F(0.0), F(40.0), F(80.0), F(180.0), F(220.0), F(260.0)]);
}

#[test]
fn no_op_set_row_height_returns_false() {
    let mut ll = make(5, F(40.0));
    ll.enable_variable_heights();
    assert!(!ll.set_row_height(2, F(40.0))); // already at item_height
}

#[test]
fn variable_window_uses_prefix() {
    let mut ll = make(5, F(40.0));
    ll.enable_variable_heights();
    // Row 0: 40, row 1: 200, rows 2..5: 40.
    ll.set_row_height(1, F(200.0));
    ll.ensure_prefix_fresh();
    // prefix = [0, 40, 240, 280, 320, 360].
    // Scroll 0, viewport 100 → contains rows 0,1 (row 1 starts at 40).
    let w = ll.visible_window(F(0.0), F(100.0), F(1.0));
    // buffer 2 — [max(0-2,0), 1+1+2] = [0, 4] (clamped).
    assert_eq!(w, [0, 4]);
}

#[test]
fn variable_window_jumps_past_tall_row() {
    let mut ll = make(10, F(40.0));
    ll.enable_variable_heights();
    // Row 0 is 1000 px tall.
    ll.set_row_height(0, F(1000.0));
    ll.ensure_prefix_fresh();
    // Scroll to mid-row-0 (500 px). Only row 0 in viewport.
    let w = ll.visible_window(F(500.0), F(100.0), F(1.0));
    // first = row containing 500 → row 0 (prefix[0]=0, prefix[1]=1000).
    // last_inclusive = row containing 600 → row 0.
    // buffer 2 → [0, 1+2] = [0, 3].
    assert_eq!(w, [0, 3]);
}

#[test]
fn variable_path_drops_back_to_uniform_when_heights_cleared() {
    let mut ll = make(5, F(40.0));
    ll.enable_variable_heights();
    ll.set_row_height(0, F(100.0));
    ll.ensure_prefix_fresh();
    assert!(!ll.prefix.is_empty());
    // Drop back to uniform.
    ll.row_heights = None;
    ll.heights_version = ll.heights_version.wrapping_add(1);
    ll.ensure_prefix_fresh();
    assert!(ll.prefix.is_empty());
    assert_eq!(ll.total_height_logical(), F(200.0));
}

#[test]
fn variable_path_respects_scale_for_total() {
    let mut ll = make(3, F(40.0));
    ll.enable_variable_heights();
    ll.set_row_height(1, F(80.0));
    ll.ensure_prefix_fresh();
    // Total logical 40 + 80 + 40 = 160. Scale comes in elsewhere
    // — total_height_logical is logical-only.
    assert_eq!(ll.total_height_logical(), F(160.0));
}

#[test]
fn item_count_change_resizes_prefix() {
    let mut ll = make(5, F(40.0));
    ll.enable_variable_heights();
    ll.ensure_prefix_fresh();
    assert_eq!(ll.prefix.len(), 6);
    // Pretend item_count grew.
    ll.item_count = 8;
    if let Some(h) = ll.row_heights.as_mut() {
        h.resize(8, F(40.0));
    }
    ll.heights_version = ll.heights_version.wrapping_add(1);
    ll.first_dirty_row = 0;
    ll.ensure_prefix_fresh();
    assert_eq!(ll.prefix.len(), 9);
    assert_eq!(ll.total_height_logical(), F(320.0));
}

#[test]
fn row_tops_follow_the_heights() {
    let mut ll = make(4, F(40.0));
    assert_eq!(ll.row_top_logical(3), F(120.0));
    ll.enable_variable_heights();
    ll.set_row_height(0, F(10.0));
    ll.ensure_prefix_fresh();
    assert_eq!(ll.row_top_logical(3), F(90.0));
    // Rows past the end lie at the end.
    assert_eq!(ll.row_top_logical(9), F(130.0));
}

#[test]
fn all_heights_can_be_set_at_once() {
    let mut ll = make(3, F(40.0));
    ll.set_row_heights(vec![F(10.0), F(20.0), F(30.0)]);
    ll.ensure_prefix_fresh();
    assert_eq!(ll.prefix, vec![F(0.0), F(10.0), F(30.0), F(60.0)]);
}

#[test]
fn a_table_that_is_up_to_date_stays() {
    let mut ll = make(10, F(40.0));
    ll.set_row_heights((0..10).map(|i| F(10.0 + i as f32)).collect());
    ll.ensure_prefix_fresh();
    let before = ll.clone();
    assert_eq!(before.prefix[3], F(33.0));
    ll.ensure_prefix_fresh();
    assert_eq!(ll.prefix, before.prefix);
    assert_eq!(ll.first_dirty_row, before.first_dirty_row);
    assert_eq!(ll.last_heights_version, before.last_heights_version);
}

#[test]
fn a_window_holds_no_row_past_the_end() {
    let mut ll = make(5, F(40.0));
    // A table out of order, longer than the list.
    ll.prefix = [0.0, 90.0, 10.0, 400.0, 20.0, 7.0, 900.0, 3.0].map(F).to_vec();
    for y in [0.0, 15.0, 95.0, 500.0, 5000.0] {
        let w = ll.visible_window(F(y), F(60.0), F(1.0));
        assert!(w[0] <= w[1] && (w[0] == w[1] || w[1] <= 5), "{w:?}");
    }
}

#[test]
fn every_row_in_view_is_in_the_window() {
    let mut ll = make(200, F(40.0));
    ll.buffer = 0;
    for (y, h) in [(0.0, 200.0), (39.0, 2.0), (40.0, 40.0), (100.0, 333.0), (7990.0, 500.0)] {
        let w = ll.visible_window(F(y), F(h), F(1.0));
        for i in 0..200u32 {
            let (top, end) = (i as f32 * 40.0, (i + 1) as f32 * 40.0);
            if top < y + h && end > y {
                assert!(w[0] <= i && i < w[1], "row {i} of {w:?} at {y}");
            }
        }
    }
    assert_eq!(ll.visible_window(F(39.0), F(2.0), F(1.0)), [0, 2]);
}
