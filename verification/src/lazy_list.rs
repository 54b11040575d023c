//! Virtualized lists.
//!
//! A long list keeps only the rows in or near the viewport as nodes; the
//! others exist as a count and a height. With equal heights the visible
//! window is computed by division. With heights of their own, rows are found
//! in a table of tops by binary search, and a height that changes has the
//! table rebuilt from that row on.
use vstd::prelude::*;

use crate::node::NodeId;
use crate::num::{
    ceiling_is, computes_exactly, exact, floor_is, fractions_are_exact, rounds_exactly, stands_for,
    whole_is, zero, Num,
};

verus! {

/// No row has changed height.
pub const CLEAN: u32 = u32::MAX;

/// The state of a virtualized list.
#[derive(Clone, Debug)]
pub struct LazyListState<N> {
    pub item_count: u32,
    /// Logical height of a row that has none of its own.
    pub item_height: N,
    /// Rows kept on either side of the visible ones.
    pub buffer: u32,
    /// Moves when the rows must be rendered again.
    pub version: u64,
    pub last_seen_version: u64,
    /// The rows that are nodes, in order.
    pub materialized: Vec<NodeId>,
    /// Which rows those are: first, and one past the last.
    pub range: [u32; 2],
    /// Logical height of each row, when they differ.
    pub row_heights: Option<Vec<N>>,
    /// Logical top of each row, and the total height behind them.
    pub prefix: Vec<N>,
    /// Moves when a height changes.
    pub heights_version: u64,
    /// The `heights_version` that the tops were computed for.
    pub last_heights_version: u64,
    /// The `heights_version` that the rows were put in place for.
    pub placed_heights_version: u64,
    /// First row whose height changed since the tops were computed.
    pub first_dirty_row: u32,
}

/// The height of row `i`.
pub open spec fn height_at<N: Num>(heights: Seq<N>, fallback: N, i: int) -> N {
    if 0 <= i < heights.len() {
        heights[i]
    } else {
        fallback
    }
}

/// The top of row `i`: the heights above it, added from the first on.
pub open spec fn top_of<N: Num>(heights: Seq<N>, fallback: N, i: nat) -> N
    decreases i,
{
    if i == 0 {
        zero()
    } else {
        top_of(heights, fallback, (i - 1) as nat).sum(height_at(heights, fallback, i - 1))
    }
}

/// `s` cut or filled up to `n` entries.
pub open spec fn sized_to<N>(s: Seq<N>, n: nat, fill: N) -> Seq<N> {
    Seq::new(
        n,
        |i: int|
            if i < s.len() {
                s[i]
            } else {
                fill
            },
    )
}

fn resized<N: Copy>(v: &Vec<N>, n: usize, fill: N) -> (r: Vec<N>)
    ensures
        r@ == sized_to(v@, n as nat, fill),
{
    let mut out: Vec<N> = Vec::new();
    let mut i: usize = 0;
    while i < n
        invariant
            i <= n,
            out@ == sized_to(v@, i as nat, fill),
        decreases n - i,
    {
        if i < v.len() {
            out.push(v[i]);
        } else {
            out.push(fill);
        }
        i += 1;
        assert(out@ =~= sized_to(v@, i as nat, fill));
    }
    assert(out@ =~= sized_to(v@, n as nat, fill));
    out
}

/// The smaller of two row indices.
pub open spec fn earlier(a: u32, b: u32) -> u32 {
    if a <= b {
        a
    } else {
        b
    }
}

/// Values for which `at_most(v, x)` holds come first.
pub open spec fn split_at_most<N: Num>(s: Seq<N>, x: N) -> bool {
    forall|i: int, j: int|
        0 <= i <= j < s.len() && (#[trigger] s[j]).at_most(x) ==> (#[trigger] s[i]).at_most(x)
}

/// Values for which `below(v, x)` holds come first.
pub open spec fn split_below<N: Num>(s: Seq<N>, x: N) -> bool {
    forall|i: int, j: int|
        0 <= i <= j < s.len() && (#[trigger] s[j]).below(x) ==> (#[trigger] s[i]).below(x)
}

/// How many leading values are at most `x`.
pub open spec fn count_at_most<N: Num>(s: Seq<N>, x: N) -> nat
    decreases s.len(),
{
    if s.len() == 0 {
        0
    } else if s.last().at_most(x) {
        s.len()
    } else {
        count_at_most(s.drop_last(), x)
    }
}

/// How many leading values are below `x`.
pub open spec fn count_below<N: Num>(s: Seq<N>, x: N) -> nat
    decreases s.len(),
{
    if s.len() == 0 {
        0
    } else if s.last().below(x) {
        s.len()
    } else {
        count_below(s.drop_last(), x)
    }
}

proof fn count_at_most_is<N: Num>(s: Seq<N>, x: N, n: nat)
    requires
        n <= s.len(),
        forall|i: int| 0 <= i < n ==> (#[trigger] s[i]).at_most(x),
        forall|i: int| n <= i < s.len() ==> !(#[trigger] s[i]).at_most(x),
    ensures
        count_at_most(s, x) == n,
    decreases s.len(),
{
    if s.len() > 0 {
        assert(s.last() == s[s.len() - 1]);
        if n < s.len() {
            count_at_most_is(s.drop_last(), x, n);
        }
    }
}

proof fn count_below_is<N: Num>(s: Seq<N>, x: N, n: nat)
    requires
        n <= s.len(),
        forall|i: int| 0 <= i < n ==> (#[trigger] s[i]).below(x),
        forall|i: int| n <= i < s.len() ==> !(#[trigger] s[i]).below(x),
    ensures
        count_below(s, x) == n,
    decreases s.len(),
{
    if s.len() > 0 {
        assert(s.last() == s[s.len() - 1]);
        if n < s.len() {
            count_below_is(s.drop_last(), x, n);
        }
    }
}

/// How many leading values are at most `x`, by binary search.
fn search_at_most<N: Num>(v: &Vec<N>, x: N) -> (r: usize)
    ensures
        r <= v@.len(),
        split_at_most(v@, x) ==> r == count_at_most(v@, x),
{
    let mut lo: usize = 0;
    let mut hi: usize = v.len();
    while lo < hi
        invariant
            lo <= hi <= v@.len(),
            split_at_most(v@, x) ==> forall|i: int| 0 <= i < lo ==> (#[trigger] v@[i]).at_most(x),
            split_at_most(v@, x) ==> forall|i: int|
                hi <= i < v@.len() ==> !(#[trigger] v@[i]).at_most(x),
        decreases hi - lo,
    {
        let mid: usize = lo + (hi - lo) / 2;
        if v[mid].le(x) {
            lo = mid + 1;
        } else {
            hi = mid;
        }
    }
    proof {
        if split_at_most(v@, x) {
            count_at_most_is(v@, x, lo as nat);
        }
    }
    lo
}

/// How many leading values are below `x`, by binary search.
fn search_below<N: Num>(v: &Vec<N>, x: N) -> (r: usize)
    ensures
        r <= v@.len(),
        split_below(v@, x) ==> r == count_below(v@, x),
{
    let mut lo: usize = 0;
    let mut hi: usize = v.len();
    while lo < hi
        invariant
            lo <= hi <= v@.len(),
            split_below(v@, x) ==> forall|i: int| 0 <= i < lo ==> (#[trigger] v@[i]).below(x),
            split_below(v@, x) ==> forall|i: int|
                hi <= i < v@.len() ==> !(#[trigger] v@[i]).below(x),
        decreases hi - lo,
    {
        let mid: usize = lo + (hi - lo) / 2;
        if v[mid].lt(x) {
            lo = mid + 1;
        } else {
            hi = mid;
        }
    }
    proof {
        if split_below(v@, x) {
            count_below_is(v@, x, lo as nat);
        }
    }
    lo
}

/// Rows `first..=last` with `buffer` more on either side, within `count`.
pub open spec fn buffered(first: int, end: int, buffer: int, count: int) -> (int, int) {
    let start = if first >= buffer {
        first - buffer
    } else {
        0
    };
    let stop = if end + buffer <= count {
        end + buffer
    } else {
        count
    };
    (
        start,
        if stop >= start {
            stop
        } else {
            start
        },
    )
}

fn buffered_window(first: u32, end: u32, buffer: u32, count: u32) -> (r: [u32; 2])
    ensures
        (r[0] as int, r[1] as int) == buffered(
            first as int,
            end as int,
            buffer as int,
            count as int,
        ),
        r[0] <= r[1],
{
    let start: u32 = if first >= buffer {
        first - buffer
    } else {
        0
    };
    let stop: u32 = if end as u64 + buffer as u64 <= count as u64 {
        end + buffer
    } else {
        count
    };
    [
        start,
        if stop >= start {
            stop
        } else {
            start
        },
    ]
}

/// The window of rows that a viewport shows, when all rows are equally high.
pub open spec fn uniform_window<N: Num>(
    ll: LazyListState<N>,
    scroll_top: N,
    viewport_h: N,
    scale: N,
) -> (int, int) {
    let ih = ll.item_height.product(scale);
    if ih.at_most(zero()) {
        (0, 0)
    } else {
        buffered(
            scroll_top.quotient(ih).rounded_down().larger(zero()).whole() as int,
            scroll_top.sum(viewport_h).quotient(ih).rounded_up().larger(zero()).whole() as int,
            ll.buffer as int,
            ll.item_count as int,
        )
    }
}

/// The first logical pixel shown.
pub open spec fn logical_top<N: Num>(scroll_top: N, scale: N) -> N {
    scroll_top.quotient(scale).larger(zero())
}

/// The logical pixel below the last one shown.
pub open spec fn logical_bottom<N: Num>(scroll_top: N, viewport_h: N, scale: N) -> N {
    logical_top(scroll_top, scale).sum(viewport_h.quotient(scale).larger(zero()))
}

/// The window of rows that a viewport shows, found in the table of tops.
pub open spec fn table_window<N: Num>(
    ll: LazyListState<N>,
    scroll_top: N,
    viewport_h: N,
    scale: N,
) -> (int, int) {
    let upper = count_at_most(ll.prefix@, logical_top(scroll_top, scale)) as int;
    let upper_b = count_below(ll.prefix@, logical_bottom(scroll_top, viewport_h, scale)) as int;
    let first = if upper > 0 {
        upper - 1
    } else {
        0
    };
    let last = if upper_b > 0 {
        upper_b - 1
    } else {
        0
    };
    let last_row = if last <= ll.item_count - 1 {
        last
    } else {
        ll.item_count - 1
    };
    buffered(first, last_row + 1, ll.buffer as int, ll.item_count as int)
}

/// `w` is the window of a list: nothing of an empty list or viewport, else
/// found by division or in the table of tops. Nothing is said of a table
/// whose tops are not in order.
pub open spec fn window_is<N: Num>(
    ll: LazyListState<N>,
    scroll_top: N,
    viewport_h: N,
    scale: N,
    w: [u32; 2],
) -> bool {
    let none = ll.item_count == 0 || viewport_h.at_most(zero());
    &&& none ==> w == [0u32, 0u32]
    &&& !none && ll.prefix@.len() == 0 ==> (w[0] as int, w[1] as int) == uniform_window(
        ll,
        scroll_top,
        viewport_h,
        scale,
    )
    &&& !none && ll.prefix@.len() > 0 && split_at_most(ll.prefix@, logical_top(scroll_top, scale))
        && split_below(ll.prefix@, logical_bottom(scroll_top, viewport_h, scale)) ==> (
        w[0] as int,
        w[1] as int,
    ) == table_window(ll, scroll_top, viewport_h, scale)
}

impl<N: Num> LazyListState<N> {
    /// The table of tops starts at zero, and is right up to the first row
    /// whose height changed.
    pub open spec fn sound(&self) -> bool {
        &&& self.prefix@.len() > 0 ==> self.prefix@[0] == zero::<N>()
        &&& self.row_heights is Some && self.prefix@.len() == self.item_count + 1 ==> forall|
            i: int,
        |
            0 <= i <= self.item_count && i <= self.first_dirty_row ==> #[trigger] self.prefix@[i]
                == top_of(self.row_heights->0@, self.item_height, i as nat)
    }

    /// The table of tops is up to date.
    pub open spec fn fresh(&self) -> bool {
        match self.row_heights {
            None => self.prefix@.len() == 0,
            Some(h) => {
                &&& self.prefix@.len() == self.item_count + 1
                &&& forall|i: int|
                    0 <= i <= self.item_count ==> #[trigger] self.prefix@[i] == top_of(
                        h@,
                        self.item_height,
                        i as nat,
                    )
            },
        }
    }

    /// A list of `item_count` equally high rows, none of them a node yet.
    pub fn new(item_count: u32, item_height: N) -> (r: LazyListState<N>)
        ensures
            r.item_count == item_count,
            r.item_height == item_height,
            r.buffer == 2,
            r.version == 0,
            r.last_seen_version == 0,
            r.materialized@.len() == 0,
            r.range == [0u32, 0u32],
            r.row_heights is None,
            r.prefix@.len() == 0,
            r.heights_version == 0,
            r.last_heights_version == 0,
            r.placed_heights_version == 0,
            r.first_dirty_row == CLEAN,
            r.sound(),
            r.fresh(),
    {
        LazyListState {
            item_count,
            item_height,
            buffer: 2,
            version: 0,
            last_seen_version: 0,
            materialized: Vec::new(),
            range: [0, 0],
            row_heights: None,
            prefix: Vec::new(),
            heights_version: 0,
            last_heights_version: 0,
            placed_heights_version: 0,
            first_dirty_row: CLEAN,
        }
    }

    /// Everything but the heights and their bookkeeping is as in `o`.
    pub open spec fn same_rows(&self, o: &LazyListState<N>) -> bool {
        &&& self.item_count == o.item_count
        &&& self.item_height == o.item_height
        &&& self.buffer == o.buffer
        &&& self.version == o.version
        &&& self.last_seen_version == o.last_seen_version
        &&& self.materialized@ == o.materialized@
        &&& self.range == o.range
        &&& self.placed_heights_version == o.placed_heights_version
    }

    /// Gives every row a height of its own, at first the common one. Nothing
    /// happens when the rows have heights already.
    pub fn enable_variable_heights(&mut self)
        ensures
            old(self).row_heights is Some ==> *final(self) == *old(self),
            old(self).row_heights is None ==> {
                &&& final(self).row_heights is Some
                &&& final(self).row_heights->0@ == Seq::new(
                    old(self).item_count as nat,
                    |i: int| old(self).item_height,
                )
                &&& final(self).heights_version == old(self).heights_version.wrapping_add(1)
                &&& final(self).first_dirty_row == 0
                &&& final(self).prefix@ == old(self).prefix@
                &&& final(self).last_heights_version == old(self).last_heights_version
                &&& final(self).same_rows(old(self))
            },
            old(self).sound() ==> final(self).sound(),
    {
        if self.row_heights.is_some() {
            return ;
        }
        let none: Vec<N> = Vec::new();
        let heights: Vec<N> = resized(&none, self.item_count as usize, self.item_height);
        assert(heights@ =~= Seq::new(self.item_count as nat, |i: int| self.item_height));
        self.row_heights = Some(heights);
        self.heights_version = self.heights_version.wrapping_add(1);
        self.first_dirty_row = 0;
    }

    /// The heights of the rows, one for each.
    pub open spec fn heights_filled(&self) -> Seq<N> {
        match self.row_heights {
            Some(h) => sized_to(h@, self.item_count as nat, self.item_height),
            None => Seq::new(self.item_count as nat, |i: int| self.item_height),
        }
    }

    /// The first row that needs a new top once every row has a height.
    pub open spec fn dirty_from(&self) -> u32 {
        match self.row_heights {
            Some(_) => self.first_dirty_row,
            None => 0,
        }
    }

    /// Sets the height of row `i`. Returns whether it differs from before; a
    /// row that does not exist has no height.
    pub fn set_row_height(&mut self, i: u32, h: N) -> (r: bool)
        ensures
            r == (i < old(self).item_count && !old(self).heights_filled()[i as int].difference(
                h,
            ).magnitude().below(N::fraction(1, 8_388_608))),
            i >= old(self).item_count ==> *final(self) == *old(self),
            i < old(self).item_count ==> {
                &&& final(self).row_heights is Some
                &&& final(self).row_heights->0@ == if r {
                    old(self).heights_filled().update(i as int, h)
                } else {
                    old(self).heights_filled()
                }
            },
            r ==> final(self).first_dirty_row == earlier(old(self).dirty_from(), i),
            r ==> final(self).heights_version == if old(self).row_heights is None {
                old(self).heights_version.wrapping_add(1).wrapping_add(1)
            } else {
                old(self).heights_version.wrapping_add(1)
            },
            !r && old(self).row_heights is Some ==> {
                &&& final(self).first_dirty_row == old(self).first_dirty_row
                &&& final(self).heights_version == old(self).heights_version
            },
            !r && i < old(self).item_count && old(self).row_heights is None ==> {
                &&& final(self).first_dirty_row == 0
                &&& final(self).heights_version == old(self).heights_version.wrapping_add(1)
            },
            final(self).prefix@ == old(self).prefix@,
            final(self).last_heights_version == old(self).last_heights_version,
            final(self).same_rows(old(self)),
            old(self).sound() ==> final(self).sound(),
    {
        if i >= self.item_count {
            return false;
        }
        let ghost filled = self.heights_filled();
        let ghost start = *self;
        if self.row_heights.is_none() {
            self.enable_variable_heights();
        }
        let ghost enabled = *self;
        let n: usize = self.item_count as usize;
        let fill: N = self.item_height;
        let mut heights: Vec<N> = match &self.row_heights {
            Some(v) => resized(v, n, fill),
            None => Vec::new(),
        };
        assert(heights@ =~= filled);
        let idx: usize = i as usize;
        let changed: bool = !heights[idx].minus(h).abs().lt(N::of_ratio(1, 8_388_608));
        if changed {
            heights.set(idx, h);
            if i < self.first_dirty_row {
                self.first_dirty_row = i;
            }
            self.heights_version = self.heights_version.wrapping_add(1);
        }
        self.row_heights = Some(heights);
        proof {
            if start.sound() {
                assert forall|k: int|
                    0 <= k <= self.item_count && k <= self.first_dirty_row && self.prefix@.len()
                        == self.item_count + 1 implies #[trigger] self.prefix@[k] == top_of(
                    self.row_heights->0@,
                    self.item_height,
                    k as nat,
                ) by {
                    assert(enabled.prefix@[k] == top_of(
                        enabled.row_heights->0@,
                        self.item_height,
                        k as nat,
                    ));
                    same_heights_above(
                        enabled.row_heights->0@,
                        self.row_heights->0@,
                        self.item_height,
                        k as nat,
                    );
                }
            }
        }
        changed
    }

    /// Replaces all heights.
    pub fn set_row_heights(&mut self, heights: Vec<N>)
        ensures
            final(self).row_heights is Some,
            final(self).row_heights->0@ == sized_to(
                heights@,
                old(self).item_count as nat,
                old(self).item_height,
            ),
            final(self).heights_version == old(self).heights_version.wrapping_add(1),
            final(self).first_dirty_row == 0,
            final(self).prefix@ == old(self).prefix@,
            final(self).last_heights_version == old(self).last_heights_version,
            final(self).same_rows(old(self)),
            old(self).sound() ==> final(self).sound(),
    {
        let n: usize = self.item_count as usize;
        self.row_heights = Some(resized(&heights, n, self.item_height));
        self.heights_version = self.heights_version.wrapping_add(1);
        self.first_dirty_row = 0;
    }

    /// The logical top of row `i`. Rows past the end lie at the end.
    pub open spec fn row_top(&self, i: u32) -> N {
        if self.prefix@.len() == 0 {
            N::natural(i as u64).product(self.item_height)
        } else if i < self.prefix@.len() {
            self.prefix@[i as int]
        } else {
            self.prefix@.last()
        }
    }

    /// The logical top of row `i`. Rows past the end lie at the end.
    pub fn row_top_logical(&self, i: u32) -> (r: N)
        ensures
            r == self.row_top(i),
    {
        let len: usize = self.prefix.len();
        if len == 0 {
            return N::of_u64(i as u64).times(self.item_height);
        }
        if (i as usize) < len {
            self.prefix[i as usize]
        } else {
            self.prefix[len - 1]
        }
    }

    /// The logical height of all rows together.
    pub open spec fn total_height(&self) -> N {
        if self.prefix@.len() == 0 {
            N::natural(self.item_count as u64).product(self.item_height)
        } else {
            self.prefix@.last()
        }
    }

    /// The logical height of all rows together.
    pub fn total_height_logical(&self) -> (r: N)
        ensures
            r == self.total_height(),
    {
        let len: usize = self.prefix.len();
        if len == 0 {
            N::of_u64(self.item_count as u64).times(self.item_height)
        } else {
            self.prefix[len - 1]
        }
    }

    /// Brings the table of tops up to date, from the first row whose height
    /// changed on. Equally high rows need no table.
    pub fn ensure_prefix_fresh(&mut self)
        requires
            old(self).sound(),
            old(self).item_count < usize::MAX,
        ensures
            final(self).fresh(),
            final(self).sound(),
            final(self).first_dirty_row == CLEAN,
            final(self).last_heights_version == old(self).heights_version,
            final(self).heights_version == old(self).heights_version,
            final(self).row_heights == old(self).row_heights,
            final(self).same_rows(old(self)),
            old(self).fresh() ==> final(self).prefix@ =~= old(self).prefix@,
    {
        let ghost heights_before = self.row_heights;
        let ghost start_state = *self;
        let heights: Vec<N> = match &self.row_heights {
            None => {
                self.prefix = Vec::new();
                self.last_heights_version = self.heights_version;
                self.first_dirty_row = CLEAN;
                return ;
            },
            Some(h) => resized(h, h.len(), self.item_height),
        };
        assert(heights@ =~= self.row_heights->0@);
        let count: usize = self.item_count as usize;
        let fallback: N = self.item_height;
        if self.prefix.len() != count + 1 {
            self.prefix = resized(&self.prefix, count + 1, N::of_ratio(0, 1));
            self.first_dirty_row = 0;
        }
        if self.last_heights_version == self.heights_version && self.first_dirty_row == CLEAN {
            return ;
        }
        let start: usize = if (self.first_dirty_row as usize) < count {
            self.first_dirty_row as usize
        } else {
            count
        };
        let mut acc: N = self.prefix[start];
        let mut i: usize = start;
        let ghost item_count = self.item_count;
        while i < count
            invariant
                start <= i <= count,
                count == item_count,
                self.prefix@.len() == count + 1,
                self.row_heights == heights_before,
                heights_before is Some,
                heights@ == heights_before->0@,
                self.item_count == item_count,
                self.item_height == fallback,
                self.heights_version == start_state.heights_version,
                self.same_rows(&start_state),
                acc == top_of(heights@, fallback, i as nat),
                forall|k: int|
                    0 <= k <= i ==> #[trigger] self.prefix@[k] == top_of(
                        heights@,
                        fallback,
                        k as nat,
                    ),
            decreases count - i,
        {
            let h: N = if i < heights.len() {
                heights[i]
            } else {
                fallback
            };
            acc = acc.plus(h);
            self.prefix.set(i + 1, acc);
            i += 1;
        }
        self.last_heights_version = self.heights_version;
        self.first_dirty_row = CLEAN;
    }

    /// The rows that a viewport of physical height `viewport_h` shows when
    /// scrolled to `scroll_top`, with the buffer rows: first, and one past
    /// the last. The table of tops must be up to date.
    pub fn visible_window(&self, scroll_top: N, viewport_h: N, scale: N) -> (r: [u32; 2])
        requires
            self.prefix@.len() <= u32::MAX + 1,
        ensures
            r[0] <= r[1],
            r[0] < r[1] ==> r[1] <= self.item_count,
            window_is(*self, scroll_top, viewport_h, scale, r),
    {
        let z: N = N::of_ratio(0, 1);
        if self.item_count == 0 || viewport_h.le(z) {
            return [0, 0];
        }
        let count: u32 = self.item_count;
        if self.prefix.len() == 0 {
            let ih: N = self.item_height.times(scale);
            if ih.le(z) {
                return [0, 0];
            }
            let first: u32 = scroll_top.over(ih).floor().max(z).to_u32();
            let end: u32 = scroll_top.plus(viewport_h).over(ih).ceil().max(z).to_u32();
            return buffered_window(first, end, self.buffer, count);
        }
        let top: N = scroll_top.over(scale).max(z);
        let bottom: N = top.plus(viewport_h.over(scale).max(z));
        let upper: usize = search_at_most(&self.prefix, top);
        let upper_b: usize = search_below(&self.prefix, bottom);
        let first: u32 = if upper > 0 {
            (upper - 1) as u32
        } else {
            0
        };
        let last: u32 = if upper_b > 0 {
            (upper_b - 1) as u32
        } else {
            0
        };
        let last_row: u32 = if last <= count - 1 {
            last
        } else {
            count - 1
        };
        buffered_window(first, last_row + 1, self.buffer, count)
    }
}

/// Tops depend on the heights above them only.
proof fn same_heights_above<N: Num>(a: Seq<N>, b: Seq<N>, fallback: N, i: nat)
    requires
        forall|k: int| 0 <= k < i ==> height_at(a, fallback, k) == height_at(b, fallback, k),
    ensures
        top_of(a, fallback, i) == top_of(b, fallback, i),
    decreases i,
{
    if i > 0 {
        same_heights_above(a, b, fallback, (i - 1) as nat);
    }
}

proof fn count_at_most_bound<N: Num>(s: Seq<N>, x: N, i: int)
    requires
        0 <= i < s.len(),
        split_at_most(s, x),
    ensures
        count_at_most(s, x) <= s.len(),
        s[i].at_most(x) <==> i < count_at_most(s, x),
    decreases s.len(),
{
    reveal_with_fuel(count_at_most, 2);
    assert(s.last() == s[s.len() - 1]);
    if !s.last().at_most(x) {
        if i < s.len() - 1 {
            assert(split_at_most(s.drop_last(), x));
            count_at_most_bound(s.drop_last(), x, i);
        } else if s.len() > 1 {
            count_at_most_bound(s.drop_last(), x, 0);
        }
    }
}

proof fn count_below_bound<N: Num>(s: Seq<N>, x: N, i: int)
    requires
        0 <= i < s.len(),
        split_below(s, x),
    ensures
        count_below(s, x) <= s.len(),
        s[i].below(x) <==> i < count_below(s, x),
    decreases s.len(),
{
    reveal_with_fuel(count_below, 2);
    assert(s.last() == s[s.len() - 1]);
    if !s.last().below(x) {
        if i < s.len() - 1 {
            assert(split_below(s.drop_last(), x));
            count_below_bound(s.drop_last(), x, i);
        } else if s.len() > 1 {
            count_below_bound(s.drop_last(), x, 0);
        }
    }
}

/// Every row that reaches into the viewport (it starts above the lower edge
/// and does not end at or above the upper one) lies in the window.
pub proof fn visible_rows_are_in_the_window<N: Num>(
    ll: LazyListState<N>,
    scroll_top: N,
    viewport_h: N,
    scale: N,
    row: int,
)
    requires
        0 <= row < ll.item_count,
        ll.prefix@.len() == ll.item_count + 1,
        split_at_most(ll.prefix@, logical_top(scroll_top, scale)),
        split_below(ll.prefix@, logical_bottom(scroll_top, viewport_h, scale)),
        ll.prefix@[row].below(logical_bottom(scroll_top, viewport_h, scale)),
        !ll.prefix@[row + 1].at_most(logical_top(scroll_top, scale)),
    ensures
        table_window(ll, scroll_top, viewport_h, scale).0 <= row < table_window(
            ll,
            scroll_top,
            viewport_h,
            scale,
        ).1,
{
    count_at_most_bound(ll.prefix@, logical_top(scroll_top, scale), row + 1);
    count_below_bound(ll.prefix@, logical_bottom(scroll_top, viewport_h, scale), row);
}

/// In exact numbers, every row of a list of equally high rows that reaches
/// into the viewport (it starts above the lower edge and ends below the upper
/// one) lies in the window.
pub proof fn visible_equal_rows_are_in_the_window<N: Num>(
    value: spec_fn(N) -> real,
    ll: LazyListState<N>,
    scroll_top: N,
    viewport_h: N,
    scale: N,
    row: int,
)
    requires
        exact(value),
        rounds_exactly(value),
        0 <= row < ll.item_count,
        value(ll.item_height) * value(scale) > 0real,
        (row as real) * (value(ll.item_height) * value(scale)) < value(scroll_top) + value(
            viewport_h,
        ),
        ((row + 1) as real) * (value(ll.item_height) * value(scale)) > value(scroll_top),
    ensures
        uniform_window(ll, scroll_top, viewport_h, scale).0 <= row < uniform_window(
            ll,
            scroll_top,
            viewport_h,
            scale,
        ).1,
{
    let ih = ll.item_height.product(scale);
    let h = value(ih);
    assert(value(zero()) == 0real) by {
        assert(value(N::fraction(0, 1)) * (1i32 as real) == 0i32 as real);
    }
    let above = scroll_top.quotient(ih);
    let down = above.rounded_down();
    let start = down.larger(zero());
    let below = scroll_top.sum(viewport_h).quotient(ih);
    let up = below.rounded_up();
    let stop = up.larger(zero());
    let (a, b) = (value(above), value(below));
    assert(floor_is(a, value(down)));
    assert(ceiling_is(b, value(up)));
    assert(whole_is(value(start), start.whole()));
    assert(whole_is(value(stop), stop.whole()));
    let i = row as real;
    assert(a < i + 1real) by (nonlinear_arith)
        requires
            a * h == value(scroll_top),
            (i + 1real) * h > value(scroll_top),
            h > 0real,
    ;
    assert(i < b) by (nonlinear_arith)
        requires
            b * h == value(scroll_top) + value(viewport_h),
            i * h < value(scroll_top) + value(viewport_h),
            h > 0real,
    ;
    let first = start.whole() as int;
    let end = stop.whole() as int;
    assert(first <= row) by {
        assert((first as real) < ((row + 1) as real));
    }
    let k = choose|k: int| #[trigger] stands_for(value(up), k);
    assert(k >= row + 1) by {
        assert((k as real) > (row as real));
    }
    assert(value(stop) == k as real);
    assert(end >= row + 1) by {
        if stop.whole() != u32::MAX {
            assert((k as real) < ((end + 1) as real));
        }
    }
}

/// A window holds at most the rows of the list, and only rows of it.
pub proof fn window_stays_in_the_list(first: int, end: int, buffer: int, count: int)
    requires
        0 <= first,
        0 <= end,
        0 <= buffer,
        0 <= count,
    ensures
        0 <= buffered(first, end, buffer, count).0 <= buffered(first, end, buffer, count).1,
        first - buffer <= count ==> buffered(first, end, buffer, count).1 <= count,
{
}

/// A table that is up to date is left as it is: bringing it up to date a
/// second time computes the same tops.
pub proof fn fresh_tables_agree<N: Num>(a: LazyListState<N>, b: LazyListState<N>)
    requires
        a.fresh(),
        b.fresh(),
        b.row_heights == a.row_heights,
        b.same_rows(&a),
    ensures
        a.prefix@ == b.prefix@,
        forall|i: u32| a.row_top(i) == b.row_top(i),
        a.total_height() == b.total_height(),
{
    assert(a.prefix@.len() == b.prefix@.len());
    assert forall|i: int| 0 <= i < a.prefix@.len() implies a.prefix@[i] == b.prefix@[i] by {}
    assert(a.prefix@ =~= b.prefix@);
}

/// In exact numbers, the rows of a list lie one below the other from zero on:
/// each is as high as it says, and all together are as high as the list.
pub proof fn rows_lie_below_one_another<N: Num>(
    value: spec_fn(N) -> real,
    ll: LazyListState<N>,
    i: u32,
)
    requires
        computes_exactly(value),
        ll.fresh(),
        i < ll.item_count,
    ensures
        value(ll.row_top(0)) == 0real,
        value(ll.row_top((i + 1) as u32)) - value(ll.row_top(i)) == value(
            if ll.row_heights is Some && i < ll.row_heights->0@.len() {
                ll.row_heights->0@[i as int]
            } else {
                ll.item_height
            },
        ),
        ll.total_height() == ll.row_top(ll.item_count),
{
    fractions_are_exact(value);
    match ll.row_heights {
        None => {
            let h = value(ll.item_height);
            let a = i as u64;
            let b = (i + 1) as u64;
            assert(value(N::natural(a)) == a as real);
            assert(value(N::natural(b)) == b as real);
            assert((b as real) * h == (a as real) * h + h) by (nonlinear_arith)
                requires
                    (b as real) == (a as real) + 1real,
            ;
            assert(value(N::natural(0)) == 0real);
            assert(0real * h == 0real) by (nonlinear_arith);
        },
        Some(hs) => {
            let tops = ll.prefix@;
            assert(tops[i as int] == top_of(hs@, ll.item_height, i as nat));
            assert(tops[i + 1] == top_of(hs@, ll.item_height, (i + 1) as nat));
            assert(tops[0] == top_of(hs@, ll.item_height, 0));
        },
    }
}

/// In exact numbers, the window of equally high rows goes no farther than the
/// buffer: beyond so many rows it holds none that the viewport does not reach.
pub proof fn windows_of_equal_rows_are_tight<N: Num>(
    value: spec_fn(N) -> real,
    ll: LazyListState<N>,
    scroll_top: N,
    viewport_h: N,
    scale: N,
)
    requires
        computes_exactly(value),
        value(ll.item_height) * value(scale) > 0real,
        0real <= value(scroll_top),
        0real < value(viewport_h),
        value(scroll_top) < (u32::MAX as real) * (value(ll.item_height) * value(scale)),
    ensures
        ({
            let (first, end) = uniform_window(ll, scroll_top, viewport_h, scale);
            let h = value(ll.item_height) * value(scale);
            &&& ((first + ll.buffer + 1) as real) * h > value(scroll_top)
            &&& end > first && end > ll.buffer ==> ((end - ll.buffer - 1) as real) * h < value(
                scroll_top,
            ) + value(viewport_h)
        }),
{
    fractions_are_exact(value);
    let ih = ll.item_height.product(scale);
    let h = value(ih);
    let above = scroll_top.quotient(ih);
    let down = above.rounded_down();
    let start = down.larger(zero());
    let below = scroll_top.sum(viewport_h).quotient(ih);
    let up = below.rounded_up();
    let stop = up.larger(zero());
    let (a, b) = (value(above), value(below));
    let s = value(scroll_top);
    let e = s + value(viewport_h);
    assert(floor_is(a, value(down)));
    assert(ceiling_is(b, value(up)));
    assert(whole_is(value(start), start.whole()));
    assert(whole_is(value(stop), stop.whole()));
    assert(a * h == s);
    assert(b * h == e);
    let first = start.whole();
    let last = stop.whole();
    let m = u32::MAX as real;
    assert(a < m) by (nonlinear_arith)
        requires
            a * h == s,
            s < m * h,
            h > 0real,
    ;
    assert(0real <= a) by (nonlinear_arith)
        requires
            a * h == s,
            s >= 0real,
            h > 0real,
    ;
    let k = choose|k: int| #[trigger] stands_for(value(down), k);
    assert(0 <= k < u32::MAX);
    assert(value(start) == k as real);
    assert(first == k) by {
        if first != u32::MAX {
            assert((first as int) <= k < first as int + 1);
        }
    }
    let window = uniform_window(ll, scroll_top, viewport_h, scale);
    let f = window.0;
    assert(f + ll.buffer >= k);
    let g = (f + ll.buffer + 1) as real;
    assert(g > a);
    assert(g * h > s) by (nonlinear_arith)
        requires
            a * h == s,
            g > a,
            h > 0real,
    ;
    if window.1 > window.0 && window.1 > ll.buffer {
        let t = (window.1 - ll.buffer - 1) as real;
        assert(window.1 <= last + ll.buffer);
        assert(0real < b) by (nonlinear_arith)
            requires
                b * h == e,
                e > 0real,
                h > 0real,
        ;
        assert((last as real) <= value(up));
        assert(t < b);
        assert(t * h < e) by (nonlinear_arith)
            requires
                b * h == e,
                t < b,
                h > 0real,
        ;
    }
}

/// The window that is found in the table of tops goes no farther than the
/// buffer: the row so many after its first is the last that starts at or above
/// the upper edge, and the row so many before its last starts above the lower
/// one.
pub proof fn windows_in_the_table_are_tight<N: Num>(
    ll: LazyListState<N>,
    scroll_top: N,
    viewport_h: N,
    scale: N,
)
    requires
        ll.item_count > 0,
        ll.prefix@.len() == ll.item_count + 1,
    ensures
        ({
            let (first, end) = table_window(ll, scroll_top, viewport_h, scale);
            let top = logical_top(scroll_top, scale);
            let bottom = logical_bottom(scroll_top, viewport_h, scale);
            &&& forall|j: int|
                first + ll.buffer < j <= ll.item_count ==> !(#[trigger] ll.prefix@[j]).at_most(top)
            &&& end > first && end - ll.buffer - 1 > 0 ==> exists|j: int|
                end - ll.buffer - 1 <= j <= ll.item_count && (#[trigger] ll.prefix@[j]).below(
                    bottom,
                )
        }),
{
    let top = logical_top(scroll_top, scale);
    let bottom = logical_bottom(scroll_top, viewport_h, scale);
    nothing_after_count_at_most(ll.prefix@, top);
    last_of_count_below(ll.prefix@, bottom);
    let (first, end) = table_window(ll, scroll_top, viewport_h, scale);
    if end > first && end - ll.buffer - 1 > 0 {
        let upper_b = count_below(ll.prefix@, bottom) as int;
        assert(upper_b > 0);
        assert(ll.prefix@[upper_b - 1].below(bottom));
    }
}

proof fn nothing_after_count_at_most<N: Num>(s: Seq<N>, x: N)
    ensures
        count_at_most(s, x) <= s.len(),
        forall|j: int| count_at_most(s, x) <= j < s.len() ==> !(#[trigger] s[j]).at_most(x),
    decreases s.len(),
{
    if s.len() > 0 && !s.last().at_most(x) {
        nothing_after_count_at_most(s.drop_last(), x);
        assert forall|j: int| count_at_most(s, x) <= j < s.len() implies !(#[trigger] s[j]).at_most(
            x,
        ) by {
            if j < s.len() - 1 {
                assert(s.drop_last()[j] == s[j]);
            }
        }
    }
}

proof fn last_of_count_below<N: Num>(s: Seq<N>, x: N)
    ensures
        count_below(s, x) <= s.len(),
        count_below(s, x) > 0 ==> s[count_below(s, x) - 1].below(x),
    decreases s.len(),
{
    if s.len() > 0 && !s.last().below(x) {
        last_of_count_below(s.drop_last(), x);
    }
}

/// Every row has a height: its own where it has one, else the common one.
pub proof fn rows_without_a_height_have_the_common_one<N: Num>(ll: LazyListState<N>, i: int)
    requires
        0 <= i < ll.item_count,
    ensures
        ll.heights_filled().len() == ll.item_count,
        ll.row_heights is Some && i < ll.row_heights->0@.len() ==> ll.heights_filled()[i]
            == ll.row_heights->0@[i],
        ll.row_heights is None || i >= ll.row_heights->0@.len() ==> ll.heights_filled()[i]
            == ll.item_height,
        ll.row_heights is None ==> ll.dirty_from() == 0,
        ll.row_heights is Some ==> ll.dirty_from() == ll.first_dirty_row,
{
}

/// The window reaches beyond the visible rows by the buffer on either side, as
/// far as there are rows: with a row that is shown it holds the rows that are no
/// farther from it than the buffer, and it ends with the buffer.
pub proof fn windows_reach_beyond_by_the_buffer(
    first: int,
    end: int,
    buffer: int,
    count: int,
    row: int,
    near: int,
)
    requires
        0 <= buffer,
        0 <= first <= row < end,
        row < count,
        row - buffer <= near <= row + buffer,
        0 <= near < count,
    ensures
        buffered(first, end, buffer, count).0 <= near < buffered(first, end, buffer, count).1,
        buffered(first, end, buffer, count).0 + buffer >= first,
        buffered(first, end, buffer, count).1 <= end + buffer,
{
}

} // verus!
