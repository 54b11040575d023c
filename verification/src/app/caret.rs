//! Text fields: editing, the caret and its blinking, and the highlight of
//! the selection.
use vstd::prelude::*;
use vstd::utf8::{decode_utf8, encode_utf8, is_char_boundary};

use crate::app::binds::{look_of, shown, text_shown, BindKind, Look};
use crate::editor::{
    apply, edited, effect_of, field_of, field_wf, same_rest, selection_range, span, EditOp,
    EditOutcome, EditorState,
};
use crate::layout::Measurer;
use crate::node::dirty;
use crate::node::tree::{equals4, forest_size, live, node_at, with_node, Node, NodeTree};
use crate::node::NodeId;
use crate::num::{computes_exactly, fractions_are_exact, one, zero, Num};
use crate::signal::{Cell, SignalId, Signals, Value};

verus! {

/// Milliseconds that a caret is shown, and then hidden.
pub const BLINK_HALF_MS: u64 = 530;

/// The phase of the caret of the text field that has the focus.
#[derive(Debug, Clone, Copy, PartialEq, Eq, Structural)]
pub struct CaretBlink {
    /// When the caret was last shown afresh.
    pub anchor: u64,
    pub on: bool,
}

/// Milliseconds since the caret was shown afresh.
pub open spec fn blink_ms(b: CaretBlink, now: u64) -> int {
    if now >= b.anchor {
        (now - b.anchor) / 1_000_000
    } else {
        0
    }
}

/// The caret is shown at `now`.
pub open spec fn blink_on(b: CaretBlink, now: u64) -> bool {
    blink_ms(b, now) / (BLINK_HALF_MS as int) % 2 == 0
}

/// When the caret changes next.
pub open spec fn blink_next(b: CaretBlink, now: u64) -> int {
    now + (BLINK_HALF_MS - blink_ms(b, now) % (BLINK_HALF_MS as int)) * 1_000_000
}

/// The editor of a node.
pub open spec fn editor_at<N>(nodes: Seq<Option<Node<N>>>, id: NodeId) -> Option<EditorState<N>> {
    if live(nodes, id) {
        node_at(nodes, id).editor
    } else {
        None
    }
}

/// The nodes after the opacity of one was set.
pub open spec fn opacity_set<N: Num>(nodes: Seq<Option<Node<N>>>, id: NodeId, opacity: N) -> Seq<
    Option<Node<N>>,
> {
    if live(nodes, id) && !node_at(nodes, id).opacity.equals(opacity) {
        nodes.update(id.index as int, Some(Node { opacity, ..node_at(nodes, id) }))
    } else {
        nodes
    }
}

/// What setting the opacity of a node marks.
pub open spec fn opacity_marked<N: Num>(
    nodes: Seq<Option<Node<N>>>,
    id: NodeId,
    opacity: N,
    mask: u32,
) -> u32 {
    dirty::marked_if(
        mask,
        live(nodes, id) && !node_at(nodes, id).opacity.equals(opacity),
        dirty::VISUAL | dirty::BACKDROP,
    )
}

fn caret_of<N: Num>(tree: &NodeTree<N>, field: NodeId) -> (r: Option<NodeId>)
    ensures
        r == (match editor_at(tree.nodes(), field) {
            Some(ed) => Some(ed.caret_node),
            None => None,
        }),
{
    match tree.get(field) {
        Some(n) => match &n.editor {
            Some(ed) => Some(ed.caret_node),
            None => None,
        },
        None => None,
    }
}

impl CaretBlink {
    /// Shows or hides the caret of the text field that has the focus, if its
    /// time has come. The result says whether it changed, and when it changes
    /// next; without a text field it does not.
    pub fn tick<N: Num>(&mut self, focused: Option<NodeId>, tree: &mut NodeTree<N>, now: u64) -> (r:
        (bool, Option<u64>))
        requires
            old(tree).wf(),
            now + BLINK_HALF_MS * 1_000_000 <= u64::MAX,
        ensures
            final(tree).wf(),
            final(tree).root_ids() == old(tree).root_ids(),
            focused is None ==> {
                &&& r == (false, None::<u64>)
                &&& *final(self) == (CaretBlink { on: true, ..*old(self) })
                &&& final(tree).nodes() == old(tree).nodes()
                &&& final(tree).dirty_mask() == old(tree).dirty_mask()
            },
            focused is Some ==> match editor_at(old(tree).nodes(), focused->0) {
                None => {
                    &&& r == (false, None::<u64>)
                    &&& *final(self) == *old(self)
                    &&& final(tree).nodes() == old(tree).nodes()
                    &&& final(tree).dirty_mask() == old(tree).dirty_mask()
                },
                Some(ed) => {
                    let on = blink_on(*old(self), now);
                    let opacity: N = if on {
                        one()
                    } else {
                        zero()
                    };
                    &&& r.0 == (on != old(self).on)
                    &&& r.1 == Some(blink_next(*old(self), now) as u64)
                    &&& *final(self) == (CaretBlink { on, ..*old(self) })
                    &&& final(tree).nodes() == (if r.0 {
                        opacity_set(old(tree).nodes(), ed.caret_node, opacity)
                    } else {
                        old(tree).nodes()
                    })
                    &&& final(tree).dirty_mask() == (if r.0 {
                        opacity_marked(
                            old(tree).nodes(),
                            ed.caret_node,
                            opacity,
                            old(tree).dirty_mask(),
                        )
                    } else {
                        old(tree).dirty_mask()
                    })
                },
            },
    {
        let field: NodeId = match focused {
            Some(f) => f,
            None => {
                self.on = true;
                return (false, None);
            },
        };
        let caret: NodeId = match caret_of(tree, field) {
            Some(c) => c,
            None => return (false, None),
        };
        let elapsed: u64 = if now >= self.anchor {
            (now - self.anchor) / 1_000_000
        } else {
            0
        };
        let on: bool = elapsed / BLINK_HALF_MS % 2 == 0;
        let changed: bool = on != self.on;
        if changed {
            self.on = on;
            let opacity: N = if on {
                N::of_ratio(1, 1)
            } else {
                N::of_ratio(0, 1)
            };
            tree.set_opacity(caret, opacity);
        }
        let next: u64 = now + (BLINK_HALF_MS - elapsed % BLINK_HALF_MS) * 1_000_000;
        (changed, Some(next))
    }

    /// Shows the caret of a text field afresh.
    pub fn reset<N: Num>(&mut self, field: NodeId, tree: &mut NodeTree<N>, now: u64)
        requires
            old(tree).wf(),
        ensures
            final(tree).wf(),
            final(tree).root_ids() == old(tree).root_ids(),
            *final(self) == (CaretBlink { anchor: now, on: true }),
            final(tree).nodes() == (match editor_at(old(tree).nodes(), field) {
                Some(ed) => opacity_set(old(tree).nodes(), ed.caret_node, one()),
                None => old(tree).nodes(),
            }),
            final(tree).dirty_mask() == (match editor_at(old(tree).nodes(), field) {
                Some(ed) => opacity_marked(
                    old(tree).nodes(),
                    ed.caret_node,
                    one(),
                    old(tree).dirty_mask(),
                ),
                None => old(tree).dirty_mask(),
            }),
    {
        self.anchor = now;
        self.on = true;
        if let Some(c) = caret_of(tree, field) {
            tree.set_opacity(c, N::of_ratio(1, 1));
        }
    }
}

/// Right after it was shown afresh the caret is on, and it changes half a
/// period later.
pub proof fn fresh_caret_is_on(now: u64)
    requires
        now + BLINK_HALF_MS * 1_000_000 <= u64::MAX,
    ensures
        ({
            let b = CaretBlink { anchor: now, on: true };
            let then = (now + BLINK_HALF_MS * 1_000_000) as u64;
            &&& blink_on(b, now)
            &&& blink_next(b, now) == then
            &&& !blink_on(b, then)
        }),
{
}

/// The first `idx` bytes of a text, as characters.
pub open spec fn prefix(value: Seq<char>, idx: int) -> Seq<char> {
    decode_utf8(encode_utf8(value).take(idx))
}

/// The width of the first `idx` bytes of a text in physical pixels.
pub open spec fn width_upto<N: Num, M: Measurer<N>>(
    m: &M,
    value: Seq<char>,
    idx: int,
    font_size: N,
    scale: N,
) -> N {
    let px = font_size.product(scale);
    m.text_size(prefix(value, idx), px, px.product(N::fraction(5, 4)))[0]
}

fn measure_upto<N: Num, M: Measurer<N>>(
    m: &M,
    value: &str,
    idx: usize,
    font_size: N,
    scale: N,
) -> (r: N)
    requires
        0 <= idx <= encode_utf8(value@).len(),
        is_char_boundary(encode_utf8(value@), idx as int),
    ensures
        r == width_upto(m, value@, idx as int, font_size, scale),
{
    let (head, _) = value.split_at(idx);
    proof {
        assert(encode_utf8(head@) =~= encode_utf8(value@).take(idx as int));
        vstd::utf8::encode_utf8_decode_utf8(head@);
    }
    let px: N = font_size.times(scale);
    m.measure_text(head, px, px.times(N::of_ratio(5, 4)))[0]
}

/// How far the caret at byte `idx` would be from `x`.
pub open spec fn caret_distance<N: Num, M: Measurer<N>>(
    m: &M,
    value: Seq<char>,
    idx: int,
    font_size: N,
    scale: N,
    origin: N,
    x: N,
) -> N {
    origin.sum(width_upto(m, value, idx, font_size, scale)).difference(x).magnitude()
}

/// The nearest caret position among the first `n` bytes, and its distance.
pub open spec fn nearest_caret<N: Num, M: Measurer<N>>(
    m: &M,
    value: Seq<char>,
    font_size: N,
    scale: N,
    origin: N,
    x: N,
    n: nat,
) -> (int, N)
    decreases n,
{
    if n == 0 {
        (0, N::greatest())
    } else {
        let before = nearest_caret(m, value, font_size, scale, origin, x, (n - 1) as nat);
        let d = caret_distance(m, value, n - 1, font_size, scale, origin, x);
        if is_char_boundary(encode_utf8(value), n - 1) && d.below(before.1) {
            (n - 1, d)
        } else {
            before
        }
    }
}

/// The byte position of the character boundary whose caret is nearest to
/// `x`; the first of several. `origin` is where the text starts.
pub fn caret_index_at_x<N: Num, M: Measurer<N>>(
    m: &M,
    value: &str,
    font_size: N,
    scale: N,
    origin: N,
    x: N,
) -> (r: usize)
    ensures
        r == nearest_caret(
            m,
            value@,
            font_size,
            scale,
            origin,
            x,
            encode_utf8(value@).len() + 1,
        ).0,
        0 <= r <= encode_utf8(value@).len(),
        is_char_boundary(encode_utf8(value@), r as int),
{
    let len: usize = value.as_bytes().len();
    let ghost text = encode_utf8(value@);
    assert(len == text.len());
    proof {
        vstd::utf8::encode_utf8_valid_utf8(value@);
        vstd::utf8::is_char_boundary_start_end_of_seq(text);
    }
    let mut best: usize = 0;
    let mut dist: N = N::greatest_value();
    let mut i: usize = 0;
    let mut done: bool = false;
    while !done
        invariant
            text == encode_utf8(value@),
            len == text.len(),
            i <= len,
            best <= len,
            is_char_boundary(text, best as int),
            !done ==> (best as int, dist) == nearest_caret(
                m,
                value@,
                font_size,
                scale,
                origin,
                x,
                i as nat,
            ),
            done ==> (best as int, dist) == nearest_caret(
                m,
                value@,
                font_size,
                scale,
                origin,
                x,
                len as nat + 1,
            ),
        decreases
                len - i + (if done {
                    0int
                } else {
                    1
                }),
    {
        if value.is_char_boundary(i) {
            let w: N = measure_upto(m, value, i, font_size, scale);
            let d: N = origin.plus(w).minus(x).abs();
            if d.lt(dist) {
                dist = d;
                best = i;
            }
        }
        if i == len {
            done = true;
        } else {
            i = i + 1;
        }
    }
    best
}

/// The editor with the caret moved: a press puts the anchor there too, a
/// drag keeps it where the caret was.
pub open spec fn caret_moved<N>(ed: EditorState<N>, idx: usize, press: bool) -> EditorState<N> {
    EditorState {
        cursor: idx,
        selection_anchor: if press {
            Some(idx)
        } else if ed.selection_anchor is Some {
            ed.selection_anchor
        } else {
            Some(ed.cursor)
        },
        ..ed
    }
}

/// Moves the caret of a text field. The result says whether there is one and
/// whether the caret was elsewhere before; a drag that does not move it
/// changes nothing.
pub fn move_caret<N: Num>(tree: &mut NodeTree<N>, field: NodeId, idx: usize, press: bool) -> (r: bool)
    requires
        old(tree).wf(),
    ensures
        final(tree).wf(),
        final(tree).root_ids() == old(tree).root_ids(),
        r == (match editor_at(old(tree).nodes(), field) {
            Some(ed) => press || ed.cursor != idx,
            None => false,
        }),
        final(tree).nodes() == (if r {
            with_node(
                old(tree).nodes(),
                field,
                Node {
                    editor: Some(
                        caret_moved(editor_at(old(tree).nodes(), field)->0, idx, press),
                    ),
                    ..node_at(old(tree).nodes(), field)
                },
            )
        } else {
            old(tree).nodes()
        }),
        final(tree).dirty_mask() == (if r {
            old(tree).dirty_mask() | dirty::TRANSFORM
        } else {
            old(tree).dirty_mask()
        }),
{
    let moves: bool = match tree.get(field) {
        Some(n) => match &n.editor {
            Some(ed) => press || ed.cursor != idx,
            None => false,
        },
        None => false,
    };
    if !moves {
        return false;
    }
    let ghost before = tree.nodes();
    if let Some(ed) = tree.take_editor(field) {
        let mut st = ed;
        st.selection_anchor = if press {
            Some(idx)
        } else if st.selection_anchor.is_some() {
            st.selection_anchor
        } else {
            Some(st.cursor)
        };
        st.cursor = idx;
        tree.set_editor(field, st);
    }
    tree.mark(dirty::TRANSFORM);
    assert(tree.nodes() =~= before.update(
        field.index as int,
        Some(
            Node {
                editor: Some(caret_moved(editor_at(before, field)->0, idx, press)),
                ..node_at(before, field)
            },
        ),
    ));
    true
}

/// A tree after an edit of a text field whose editor became `st`: it shows
/// the text if that changed, and is laid out anew if only the caret or the
/// selection moved.
pub open spec fn edit_applied<N: Num>(
    l: Look<N>,
    field: NodeId,
    st: EditorState<N>,
    e: EditOutcome,
) -> Look<N> {
    let put = with_node(l.nodes, field, Node { editor: Some(st), ..node_at(l.nodes, field) });
    if e.value_changed {
        text_shown(Look { nodes: put, dirty: l.dirty }, st.text_node, st.value)
    } else {
        Look {
            nodes: put,
            dirty: dirty::marked_if(
                l.dirty,
                e.cursor_moved || e.selection_changed,
                dirty::TRANSFORM,
            ),
        }
    }
}

/// An edit of a text field took a tree from `before` to `after`, and `r` says
/// what it did; nothing happens where the node has no editor.
pub open spec fn edit_done<N: Num>(
    before: Look<N>,
    after: Look<N>,
    field: NodeId,
    op: EditOp,
    r: Option<EditOutcome>,
) -> bool {
    match editor_at(before.nodes, field) {
        None => r is None && after == before,
        Some(ed) => r is Some && exists|st: EditorState<N>|
            {
                &&& #[trigger] field_of(st) == edited(op, field_of(ed)).0
                &&& field_wf(field_of(st))
                &&& same_rest(ed, st)
                &&& effect_of(r->0) == edited(op, field_of(ed)).1
                &&& after == edit_applied(before, field, st, r->0)
            },
    }
}

/// Applies an edit to a text field and shows its new text. A caret or a
/// selection that moved without the text also makes the field be laid out
/// anew. `None` where the node has no editor.
pub fn apply_edit<N: Num>(tree: &mut NodeTree<N>, field: NodeId, op: EditOp) -> (r: Option<
    EditOutcome,
>)
    requires
        old(tree).wf(),
        editor_at(old(tree).nodes(), field) matches Some(ed) ==> field_wf(field_of(ed)),
    ensures
        final(tree).wf(),
        final(tree).root_ids() == old(tree).root_ids(),
        edit_done(look_of(*old(tree)), look_of(*final(tree)), field, op, r),
{
    let ghost before = tree.nodes();
    let ghost was = editor_at(before, field);
    let mut st: EditorState<N> = match tree.take_editor(field) {
        Some(ed) => ed,
        None => {
            proof {
                if live(before, field) {
                    assert(before.update(
                        field.index as int,
                        Some(Node { editor: None, ..node_at(before, field) }),
                    ) =~= before);
                }
            }
            return None;
        },
    };
    let out: EditOutcome = apply(op, &mut st);
    let text_node: NodeId = st.text_node;
    let value: String = st.value.clone();
    let ghost done = st;
    tree.set_editor(field, st);
    assert(tree.nodes() =~= with_node(
        before,
        field,
        Node { editor: Some(done), ..node_at(before, field) },
    ));
    if out.value_changed {
        tree.set_text(text_node, value);
    } else if out.cursor_moved || out.selection_changed {
        tree.mark(dirty::TRANSFORM);
    }
    assert(field_of(done) == edited(op, field_of(was->0)).0);
    Some(out)
}

/// The focus cell of a node is on.
pub open spec fn shows_focus<N: Num>(n: Node<N>, store: Seq<Cell<N>>) -> bool {
    n.interact.focused matches Some(c) && store[c.index as int].value == Value::<N>::Flag(true)
}

/// The focus cells of all nodes are in a store of `cells` cells.
pub open spec fn focus_cells_exist<N: Num>(nodes: Seq<Option<Node<N>>>, cells: nat) -> bool {
    forall|i: int|
        0 <= i < nodes.len() ==> (#[trigger] nodes[i] matches Some(n) ==> (
        n.interact.focused matches Some(c) ==> c.index < cells))
}

fn has_focus<N: Num>(cell: Option<SignalId>, signals: &Signals<N>) -> (r: bool)
    requires
        cell matches Some(c) ==> c.index < signals@.len(),
    ensures
        r == (cell matches Some(c) && signals@[c.index as int].value == Value::<N>::Flag(true)),
{
    match cell {
        Some(c) => match signals.get(c) {
            Value::Flag(on) => on,
            _ => false,
        },
        None => false,
    }
}

/// A text field shows its placeholder.
pub open spec fn shows_placeholder<N: Num>(ed: EditorState<N>, focused: bool) -> bool {
    ed.value@.len() == 0 && !focused && ed.placeholder@.len() > 0
}

/// A tree after text field `i` was made to show its text, or its placeholder
/// while it is empty and does not have the focus.
pub open spec fn field_refreshed<N: Num>(l: Look<N>, store: Seq<Cell<N>>, i: int) -> Look<N> {
    if l.nodes[i] is Some && l.nodes[i]->0.editor is Some {
        let ed = l.nodes[i]->0.editor->0;
        let hint = shows_placeholder(ed, shows_focus(l.nodes[i]->0, store));
        let text = if hint {
            ed.placeholder
        } else {
            ed.value
        };
        let color = if hint {
            ed.placeholder_color
        } else {
            ed.text_color
        };
        shown(
            BindKind::Color,
            text_shown(l, ed.text_node, text),
            ed.text_node,
            Value::Quad(color),
        )
    } else {
        l
    }
}

/// A tree after the first `n` nodes were refreshed.
pub open spec fn fields_refreshed<N: Num>(l: Look<N>, store: Seq<Cell<N>>, n: nat) -> Look<N>
    decreases n,
{
    if n == 0 {
        l
    } else {
        field_refreshed(fields_refreshed(l, store, (n - 1) as nat), store, n - 1)
    }
}

/// Nodes that differ in text and colour, rectangle and visibility at most.
pub open spec fn same_fields<N: Num>(a: Seq<Option<Node<N>>>, b: Seq<Option<Node<N>>>) -> bool {
    &&& a.len() == b.len()
    &&& forall|i: int| 0 <= i < a.len() ==> same_field(#[trigger] a[i], b[i])
}

pub open spec fn same_field<N: Num>(a: Option<Node<N>>, b: Option<Node<N>>) -> bool {
    match (a, b) {
        (Some(m), Some(n)) => m.editor == n.editor && m.interact == n.interact,
        (None, None) => true,
        _ => false,
    }
}

/// What a text field is to show.
pub open spec fn field_text<N: Num>(n: Node<N>, store: Seq<Cell<N>>) -> Seq<char> {
    let ed = n.editor->0;
    if shows_placeholder(ed, shows_focus(n, store)) {
        ed.placeholder@
    } else {
        ed.value@
    }
}

pub open spec fn field_color<N: Num>(n: Node<N>, store: Seq<Cell<N>>) -> [N; 4] {
    let ed = n.editor->0;
    if shows_placeholder(ed, shows_focus(n, store)) {
        ed.placeholder_color
    } else {
        ed.text_color
    }
}

/// Node `i` is no text field, or shows what it is to show.
pub open spec fn field_shown<N: Num>(nodes: Seq<Option<Node<N>>>, store: Seq<Cell<N>>, i: int) -> bool {
    nodes[i] is Some && nodes[i]->0.editor is Some && live(
        nodes,
        nodes[i]->0.editor->0.text_node,
    ) ==> {
        let n = nodes[i]->0;
        let t = node_at(nodes, n.editor->0.text_node);
        &&& t.text is Some ==> t.text->0.content@ == field_text(n, store)
        &&& t.color == field_color(n, store) || equals4(t.color, field_color(n, store))
    }
}

/// No two text fields show their text in the same node.
pub open spec fn text_nodes_distinct<N: Num>(nodes: Seq<Option<Node<N>>>) -> bool {
    forall|i: int, j: int|
        0 <= i < nodes.len() && 0 <= j < nodes.len() && i != j && (#[trigger] nodes[i]) is Some
            && (#[trigger] nodes[j]) is Some && nodes[i]->0.editor is Some && nodes[j]->0.editor
            is Some ==> nodes[i]->0.editor->0.text_node != nodes[j]->0.editor->0.text_node
}

/// Refreshing one field shows it, keeps the others shown, and touches no
/// editor.
proof fn refreshing_shows<N: Num>(l: Look<N>, store: Seq<Cell<N>>, i: int)
    requires
        0 <= i < l.nodes.len(),
        text_nodes_distinct(l.nodes),
    ensures
        ({
            let after = field_refreshed(l, store, i).nodes;
            &&& same_fields(l.nodes, after)
            &&& text_nodes_distinct(after)
            &&& field_shown(after, store, i)
            &&& forall|j: int|
                0 <= j < l.nodes.len() && #[trigger] field_shown(l.nodes, store, j)
                    ==> field_shown(after, store, j)
        }),
{
    let after = field_refreshed(l, store, i).nodes;
    assert forall|j: int| 0 <= j < l.nodes.len() implies same_field(
        #[trigger] l.nodes[j],
        after[j],
    ) by {}
    assert(text_nodes_distinct(after)) by {
        assert forall|a: int, b: int|
            0 <= a < after.len() && 0 <= b < after.len() && a != b && (#[trigger] after[a]) is Some
                && (#[trigger] after[b]) is Some && after[a]->0.editor is Some
                && after[b]->0.editor is Some implies after[a]->0.editor->0.text_node
            != after[b]->0.editor->0.text_node by {
            assert(same_field(l.nodes[a], after[a]));
            assert(same_field(l.nodes[b], after[b]));
        }
    }
    assert(same_field(l.nodes[i], after[i]));
    assert forall|j: int|
        0 <= j < l.nodes.len() && #[trigger] field_shown(
            l.nodes,
            store,
            j,
        ) implies field_shown(after, store, j) by {
        assert(same_field(l.nodes[j], after[j]));
        if j != i && l.nodes[j] is Some && l.nodes[j]->0.editor is Some && l.nodes[i] is Some
            && l.nodes[i]->0.editor is Some {
            let mine = l.nodes[j]->0.editor->0.text_node;
            let other = l.nodes[i]->0.editor->0.text_node;
            assert(mine != other);
            if live(l.nodes, mine) {
                assert(node_at(after, mine) == node_at(l.nodes, mine));
            }
        }
    }
}

proof fn all_fields_shown<N: Num>(l: Look<N>, store: Seq<Cell<N>>, n: nat)
    requires
        n <= l.nodes.len(),
        text_nodes_distinct(l.nodes),
    ensures
        ({
            let after = fields_refreshed(l, store, n).nodes;
            &&& after.len() == l.nodes.len()
            &&& text_nodes_distinct(after)
            &&& forall|j: int| 0 <= j < n ==> #[trigger] field_shown(after, store, j)
        }),
    decreases n,
{
    if n > 0 {
        all_fields_shown(l, store, (n - 1) as nat);
        let before = fields_refreshed(l, store, (n - 1) as nat);
        refreshing_shows(before, store, n - 1);
        let after = fields_refreshed(l, store, n).nodes;
        assert(after == field_refreshed(before, store, n - 1).nodes);
        assert forall|j: int| 0 <= j < n implies #[trigger] field_shown(after, store, j) by {
            if j < n - 1 {
                assert(field_shown(before.nodes, store, j));
            }
        }
    }
}

/// A field that is shown is left as it is.
proof fn shown_field_stays<N: Num>(l: Look<N>, store: Seq<Cell<N>>, i: int)
    requires
        0 <= i < l.nodes.len(),
        field_shown(l.nodes, store, i),
    ensures
        field_refreshed(l, store, i).nodes == l.nodes,
        (forall|c: [N; 4]| #[trigger] equals4(c, c)) ==> field_refreshed(l, store, i) == l,
{
    let after = field_refreshed(l, store, i);
    if l.nodes[i] is Some && l.nodes[i]->0.editor is Some {
        let n = l.nodes[i]->0;
        let id = n.editor->0.text_node;
        let c = field_color(n, store);
        if live(l.nodes, id) {
            let t = node_at(l.nodes, id);
            if t.color == c {
                assert(Node { color: c, ..t } == t);
            }
            assert(after.nodes =~= l.nodes);
        }
    }
}

proof fn shown_fields_stay<N: Num>(l: Look<N>, store: Seq<Cell<N>>, n: nat)
    requires
        n <= l.nodes.len(),
        forall|j: int| 0 <= j < l.nodes.len() ==> #[trigger] field_shown(l.nodes, store, j),
    ensures
        fields_refreshed(l, store, n).nodes == l.nodes,
        (forall|c: [N; 4]| #[trigger] equals4(c, c)) ==> fields_refreshed(l, store, n) == l,
    decreases n,
{
    if n > 0 {
        shown_fields_stay(l, store, (n - 1) as nat);
        let before = fields_refreshed(l, store, (n - 1) as nat);
        assert(field_shown(l.nodes, store, n - 1));
        shown_field_stays(before, store, n - 1);
    }
}

/// Refreshing the text fields a second time changes no node, and marks
/// nothing either where numbers are equal to themselves, unless two fields
/// contend for one text node.
pub proof fn refreshing_again_changes_nothing<N: Num>(l: Look<N>, store: Seq<Cell<N>>)
    requires
        text_nodes_distinct(l.nodes),
    ensures
        ({
            let once = fields_refreshed(l, store, l.nodes.len());
            let twice = fields_refreshed(once, store, l.nodes.len());
            &&& twice.nodes == once.nodes
            &&& (forall|c: [N; 4]| #[trigger] equals4(c, c)) ==> twice == once
        }),
{
    all_fields_shown(l, store, l.nodes.len());
    let once = fields_refreshed(l, store, l.nodes.len());
    assert forall|j: int| 0 <= j < once.nodes.len() implies #[trigger] field_shown(
        once.nodes,
        store,
        j,
    ) by {}
    shown_fields_stay(once, store, l.nodes.len());
}

/// Makes every text field show its text or its placeholder.
pub fn refresh_text_fields<N: Num>(tree: &mut NodeTree<N>, signals: &Signals<N>)
    requires
        old(tree).wf(),
        focus_cells_exist(old(tree).nodes(), signals@.len()),
    ensures
        final(tree).wf(),
        final(tree).root_ids() == old(tree).root_ids(),
        look_of(*final(tree)) == fields_refreshed(
            look_of(*old(tree)),
            signals@,
            old(tree).nodes().len(),
        ),
        same_fields(old(tree).nodes(), final(tree).nodes()),
{
    let ghost nodes = tree.nodes();
    let ghost look = look_of(*tree);
    proof {
        forest_size(nodes, tree.root_ids());
    }
    let n: usize = tree.capacity();
    let mut i: usize = 0;
    while i < n
        invariant
            i <= n,
            n == nodes.len(),
            n <= u32::MAX,
            tree.wf(),
            tree.root_ids() == old(tree).root_ids(),
            look_of(*tree) == fields_refreshed(look, signals@, i as nat),
            same_fields(nodes, tree.nodes()),
            focus_cells_exist(nodes, signals@.len()),
        decreases n - i,
    {
        let id: NodeId = NodeId { index: i as u32 };
        let ghost before = look_of(*tree);
        let ghost here = tree.nodes();
        assert(same_field(nodes[i as int], here[i as int]));
        let show: Option<(NodeId, String, [N; 4])> = match tree.get(id) {
            Some(node) => match &node.editor {
                Some(ed) => {
                    let focused: bool = has_focus(node.interact.focused, signals);
                    if ed.value.as_str().is_empty() && !focused
                        && !ed.placeholder.as_str().is_empty() {
                        Some((ed.text_node, ed.placeholder.clone(), ed.placeholder_color))
                    } else {
                        Some((ed.text_node, ed.value.clone(), ed.text_color))
                    }
                },
                None => None,
            },
            None => None,
        };
        if let Some((text_node, display, color)) = show {
            tree.set_text(text_node, display);
            tree.set_color(text_node, color);
        }
        proof {
            assert(look_of(*tree) == field_refreshed(before, signals@, i as int));
            assert forall|j: int| 0 <= j < nodes.len() implies same_field(
                #[trigger] nodes[j],
                tree.nodes()[j],
            ) by {
                assert(same_field(nodes[j], here[j]));
            }
        }
        i = i + 1;
    }
}

/// Where the caret of a text field is, given the rectangle of its text.
pub open spec fn caret_rect<N: Num, M: Measurer<N>>(
    m: &M,
    ed: EditorState<N>,
    text_rect: [N; 4],
    scale: N,
) -> [N; 4] {
    [
        text_rect[0].sum(width_upto(m, ed.value@, ed.cursor as int, ed.font_size, scale)),
        text_rect[1],
        N::fraction(2, 1).product(scale),
        text_rect[3],
    ]
}

/// Where the highlight of a selection is.
pub open spec fn selection_rect<N: Num, M: Measurer<N>>(
    m: &M,
    ed: EditorState<N>,
    lo: int,
    hi: int,
    text_rect: [N; 4],
    scale: N,
) -> [N; 4] {
    let from = width_upto(m, ed.value@, lo, ed.font_size, scale);
    let to = width_upto(m, ed.value@, hi, ed.font_size, scale);
    [
        text_rect[0].sum(from),
        text_rect[1],
        to.difference(from).larger(zero()),
        text_rect[3],
    ]
}

/// The rectangle of a node; nothing where there is none.
pub open spec fn rect_at<N: Num>(nodes: Seq<Option<Node<N>>>, id: NodeId) -> [N; 4] {
    if live(nodes, id) {
        node_at(nodes, id).rect
    } else {
        [zero(), zero(), zero(), zero()]
    }
}

/// The nodes after one was put somewhere, shown or hidden.
pub open spec fn overlay_set<N: Num>(
    nodes: Seq<Option<Node<N>>>,
    id: NodeId,
    rect: Option<[N; 4]>,
    visible: bool,
) -> Seq<Option<Node<N>>> {
    with_node(
        nodes,
        id,
        Node {
            rect: match rect {
                Some(r) => r,
                None => node_at(nodes, id).rect,
            },
            visible,
            ..node_at(nodes, id)
        },
    )
}

/// The nodes after the caret and the highlight of text field `i` were put in
/// their places: the caret is shown while the field has the focus, the
/// highlight while something is selected.
pub open spec fn caret_placed<N: Num, M: Measurer<N>>(
    m: &M,
    nodes: Seq<Option<Node<N>>>,
    store: Seq<Cell<N>>,
    scale: N,
    i: int,
) -> Seq<Option<Node<N>>> {
    if nodes[i] is Some && nodes[i]->0.editor is Some {
        let ed = nodes[i]->0.editor->0;
        let text_rect = rect_at(nodes, ed.text_node);
        let put = overlay_set(
            nodes,
            ed.caret_node,
            Some(caret_rect(m, ed, text_rect, scale)),
            shows_focus(nodes[i]->0, store),
        );
        match span(field_of(ed)) {
            Some((lo, hi)) => overlay_set(
                put,
                ed.selection_node,
                Some(selection_rect(m, ed, lo, hi, text_rect, scale)),
                true,
            ),
            None => overlay_set(put, ed.selection_node, None, false),
        }
    } else {
        nodes
    }
}

/// The nodes after that was done for the first `n` of them.
pub open spec fn carets_placed<N: Num, M: Measurer<N>>(
    m: &M,
    nodes: Seq<Option<Node<N>>>,
    store: Seq<Cell<N>>,
    scale: N,
    n: nat,
) -> Seq<Option<Node<N>>>
    decreases n,
{
    if n == 0 {
        nodes
    } else {
        caret_placed(m, carets_placed(m, nodes, store, scale, (n - 1) as nat), store, scale, n - 1)
    }
}

/// Every editor is well formed.
pub open spec fn editors_ok<N: Num>(nodes: Seq<Option<Node<N>>>) -> bool {
    forall|i: int|
        0 <= i < nodes.len() ==> (#[trigger] nodes[i] matches Some(n) ==> (n.editor matches Some(
            ed,
        ) ==> field_wf(field_of(ed))))
}

/// Puts the caret and the highlight of every text field in their places,
/// after layout.
pub fn reposition_carets<N: Num, M: Measurer<N>>(
    tree: &mut NodeTree<N>,
    signals: &Signals<N>,
    m: &M,
    scale: N,
)
    requires
        old(tree).wf(),
        focus_cells_exist(old(tree).nodes(), signals@.len()),
        editors_ok(old(tree).nodes()),
    ensures
        final(tree).wf(),
        final(tree).root_ids() == old(tree).root_ids(),
        final(tree).dirty_mask() == old(tree).dirty_mask(),
        final(tree).nodes() == carets_placed(
            m,
            old(tree).nodes(),
            signals@,
            scale,
            old(tree).nodes().len(),
        ),
        same_fields(old(tree).nodes(), final(tree).nodes()),
{
    let ghost nodes = tree.nodes();
    proof {
        forest_size(nodes, tree.root_ids());
    }
    let n: usize = tree.capacity();
    let mut i: usize = 0;
    while i < n
        invariant
            i <= n,
            n == nodes.len(),
            n <= u32::MAX,
            tree.wf(),
            tree.root_ids() == old(tree).root_ids(),
            tree.dirty_mask() == old(tree).dirty_mask(),
            tree.nodes() == carets_placed(m, nodes, signals@, scale, i as nat),
            same_fields(nodes, tree.nodes()),
            focus_cells_exist(nodes, signals@.len()),
            editors_ok(nodes),
        decreases n - i,
    {
        let id: NodeId = NodeId { index: i as u32 };
        let ghost here = tree.nodes();
        assert(same_field(nodes[i as int], here[i as int]));
        let z: N = N::of_ratio(0, 1);
        let mut places: Option<(NodeId, [N; 4], bool, NodeId, Option<[N; 4]>)> = None;
        if let Some(node) = tree.get(id) {
            if let Some(ed) = &node.editor {
                assert(field_wf(field_of(*ed)));
                let text_rect: [N; 4] = match tree.get(ed.text_node) {
                    Some(t) => t.rect,
                    None => [z, z, z, z],
                };
                let upto: N = measure_upto(m, ed.value.as_str(), ed.cursor, ed.font_size, scale);
                let caret: [N; 4] = [
                    text_rect[0].plus(upto),
                    text_rect[1],
                    N::of_ratio(2, 1).times(scale),
                    text_rect[3],
                ];
                let marked: Option<[N; 4]> = match selection_range(ed) {
                    Some((lo, hi)) => {
                        let from: N = measure_upto(m, ed.value.as_str(), lo, ed.font_size, scale);
                        let to: N = measure_upto(m, ed.value.as_str(), hi, ed.font_size, scale);
                        Some(
                            [
                                text_rect[0].plus(from),
                                text_rect[1],
                                to.minus(from).max(z),
                                text_rect[3],
                            ],
                        )
                    },
                    None => None,
                };
                let focused: bool = has_focus(node.interact.focused, signals);
                places = Some((ed.caret_node, caret, focused, ed.selection_node, marked));
            }
        }
        if let Some((caret_node, caret, focused, selection_node, marked)) = places {
            tree.set_overlay(caret_node, Some(caret), focused);
            tree.set_overlay(selection_node, marked, marked.is_some());
        }
        proof {
            assert(tree.nodes() == caret_placed(m, here, signals@, scale, i as int));
            assert forall|j: int| 0 <= j < nodes.len() implies same_field(
                #[trigger] nodes[j],
                tree.nodes()[j],
            ) by {
                assert(same_field(nodes[j], here[j]));
            }
        }
        i = i + 1;
    }
}

/// A caret is shown and hidden in turns of 530 milliseconds: half a period
/// later it is the other way round, and it is when the next change is due.
pub proof fn carets_blink_evenly(b: CaretBlink, now: u64, later: u64)
    requires
        b.anchor <= now,
    ensures
        later == now + 530_000_000 ==> blink_on(b, later) == !blink_on(b, now),
        later == blink_next(b, now) ==> blink_on(b, later) == !blink_on(b, now),
        now < blink_next(b, now) <= now + 530_000_000,
        now < later && later + 1_000_000 <= blink_next(b, now) ==> blink_on(b, later) == blink_on(
            b,
            now,
        ),
        blink_on(b, b.anchor),
{
    let (m, h) = (blink_ms(b, now), 530int);
    let q = m / h;
    assert(m == q * h + m % h);
    if later == now + 530_000_000 {
        assert(blink_ms(b, later) == m + 530);
        assert((m + 530) / h == q + 1);
    }
    if later == blink_next(b, now) {
        assert(blink_ms(b, later) == m + (530 - m % h));
        assert((q * h + h) / h == q + 1);
    }
    if now < later && later + 1_000_000 <= blink_next(b, now) {
        let l = blink_ms(b, later);
        assert(m <= l < q * h + h);
        assert(l / h == q);
    }
}

/// In exact numbers, how far the caret at byte `idx` is from `x`.
pub open spec fn off_by<N: Num, M: Measurer<N>>(
    value: spec_fn(N) -> real,
    m: &M,
    text: Seq<char>,
    idx: int,
    font_size: N,
    scale: N,
    origin: N,
    x: N,
) -> real {
    let d = value(origin) + value(width_upto(m, text, idx, font_size, scale)) - value(x);
    if d < 0real {
        -d
    } else {
        d
    }
}

/// A press puts the caret at the character boundary whose caret is nearest to
/// it, and at the first of those that are as near.
pub proof fn carets_go_to_the_nearest_boundary<N: Num, M: Measurer<N>>(
    value: spec_fn(N) -> real,
    m: &M,
    text: Seq<char>,
    font_size: N,
    scale: N,
    origin: N,
    x: N,
    n: nat,
)
    requires
        computes_exactly(value),
        forall|i: int|
            0 <= i < n ==> #[trigger] off_by(value, m, text, i, font_size, scale, origin, x)
                < value(N::greatest()),
    ensures
        ({
            let r = nearest_caret(m, text, font_size, scale, origin, x, n).0;
            forall|i: int|
                0 <= i < n && #[trigger] is_char_boundary(encode_utf8(text), i) ==> {
                    let d = off_by(value, m, text, i, font_size, scale, origin, x);
                    &&& 0 <= r < n
                    &&& is_char_boundary(encode_utf8(text), r)
                    &&& off_by(value, m, text, r, font_size, scale, origin, x) <= d
                    &&& i < r ==> off_by(value, m, text, r, font_size, scale, origin, x) < d
                }
        }),
{
    nearest_is_nearest(value, m, text, font_size, scale, origin, x, n);
    let r = nearest_caret(m, text, font_size, scale, origin, x, n);
    assert forall|i: int|
        0 <= i < n && #[trigger] is_char_boundary(encode_utf8(text), i) implies ({
        let d = off_by(value, m, text, i, font_size, scale, origin, x);
        &&& 0 <= r.0 < n
        &&& is_char_boundary(encode_utf8(text), r.0)
        &&& off_by(value, m, text, r.0, font_size, scale, origin, x) <= d
        &&& i < r.0 ==> off_by(value, m, text, r.0, font_size, scale, origin, x) < d
    }) by {
        let d = off_by(value, m, text, i, font_size, scale, origin, x);
        assert(value(r.1) <= d);
        assert(d < value(N::greatest()));
    }
}

proof fn nearest_is_nearest<N: Num, M: Measurer<N>>(
    value: spec_fn(N) -> real,
    m: &M,
    text: Seq<char>,
    font_size: N,
    scale: N,
    origin: N,
    x: N,
    n: nat,
)
    requires
        computes_exactly(value),
        forall|i: int|
            0 <= i < n ==> #[trigger] off_by(value, m, text, i, font_size, scale, origin, x)
                < value(N::greatest()),
    ensures
        ({
            let (r, best) = nearest_caret(m, text, font_size, scale, origin, x, n);
            &&& (r == 0 && best == N::greatest()) || (0 <= r < n && is_char_boundary(
                encode_utf8(text),
                r,
            ) && value(best) == off_by(value, m, text, r, font_size, scale, origin, x))
            &&& forall|i: int|
                0 <= i < n && #[trigger] is_char_boundary(encode_utf8(text), i) ==> {
                    let d = off_by(value, m, text, i, font_size, scale, origin, x);
                    &&& value(best) <= d
                    &&& i < r ==> value(best) < d
                }
        }),
    decreases n,
{
    if n > 0 {
        nearest_is_nearest(value, m, text, font_size, scale, origin, x, (n - 1) as nat);
        let d = caret_distance(m, text, n - 1, font_size, scale, origin, x);
        assert(value(d) == off_by(value, m, text, n - 1, font_size, scale, origin, x));
    }
}

/// A press on the very place of a caret finds a boundary with a caret there.
pub proof fn carets_are_found_where_they_are<N: Num, M: Measurer<N>>(
    value: spec_fn(N) -> real,
    m: &M,
    ed: EditorState<N>,
    text_rect: [N; 4],
    scale: N,
    n: nat,
)
    requires
        computes_exactly(value),
        ed.cursor < n,
        is_char_boundary(encode_utf8(ed.value@), ed.cursor as int),
        ({
            let x = caret_rect(m, ed, text_rect, scale)[0];
            forall|i: int|
                0 <= i < n ==> #[trigger] off_by(
                    value,
                    m,
                    ed.value@,
                    i,
                    ed.font_size,
                    scale,
                    text_rect[0],
                    x,
                ) < value(N::greatest())
        }),
    ensures
        ({
            let c = caret_rect(m, ed, text_rect, scale);
            let r = nearest_caret(m, ed.value@, ed.font_size, scale, text_rect[0], c[0], n).0;
            &&& 0 <= r <= ed.cursor
            &&& value(
                caret_rect(
                    m,
                    EditorState { cursor: r as usize, ..ed },
                    text_rect,
                    scale,
                )[0],
            ) == value(c[0])
        }),
{
    let x = caret_rect(m, ed, text_rect, scale)[0];
    carets_go_to_the_nearest_boundary(
        value,
        m,
        ed.value@,
        ed.font_size,
        scale,
        text_rect[0],
        x,
        n,
    );
    assert(off_by(
        value,
        m,
        ed.value@,
        ed.cursor as int,
        ed.font_size,
        scale,
        text_rect[0],
        x,
    ) == 0real);
}

/// A caret is two logical pixels wide and as high as the text. The highlight of
/// a selection runs from the caret at its start to the caret at its end, and is
/// as high.
pub proof fn highlights_run_from_caret_to_caret<N: Num, M: Measurer<N>>(
    value: spec_fn(N) -> real,
    m: &M,
    ed: EditorState<N>,
    lo: usize,
    hi: usize,
    text_rect: [N; 4],
    scale: N,
)
    requires
        computes_exactly(value),
    ensures
        ({
            let s = selection_rect(m, ed, lo as int, hi as int, text_rect, scale);
            let a = caret_rect(m, EditorState { cursor: lo, ..ed }, text_rect, scale);
            let b = caret_rect(m, EditorState { cursor: hi, ..ed }, text_rect, scale);
            &&& value(s[0]) == value(a[0])
            &&& value(a[0]) <= value(b[0]) ==> value(s[0]) + value(s[2]) == value(b[0])
            &&& value(b[0]) < value(a[0]) ==> value(s[2]) == 0real
            &&& s[1] == text_rect[1] && s[3] == text_rect[3]
            &&& a[1] == text_rect[1] && a[3] == text_rect[3]
            &&& value(a[2]) == 2real * value(scale)
        }),
{
    fractions_are_exact(value);
    assert((2i32 as real) == 2real);
}

/// A press leaves nothing selected, with the caret where it went; a drag from
/// there selects what lies between.
pub proof fn drags_select_from_the_press<N>(ed: EditorState<N>, at: usize, to: usize)
    ensures
        ({
            let pressed = caret_moved(ed, at, true);
            let dragged = caret_moved(pressed, to, false);
            &&& pressed.cursor == at
            &&& span(field_of(pressed)) is None
            &&& dragged.cursor == to
            &&& at != to ==> span(field_of(dragged)) == Some(
                if at < to {
                    (at as int, to as int)
                } else {
                    (to as int, at as int)
                },
            )
            &&& dragged.value == ed.value
        }),
{
}

/// The caret of a text field is shown where it is while the field has the
/// focus; the highlight is shown while something is selected.
pub proof fn carets_show_the_focus<N: Num, M: Measurer<N>>(
    m: &M,
    nodes: Seq<Option<Node<N>>>,
    store: Seq<Cell<N>>,
    scale: N,
    i: int,
)
    requires
        0 <= i < nodes.len(),
        nodes[i] is Some,
        nodes[i]->0.editor is Some,
        live(nodes, nodes[i]->0.editor->0.caret_node),
        live(nodes, nodes[i]->0.editor->0.selection_node),
        live(nodes, nodes[i]->0.editor->0.text_node),
        nodes[i]->0.editor->0.caret_node != nodes[i]->0.editor->0.selection_node,
    ensures
        ({
            let ed = nodes[i]->0.editor->0;
            let after = caret_placed(m, nodes, store, scale, i);
            let text = node_at(nodes, ed.text_node).rect;
            let (c, s) = (node_at(after, ed.caret_node), node_at(after, ed.selection_node));
            &&& c.visible == shows_focus(nodes[i]->0, store)
            &&& c.rect == caret_rect(m, ed, text, scale)
            &&& s.visible <==> ed.selection_anchor is Some && ed.selection_anchor->0 != ed.cursor
            &&& s.visible ==> ({
                let a = ed.selection_anchor->0;
                s.rect == selection_rect(
                    m,
                    ed,
                    if a < ed.cursor {
                        a as int
                    } else {
                        ed.cursor as int
                    },
                    if a < ed.cursor {
                        ed.cursor as int
                    } else {
                        a as int
                    },
                    text,
                    scale,
                )
            })
            &&& forall|j: int|
                0 <= j < nodes.len() && j != ed.caret_node.index && j != ed.selection_node.index
                    ==> #[trigger] after[j] == nodes[j]
        }),
{
}

/// In exact numbers, setting the opacity of a node sets it, and touches no
/// other node.
pub proof fn opacities_are_set<N: Num>(
    value: spec_fn(N) -> real,
    nodes: Seq<Option<Node<N>>>,
    id: NodeId,
    opacity: N,
)
    requires
        computes_exactly(value),
        live(nodes, id),
    ensures
        ({
            let after = opacity_set(nodes, id, opacity);
            &&& live(after, id)
            &&& value(node_at(after, id).opacity) == value(opacity)
            &&& forall|j: int|
                0 <= j < nodes.len() && j != id.index ==> #[trigger] after[j] == nodes[j]
            &&& value(node_at(nodes, id).opacity) == value(opacity) ==> after == nodes
        }),
{
}

/// After an edit that changed the text of a field, the field's text node shows
/// the text that the field holds.
pub proof fn edits_are_shown<N: Num>(
    before: Look<N>,
    after: Look<N>,
    field: NodeId,
    op: EditOp,
    r: Option<EditOutcome>,
)
    requires
        edit_done(before, after, field, op, r),
        editor_at(before.nodes, field) is Some,
        r is Some,
        r->0.value_changed,
        ({
            let text = editor_at(before.nodes, field)->0.text_node;
            &&& text != field
            &&& live(before.nodes, text)
            &&& node_at(before.nodes, text).text is Some
        }),
    ensures
        ({
            let text = editor_at(before.nodes, field)->0.text_node;
            &&& editor_at(after.nodes, field) is Some
            &&& node_at(after.nodes, text).text is Some
            &&& node_at(after.nodes, text).text->0.content@ == editor_at(
                after.nodes,
                field,
            )->0.value@
        }),
{
    let ed = editor_at(before.nodes, field)->0;
    let st = choose|st: EditorState<N>|
        {
            &&& #[trigger] field_of(st) == edited(op, field_of(ed)).0
            &&& field_wf(field_of(st))
            &&& same_rest(ed, st)
            &&& effect_of(r->0) == edited(op, field_of(ed)).1
            &&& after == edit_applied(before, field, st, r->0)
        };
    assert(st.text_node == ed.text_node);
    let put = with_node(
        before.nodes,
        field,
        Node { editor: Some(st), ..node_at(before.nodes, field) },
    );
    assert(put[ed.text_node.index as int] == before.nodes[ed.text_node.index as int]);
}

/// A text field shows its placeholder while it is empty and does not have the
/// focus, and its text otherwise, in the colour for it.
pub proof fn empty_fields_show_their_placeholder<N: Num>(
    value: spec_fn(N) -> real,
    l: Look<N>,
    store: Seq<Cell<N>>,
    i: int,
)
    requires
        computes_exactly(value),
        0 <= i < l.nodes.len(),
        l.nodes[i] is Some,
        l.nodes[i]->0.editor is Some,
        live(l.nodes, l.nodes[i]->0.editor->0.text_node),
        node_at(l.nodes, l.nodes[i]->0.editor->0.text_node).text is Some,
    ensures
        ({
            let ed = l.nodes[i]->0.editor->0;
            let after = field_refreshed(l, store, i);
            let t = node_at(after.nodes, ed.text_node);
            let empty = ed.value@.len() == 0 && ed.placeholder@.len() > 0 && !shows_focus(
                l.nodes[i]->0,
                store,
            );
            let color = if empty {
                ed.placeholder_color
            } else {
                ed.text_color
            };
            &&& t.text is Some
            &&& empty ==> t.text->0.content@ == ed.placeholder@
            &&& !empty ==> t.text->0.content@ == ed.value@
            &&& forall|k: int| 0 <= k < 4 ==> value(#[trigger] t.color[k]) == value(color[k])
        }),
{
    let ed = l.nodes[i]->0.editor->0;
    let hint = shows_placeholder(ed, shows_focus(l.nodes[i]->0, store));
    let text = if hint {
        ed.placeholder
    } else {
        ed.value
    };
    let color = if hint {
        ed.placeholder_color
    } else {
        ed.text_color
    };
    let mid = text_shown(l, ed.text_node, text);
    crate::app::binds::shown_values_are_seen(
        value,
        BindKind::Color,
        mid,
        ed.text_node,
        Value::Quad(color),
    );
    let after = shown(BindKind::Color, mid, ed.text_node, Value::Quad(color));
    let t = node_at(after.nodes, ed.text_node);
    assert(t.text == node_at(mid.nodes, ed.text_node).text);
    assert forall|k: int| 0 <= k < 4 implies value(#[trigger] t.color[k]) == value(color[k]) by {
        assert(k == 0 || k == 1 || k == 2 || k == 3);
    }
}

/// The node is the caret or the highlight of a text field.
pub open spec fn decorates<N: Num>(nodes: Seq<Option<Node<N>>>, id: NodeId, i: int) -> bool {
    nodes[i] is Some && nodes[i]->0.editor is Some && (nodes[i]->0.editor->0.caret_node == id
        || nodes[i]->0.editor->0.selection_node == id)
}

/// Every text field has its caret and its highlight in place, unless fields
/// contend for them: the caret of a field is where [`caret_rect`] puts it and is
/// shown while the field has the focus, and the highlight is shown while
/// something is selected.
pub proof fn every_caret_is_in_place<N: Num, M: Measurer<N>>(
    m: &M,
    nodes: Seq<Option<Node<N>>>,
    store: Seq<Cell<N>>,
    scale: N,
    n: nat,
    i: int,
)
    requires
        0 <= i < n <= nodes.len(),
        nodes[i] is Some,
        nodes[i]->0.editor is Some,
        live(nodes, nodes[i]->0.editor->0.caret_node),
        live(nodes, nodes[i]->0.editor->0.selection_node),
        live(nodes, nodes[i]->0.editor->0.text_node),
        nodes[i]->0.editor->0.caret_node != nodes[i]->0.editor->0.selection_node,
        forall|j: int|
            0 <= j < nodes.len() ==> !#[trigger] decorates(
                nodes,
                nodes[i]->0.editor->0.text_node,
                j,
            ),
        forall|j: int|
            0 <= j < nodes.len() && j != i ==> !#[trigger] decorates(
                nodes,
                nodes[i]->0.editor->0.caret_node,
                j,
            ),
        forall|j: int|
            0 <= j < nodes.len() && j != i ==> !#[trigger] decorates(
                nodes,
                nodes[i]->0.editor->0.selection_node,
                j,
            ),
    ensures
        ({
            let ed = nodes[i]->0.editor->0;
            let after = carets_placed(m, nodes, store, scale, n);
            let text = node_at(nodes, ed.text_node).rect;
            let (c, s) = (node_at(after, ed.caret_node), node_at(after, ed.selection_node));
            &&& c.rect == caret_rect(m, ed, text, scale)
            &&& c.visible == shows_focus(nodes[i]->0, store)
            &&& s.visible <==> ed.selection_anchor is Some && ed.selection_anchor->0 != ed.cursor
        }),
    decreases n,
{
    let k = (n - 1) as nat;
    let before = carets_placed(m, nodes, store, scale, k);
    let ed = nodes[i]->0.editor->0;
    placing_carets_keeps_fields(m, nodes, store, scale, k);
    assert(same_field(nodes[i], before[i]));
    if i == k {
        fields_stay_live(nodes, before, ed.caret_node);
        fields_stay_live(nodes, before, ed.selection_node);
        fields_stay_live(nodes, before, ed.text_node);
        texts_stay_in_place(m, nodes, store, scale, k, ed.text_node);
        carets_show_the_focus(m, before, store, scale, i);
    } else {
        every_caret_is_in_place(m, nodes, store, scale, k, i);
        assert(same_field(nodes[k as int], before[k as int]));
        assert(!decorates(nodes, ed.caret_node, k as int));
        assert(!decorates(nodes, ed.selection_node, k as int));
        others_stay_in_place(m, before, store, scale, k as int, ed.caret_node);
        others_stay_in_place(m, before, store, scale, k as int, ed.selection_node);
    }
}

proof fn fields_stay_live<N: Num>(
    a: Seq<Option<Node<N>>>,
    b: Seq<Option<Node<N>>>,
    id: NodeId,
)
    requires
        same_fields(a, b),
        live(a, id),
    ensures
        live(b, id),
{
    assert(same_field(a[id.index as int], b[id.index as int]));
}

proof fn others_stay_in_place<N: Num, M: Measurer<N>>(
    m: &M,
    nodes: Seq<Option<Node<N>>>,
    store: Seq<Cell<N>>,
    scale: N,
    i: int,
    id: NodeId,
)
    requires
        0 <= i < nodes.len(),
        !decorates(nodes, id, i),
    ensures
        caret_placed(m, nodes, store, scale, i).len() == nodes.len(),
        id.index < nodes.len() ==> caret_placed(m, nodes, store, scale, i)[id.index as int]
            == nodes[id.index as int],
{
    if nodes[i] is Some && nodes[i]->0.editor is Some {
        let ed = nodes[i]->0.editor->0;
        assert(ed.caret_node.index != id.index && ed.selection_node.index != id.index) by {
            assert(ed.caret_node != id && ed.selection_node != id);
        }
    }
}

proof fn placing_carets_keeps_fields<N: Num, M: Measurer<N>>(
    m: &M,
    nodes: Seq<Option<Node<N>>>,
    store: Seq<Cell<N>>,
    scale: N,
    n: nat,
)
    requires
        n <= nodes.len(),
    ensures
        same_fields(nodes, carets_placed(m, nodes, store, scale, n)),
    decreases n,
{
    if n > 0 {
        placing_carets_keeps_fields(m, nodes, store, scale, (n - 1) as nat);
    }
}

proof fn texts_stay_in_place<N: Num, M: Measurer<N>>(
    m: &M,
    nodes: Seq<Option<Node<N>>>,
    store: Seq<Cell<N>>,
    scale: N,
    n: nat,
    id: NodeId,
)
    requires
        n <= nodes.len(),
        live(nodes, id),
        forall|j: int| 0 <= j < nodes.len() ==> !#[trigger] decorates(nodes, id, j),
    ensures
        carets_placed(m, nodes, store, scale, n)[id.index as int] == nodes[id.index as int],
    decreases n,
{
    if n > 0 {
        texts_stay_in_place(m, nodes, store, scale, (n - 1) as nat, id);
        placing_carets_keeps_fields(m, nodes, store, scale, (n - 1) as nat);
        let before = carets_placed(m, nodes, store, scale, (n - 1) as nat);
        assert(same_field(nodes[n - 1], before[n - 1]));
        assert(!decorates(nodes, id, n - 1));
        others_stay_in_place(m, before, store, scale, n - 1, id);
    }
}

} // verus!
