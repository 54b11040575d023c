//! Text fields: a value, a caret, a selection, and the edits on them.
//!
//! Offsets are byte offsets into the UTF-8 text. The caret and the selection
//! anchor stay on character boundaries through every edit. The system
//! clipboard is not touched here: copying hands the text back, pasting is
//! given it.
use vstd::prelude::*;

use vstd::utf8::{
    encode_utf8, encode_utf8_decode_utf8, encode_utf8_valid_utf8, is_char_boundary,
    is_char_boundary_iff_not_is_continuation_byte, is_char_boundary_start_end_of_seq,
    is_continuation_byte, valid_utf8, valid_utf8_concat, valid_utf8_split,
};

use crate::node::NodeId;

verus! {

/// The state of a text field.
#[derive(Clone, Debug)]
pub struct EditorState<N> {
    pub value: String,
    /// Byte offset of the caret, at most the length of the value.
    pub cursor: usize,
    /// The other end of the selection; without one there is only a caret.
    pub selection_anchor: Option<usize>,
    /// Shown while the value is empty and the field has no focus.
    pub placeholder: String,
    /// Logical pixels.
    pub font_size: N,
    pub text_color: [N; 4],
    pub placeholder_color: [N; 4],
    /// Child that shows the text.
    pub text_node: NodeId,
    /// Child that shows the caret.
    pub caret_node: NodeId,
    /// Child that highlights the selection, behind the text.
    pub selection_node: NodeId,
}

/// An edit.
#[derive(Clone, Debug, PartialEq, Eq)]
pub enum EditOp {
    /// Types this text.
    Insert(String),
    /// Deletes the selection, or the character before the caret.
    DeleteBack,
    /// Deletes the selection, or the character after the caret.
    DeleteForward,
    MoveLeft,
    MoveRight,
    Home,
    End,
    /// Enter was pressed.
    Submit,
    SelectLeft,
    SelectRight,
    SelectHome,
    SelectEnd,
    SelectAll,
    /// Hands out the selected text.
    Copy,
    /// Hands out the selected text and deletes it.
    Cut,
    /// Inserts text that came from the clipboard.
    Paste(String),
}

/// What an edit did.
#[derive(Clone, Debug)]
pub struct EditOutcome {
    pub value_changed: bool,
    pub cursor_moved: bool,
    pub submitted: bool,
    pub selection_changed: bool,
    /// Text for the clipboard.
    pub clipboard_write: Option<String>,
}

impl EditOutcome {
    /// Whether the edit did anything.
    pub fn any(&self) -> (r: bool)
        ensures
            r == (self.value_changed || self.cursor_moved || self.submitted
                || self.selection_changed || self.clipboard_write is Some),
    {
        self.value_changed || self.cursor_moved || self.submitted || self.selection_changed
            || self.clipboard_write.is_some()
    }
}

impl Default for EditOutcome {
    fn default() -> (r: EditOutcome)
        ensures
            effect_of(r) == no_effect(),
    {
        EditOutcome {
            value_changed: false,
            cursor_moved: false,
            submitted: false,
            selection_changed: false,
            clipboard_write: None,
        }
    }
}

/// The editable part of a field: UTF-8 text, caret, and selection anchor.
#[verifier::ext_equal]
pub struct Field {
    pub text: Seq<u8>,
    pub cursor: int,
    pub anchor: Option<int>,
}

/// What an edit did, with the clipboard text as UTF-8.
#[verifier::ext_equal]
pub struct Effect {
    pub value_changed: bool,
    pub cursor_moved: bool,
    pub submitted: bool,
    pub selection_changed: bool,
    pub clipboard: Option<Seq<u8>>,
}

pub open spec fn no_effect() -> Effect {
    Effect {
        value_changed: false,
        cursor_moved: false,
        submitted: false,
        selection_changed: false,
        clipboard: None,
    }
}

pub open spec fn effect_of(out: EditOutcome) -> Effect {
    Effect {
        value_changed: out.value_changed,
        cursor_moved: out.cursor_moved,
        submitted: out.submitted,
        selection_changed: out.selection_changed,
        clipboard: match out.clipboard_write {
            Some(s) => Some(encode_utf8(s@)),
            None => None,
        },
    }
}

pub open spec fn field_of<N>(st: EditorState<N>) -> Field {
    Field {
        text: encode_utf8(st.value@),
        cursor: st.cursor as int,
        anchor: match st.selection_anchor {
            Some(a) => Some(a as int),
            None => None,
        },
    }
}

/// The text is UTF-8, and caret and anchor lie on character boundaries.
pub open spec fn field_wf(f: Field) -> bool {
    &&& valid_utf8(f.text)
    &&& is_char_boundary(f.text, f.cursor)
    &&& 0 <= f.cursor <= f.text.len()
    &&& match f.anchor {
        Some(a) => is_char_boundary(f.text, a) && 0 <= a <= f.text.len(),
        None => true,
    }
}

/// The selected bytes `lo..hi`, when there are any.
pub open spec fn span(f: Field) -> Option<(int, int)> {
    match f.anchor {
        Some(a) => if a < f.cursor {
            Some((a, f.cursor))
        } else if f.cursor < a {
            Some((f.cursor, a))
        } else {
            None
        },
        None => None,
    }
}

/// The nearest character boundary at or before `i`.
pub open spec fn boundary_at_or_before(text: Seq<u8>, i: int) -> int
    decreases i,
{
    if i <= 0 {
        0
    } else if is_char_boundary(text, i) {
        i
    } else {
        boundary_at_or_before(text, i - 1)
    }
}

/// The nearest character boundary at or after `i`.
pub open spec fn boundary_at_or_after(text: Seq<u8>, i: int) -> int
    decreases text.len() - i,
{
    if i >= text.len() {
        text.len() as int
    } else if is_char_boundary(text, i) {
        i
    } else {
        boundary_at_or_after(text, i + 1)
    }
}

/// The boundary before `i`: the start of the character that ends there.
pub open spec fn previous_boundary(text: Seq<u8>, i: int) -> int {
    if i <= 0 {
        0
    } else {
        boundary_at_or_before(text, i - 1)
    }
}

/// The boundary after `i`: the end of the character that starts there.
pub open spec fn following_boundary(text: Seq<u8>, i: int) -> int {
    if i >= text.len() {
        text.len() as int
    } else {
        boundary_at_or_after(text, i + 1)
    }
}

/// The text without `lo..hi`.
pub open spec fn text_without(text: Seq<u8>, lo: int, hi: int) -> Seq<u8> {
    text.take(lo) + text.skip(hi)
}

/// The field after its selection is deleted.
pub open spec fn without_selection(f: Field) -> Field {
    match span(f) {
        Some((lo, hi)) => Field { text: text_without(f.text, lo, hi), cursor: lo, anchor: None },
        None => Field { anchor: None, ..f },
    }
}

/// The field after `s` is inserted at the caret.
pub open spec fn with_inserted(f: Field, s: Seq<u8>) -> Field {
    Field {
        text: f.text.take(f.cursor) + s + f.text.skip(f.cursor),
        cursor: f.cursor + s.len(),
        anchor: f.anchor,
    }
}

/// The anchor that a selecting move starts from.
pub open spec fn anchored(f: Field) -> Option<int> {
    match f.anchor {
        Some(a) => Some(a),
        None => Some(f.cursor),
    }
}

/// A caret move that keeps or starts a selection.
pub open spec fn selecting_to(f: Field, to: int) -> Field {
    if f.cursor == to {
        f
    } else {
        Field { cursor: to, anchor: anchored(f), ..f }
    }
}

/// A caret move to an edge, which drops the selection.
pub open spec fn jumping_to(f: Field, to: int) -> Field {
    Field { cursor: to, anchor: None, ..f }
}

/// A caret move by one character toward `to`: a selection collapses to
/// `edge` instead, and at the end of the text nothing happens.
pub open spec fn stepping_to(f: Field, to: int, edge: int) -> Field {
    if span(f) is Some {
        Field { cursor: edge, anchor: None, ..f }
    } else if to == f.cursor {
        f
    } else {
        Field { cursor: to, anchor: None, ..f }
    }
}

/// A deletion: of the selection, or else of the bytes `lo..hi`.
pub open spec fn deleting(f: Field, lo: int, hi: int) -> Field {
    if span(f) is Some {
        without_selection(f)
    } else if lo == hi {
        Field { anchor: None, ..f }
    } else {
        Field { text: text_without(f.text, lo, hi), cursor: lo, anchor: None }
    }
}

/// The selected text.
pub open spec fn selection(f: Field) -> Option<Seq<u8>> {
    match span(f) {
        Some((lo, hi)) => Some(f.text.subrange(lo, hi)),
        None => None,
    }
}

/// What an edit makes of a field.
pub open spec fn field_edited(op: EditOp, f: Field) -> Field {
    match op {
        EditOp::Insert(s) => if s@.len() == 0 {
            f
        } else {
            with_inserted(without_selection(f), encode_utf8(s@))
        },
        EditOp::Paste(s) => with_inserted(without_selection(f), encode_utf8(s@)),
        EditOp::DeleteBack => deleting(f, previous_boundary(f.text, f.cursor), f.cursor),
        EditOp::DeleteForward => deleting(f, f.cursor, following_boundary(f.text, f.cursor)),
        EditOp::MoveLeft => stepping_to(
            f,
            previous_boundary(f.text, f.cursor),
            match span(f) {
                Some((lo, _)) => lo,
                None => 0,
            },
        ),
        EditOp::MoveRight => stepping_to(
            f,
            following_boundary(f.text, f.cursor),
            match span(f) {
                Some((_, hi)) => hi,
                None => 0,
            },
        ),
        EditOp::Home => jumping_to(f, 0),
        EditOp::End => jumping_to(f, f.text.len() as int),
        EditOp::SelectLeft => selecting_to(f, previous_boundary(f.text, f.cursor)),
        EditOp::SelectRight => selecting_to(f, following_boundary(f.text, f.cursor)),
        EditOp::SelectHome => selecting_to(f, 0),
        EditOp::SelectEnd => selecting_to(f, f.text.len() as int),
        EditOp::SelectAll => if f.text.len() == 0 {
            f
        } else {
            Field { cursor: f.text.len() as int, anchor: Some(0), ..f }
        },
        EditOp::Copy => f,
        EditOp::Cut => if span(f) is Some {
            without_selection(f)
        } else {
            f
        },
        EditOp::Submit => f,
    }
}

/// Whether an edit puts text in or takes text out.
pub open spec fn writes(op: EditOp, f: Field) -> bool {
    match op {
        EditOp::Insert(s) => s@.len() > 0,
        EditOp::Paste(s) => span(f) is Some || s@.len() > 0,
        EditOp::DeleteBack => span(f) is Some || f.cursor != previous_boundary(f.text, f.cursor),
        EditOp::DeleteForward => span(f) is Some || f.cursor != following_boundary(
            f.text,
            f.cursor,
        ),
        EditOp::Cut => span(f) is Some,
        _ => false,
    }
}

/// What an edit makes of a field, and what it reports: text that was
/// written, a caret that is elsewhere, a selected span that is another one,
/// and the text that copying and cutting hand out.
pub open spec fn edited(op: EditOp, f: Field) -> (Field, Effect) {
    let g = field_edited(op, f);
    (
        g,
        Effect {
            value_changed: writes(op, f),
            cursor_moved: g.cursor != f.cursor,
            submitted: op is Submit,
            selection_changed: span(g) != span(f),
            clipboard: if op is Copy || op is Cut {
                selection(f)
            } else {
                None
            },
        },
    )
}

/// Encoding distributes over concatenation.
pub(crate) proof fn encode_concat(a: Seq<char>, b: Seq<char>)
    ensures
        encode_utf8(a + b) == encode_utf8(a) + encode_utf8(b),
    decreases a.len(),
{
    if a.len() == 0 {
        assert(a + b =~= b);
        assert(encode_utf8(a) + encode_utf8(b) =~= encode_utf8(b));
    } else {
        assert((a + b).drop_first() =~= a.drop_first() + b);
        encode_concat(a.drop_first(), b);
        assert(encode_utf8(a + b) =~= encode_utf8(a) + encode_utf8(b));
    }
}

/// An encoding is empty exactly when there is nothing to encode.
pub(crate) proof fn encode_empty(a: Seq<char>)
    ensures
        encode_utf8(a).len() == 0 <==> a.len() == 0,
{
    encode_utf8_decode_utf8(a);
}

/// In UTF-8 text, the boundaries are the end and every byte that does not
/// continue a character.
pub(crate) proof fn boundary_meaning(text: Seq<u8>, i: int)
    requires
        valid_utf8(text),
        0 <= i <= text.len(),
    ensures
        is_char_boundary(text, i) == (i == text.len() || !is_continuation_byte(text[i])),
{
    is_char_boundary_start_end_of_seq(text);
    if i < text.len() {
        is_char_boundary_iff_not_is_continuation_byte(text, i);
    }
}

/// Boundaries of two texts are boundaries of their concatenation.
proof fn boundary_concat(a: Seq<u8>, b: Seq<u8>, i: int)
    requires
        valid_utf8(a),
        valid_utf8(b),
        0 <= i <= a.len() + b.len(),
    ensures
        valid_utf8(a + b),
        i < a.len() ==> is_char_boundary(a + b, i) == is_char_boundary(a, i),
        i >= a.len() ==> is_char_boundary(a + b, i) == is_char_boundary(b, i - a.len()),
{
    valid_utf8_concat(a, b);
    boundary_meaning(a + b, i);
    if i < a.len() {
        boundary_meaning(a, i);
    } else {
        boundary_meaning(b, i - a.len());
    }
}

/// Cutting UTF-8 text at two boundaries leaves UTF-8 text, with a boundary
/// where the cut was.
proof fn cut_at_boundaries(text: Seq<u8>, lo: int, hi: int)
    requires
        valid_utf8(text),
        is_char_boundary(text, lo),
        is_char_boundary(text, hi),
        0 <= lo <= hi <= text.len(),
    ensures
        valid_utf8(text_without(text, lo, hi)),
        is_char_boundary(text_without(text, lo, hi), lo),
        valid_utf8(text.take(lo)),
        valid_utf8(text.skip(hi)),
        is_char_boundary(text.take(hi), lo),
{
    valid_utf8_split(text, lo);
    valid_utf8_split(text, hi);
    assert(text.subrange(0, lo) =~= text.take(lo));
    assert(text.subrange(0, hi) =~= text.take(hi));
    assert(text.subrange(hi, text.len() as int) =~= text.skip(hi));
    is_char_boundary_start_end_of_seq(text.skip(hi));
    boundary_concat(text.take(lo), text.skip(hi), lo);
    boundary_meaning(text.take(hi), lo);
    boundary_meaning(text, lo);
}

/// The boundary found by walking back is a boundary, none lies between, and
/// it comes before the start of the walk.
pub(crate) proof fn walk_back_finds_boundary(text: Seq<u8>, i: int)
    requires
        valid_utf8(text),
        0 <= i <= text.len(),
    ensures
        is_char_boundary(text, boundary_at_or_before(text, i)),
        0 <= boundary_at_or_before(text, i) <= i,
        forall|k: int|
            boundary_at_or_before(text, i) < k <= i ==> !#[trigger] is_char_boundary(text, k),
    decreases i,
{
    is_char_boundary_start_end_of_seq(text);
    if i > 0 && !is_char_boundary(text, i) {
        walk_back_finds_boundary(text, i - 1);
    }
}

/// The boundary found by walking forward is a boundary, none lies between,
/// and it comes after the start of the walk.
pub(crate) proof fn walk_forward_finds_boundary(text: Seq<u8>, i: int)
    requires
        valid_utf8(text),
        0 <= i <= text.len(),
    ensures
        is_char_boundary(text, boundary_at_or_after(text, i)),
        i <= boundary_at_or_after(text, i) <= text.len(),
        forall|k: int|
            i <= k < boundary_at_or_after(text, i) ==> !#[trigger] is_char_boundary(text, k),
    decreases text.len() - i,
{
    is_char_boundary_start_end_of_seq(text);
    if i < text.len() && !is_char_boundary(text, i) {
        walk_forward_finds_boundary(text, i + 1);
    }
}

/// Byte length of a string.
fn byte_len(s: &str) -> (r: usize)
    ensures
        r == encode_utf8(s@).len(),
{
    s.as_bytes().len()
}

/// The boundary before `idx`, or zero at the start.
pub fn prev_char_boundary(s: &str, idx: usize) -> (r: usize)
    requires
        idx <= encode_utf8(s@).len(),
    ensures
        r == previous_boundary(encode_utf8(s@), idx as int),
{
    if idx == 0 {
        return 0;
    }
    let mut i: usize = idx - 1;
    while i > 0 && !s.is_char_boundary(i)
        invariant
            i < idx,
            boundary_at_or_before(encode_utf8(s@), i as int) == boundary_at_or_before(
                encode_utf8(s@),
                idx - 1,
            ),
        decreases i,
    {
        i -= 1;
    }
    i
}

/// The boundary after `idx`, or the length at the end.
pub fn next_char_boundary(s: &str, idx: usize) -> (r: usize)
    requires
        idx <= encode_utf8(s@).len(),
    ensures
        r == following_boundary(encode_utf8(s@), idx as int),
{
    let len: usize = byte_len(s);
    if idx >= len {
        return len;
    }
    let mut i: usize = idx + 1;
    while i < len && !s.is_char_boundary(i)
        invariant
            i <= len,
            len == encode_utf8(s@).len(),
            boundary_at_or_after(encode_utf8(s@), i as int) == boundary_at_or_after(
                encode_utf8(s@),
                idx + 1,
            ),
        decreases len - i,
    {
        i += 1;
    }
    i
}

/// The selected bytes `lo..hi`, when there are any.
pub fn selection_range<N>(st: &EditorState<N>) -> (r: Option<(usize, usize)>)
    ensures
        match r {
            Some((lo, hi)) => span(field_of(*st)) == Some((lo as int, hi as int)),
            None => span(field_of(*st)) is None,
        },
{
    match st.selection_anchor {
        Some(a) => if a < st.cursor {
            Some((a, st.cursor))
        } else if st.cursor < a {
            Some((st.cursor, a))
        } else {
            None
        },
        None => None,
    }
}

/// Whether two selections are the same bytes, or both none.
fn same_range(a: Option<(usize, usize)>, b: Option<(usize, usize)>) -> (r: bool)
    ensures
        r == (a == b),
{
    match (a, b) {
        (Some(x), Some(y)) => x.0 == y.0 && x.1 == y.1,
        (None, None) => true,
        _ => false,
    }
}

/// Copies `lo..hi` out of a string.
fn slice_of(s: &str, lo: usize, hi: usize) -> (r: String)
    requires
        lo <= hi <= encode_utf8(s@).len(),
        is_char_boundary(encode_utf8(s@), lo as int),
        is_char_boundary(encode_utf8(s@), hi as int),
    ensures
        encode_utf8(r@) == encode_utf8(s@).subrange(lo as int, hi as int),
{
    let ghost text = encode_utf8(s@);
    proof {
        encode_utf8_valid_utf8(s@);
        cut_at_boundaries(text, lo as int, hi as int);
    }
    let (head, _) = s.split_at(hi);
    assert(encode_utf8(head@) =~= text.take(hi as int));
    let (_, mid) = head.split_at(lo);
    assert(encode_utf8(mid@) =~= text.subrange(lo as int, hi as int));
    mid.to_owned()
}

/// Replaces `lo..hi` of a string by `with`.
fn spliced(s: &str, lo: usize, hi: usize, with: &str) -> (r: String)
    requires
        lo <= hi <= encode_utf8(s@).len(),
        is_char_boundary(encode_utf8(s@), lo as int),
        is_char_boundary(encode_utf8(s@), hi as int),
    ensures
        encode_utf8(r@) == encode_utf8(s@).take(lo as int) + encode_utf8(with@)
            + encode_utf8(s@).skip(hi as int),
{
    let ghost text = encode_utf8(s@);
    let (head, _) = s.split_at(lo);
    let (_, tail) = s.split_at(hi);
    let mut out: String = head.to_owned();
    out.append(with);
    out.append(tail);
    proof {
        assert(encode_utf8(head@) =~= text.take(lo as int));
        assert(encode_utf8(tail@) =~= text.skip(hi as int));
        encode_concat(head@, with@);
        encode_concat(head@ + with@, tail@);
    }
    out
}

/// The selected text, when there is any.
pub fn selected_text<N>(st: &EditorState<N>) -> (r: Option<String>)
    requires
        field_wf(field_of(*st)),
    ensures
        match r {
            Some(s) => selection(field_of(*st)) == Some(encode_utf8(s@)),
            None => selection(field_of(*st)) is None,
        },
{
    match selection_range(st) {
        Some((lo, hi)) => Some(slice_of(st.value.as_str(), lo, hi)),
        None => None,
    }
}

/// Every other part of the field is untouched.
pub open spec fn same_rest<N>(a: EditorState<N>, b: EditorState<N>) -> bool {
    &&& a.placeholder@ == b.placeholder@
    &&& a.font_size == b.font_size
    &&& a.text_color == b.text_color
    &&& a.placeholder_color == b.placeholder_color
    &&& a.text_node == b.text_node
    &&& a.caret_node == b.caret_node
    &&& a.selection_node == b.selection_node
}

/// Deletes the selection, if there is one, and drops the anchor. Returns
/// whether anything was deleted.
pub fn delete_selection<N>(st: &mut EditorState<N>) -> (r: bool)
    requires
        field_wf(field_of(*old(st))),
    ensures
        field_of(*final(st)) == without_selection(field_of(*old(st))),
        field_wf(field_of(*final(st))),
        r == (span(field_of(*old(st))) is Some),
        same_rest(*old(st), *final(st)),
{
    let ghost f = field_of(*st);
    match selection_range(st) {
        Some((lo, hi)) => {
            let value: String = spliced(st.value.as_str(), lo, hi, "");
            proof {
                reveal_strlit("");
                assert(""@ =~= Seq::<char>::empty());
                assert(encode_utf8(value@) =~= text_without(f.text, lo as int, hi as int));
                cut_at_boundaries(f.text, lo as int, hi as int);
            }
            st.value = value;
            st.cursor = lo;
            st.selection_anchor = None;
            true
        },
        None => {
            st.selection_anchor = None;
            false
        },
    }
}

/// Inserts text at the caret and moves the caret behind it.
fn insert_at_cursor<N>(st: &mut EditorState<N>, s: &str)
    requires
        field_wf(field_of(*old(st))),
        old(st).selection_anchor is None,
    ensures
        field_of(*final(st)) == with_inserted(field_of(*old(st)), encode_utf8(s@)),
        field_wf(field_of(*final(st))),
        same_rest(*old(st), *final(st)),
{
    let ghost f = field_of(*st);
    let value: String = spliced(st.value.as_str(), st.cursor, st.cursor, s);
    proof {
        let head = f.text.take(f.cursor);
        let ins = encode_utf8(s@);
        let tail = f.text.skip(f.cursor);
        cut_at_boundaries(f.text, f.cursor, f.cursor);
        encode_utf8_valid_utf8(s@);
        valid_utf8_concat(head, ins);
        is_char_boundary_start_end_of_seq(tail);
        boundary_concat(head + ins, tail, f.cursor + ins.len());
        assert(encode_utf8(value@).len() == head.len() + ins.len() + tail.len());
    }
    let total: usize = byte_len(value.as_str());
    let added: usize = byte_len(s);
    st.value = value;
    assert(st.cursor + added <= total);
    st.cursor = st.cursor + added;
}

/// Deletes the bytes `lo..hi`, leaving the caret at `lo` and no selection.
fn remove_bytes<N>(st: &mut EditorState<N>, lo: usize, hi: usize)
    requires
        field_wf(field_of(*old(st))),
        lo <= hi <= encode_utf8(old(st).value@).len(),
        is_char_boundary(encode_utf8(old(st).value@), lo as int),
        is_char_boundary(encode_utf8(old(st).value@), hi as int),
    ensures
        field_of(*final(st)) == (Field {
            text: text_without(encode_utf8(old(st).value@), lo as int, hi as int),
            cursor: lo as int,
            anchor: None,
        }),
        field_wf(field_of(*final(st))),
        same_rest(*old(st), *final(st)),
{
    let ghost f = field_of(*st);
    let value: String = spliced(st.value.as_str(), lo, hi, "");
    proof {
        reveal_strlit("");
        assert(""@ =~= Seq::<char>::empty());
        assert(encode_utf8(value@) =~= text_without(f.text, lo as int, hi as int));
        cut_at_boundaries(f.text, lo as int, hi as int);
    }
    st.value = value;
    st.cursor = lo;
    st.selection_anchor = None;
}

/// Applies an edit.
pub fn apply<N>(op: EditOp, st: &mut EditorState<N>) -> (out: EditOutcome)
    requires
        field_wf(field_of(*old(st))),
    ensures
        field_of(*final(st)) == edited(op, field_of(*old(st))).0,
        effect_of(out) == edited(op, field_of(*old(st))).1,
        field_wf(field_of(*final(st))),
        same_rest(*old(st), *final(st)),
{
    let ghost f = field_of(*st);
    let mut out: EditOutcome = EditOutcome::default();
    let cursor: usize = st.cursor;
    let selected: Option<(usize, usize)> = selection_range(st);
    let len: usize = byte_len(st.value.as_str());
    proof {
        is_char_boundary_start_end_of_seq(f.text);
        if f.cursor > 0 {
            walk_back_finds_boundary(f.text, f.cursor - 1);
        }
        if f.cursor < f.text.len() {
            walk_forward_finds_boundary(f.text, f.cursor + 1);
        }
    }
    match op {
        EditOp::Insert(s) => {
            if !s.as_str().is_empty() {
                delete_selection(st);
                insert_at_cursor(st, s.as_str());
                out.value_changed = true;
            }
        },
        EditOp::Paste(s) => {
            if delete_selection(st) {
                out.value_changed = true;
            }
            if !s.as_str().is_empty() {
                insert_at_cursor(st, s.as_str());
                out.value_changed = true;
            } else {
                proof {
                    let g = field_of(*st);
                    encode_empty(s@);
                    assert(with_inserted(g, encode_utf8(s@)).text =~= g.text);
                }
            }
        },
        EditOp::DeleteBack => {
            if delete_selection(st) {
                out.value_changed = true;
            } else if st.cursor != 0 {
                let prev: usize = prev_char_boundary(st.value.as_str(), st.cursor);
                remove_bytes(st, prev, cursor);
                out.value_changed = true;
            }
        },
        EditOp::DeleteForward => {
            if delete_selection(st) {
                out.value_changed = true;
            } else if st.cursor < len {
                let next: usize = next_char_boundary(st.value.as_str(), st.cursor);
                remove_bytes(st, cursor, next);
                out.value_changed = true;
            }
        },
        EditOp::MoveLeft => {
            if let Some((lo, _)) = selection_range(st) {
                st.cursor = lo;
                st.selection_anchor = None;
            } else if st.cursor != 0 {
                st.selection_anchor = None;
                st.cursor = prev_char_boundary(st.value.as_str(), st.cursor);
            }
        },
        EditOp::MoveRight => {
            if let Some((_, hi)) = selection_range(st) {
                st.cursor = hi;
                st.selection_anchor = None;
            } else if st.cursor < len {
                st.selection_anchor = None;
                st.cursor = next_char_boundary(st.value.as_str(), st.cursor);
            }
        },
        EditOp::Home => {
            st.selection_anchor = None;
            st.cursor = 0;
        },
        EditOp::End => {
            st.selection_anchor = None;
            st.cursor = len;
        },
        EditOp::SelectLeft => {
            if st.cursor != 0 {
                if st.selection_anchor.is_none() {
                    st.selection_anchor = Some(st.cursor);
                }
                st.cursor = prev_char_boundary(st.value.as_str(), st.cursor);
            }
        },
        EditOp::SelectRight => {
            if st.cursor < len {
                if st.selection_anchor.is_none() {
                    st.selection_anchor = Some(st.cursor);
                }
                st.cursor = next_char_boundary(st.value.as_str(), st.cursor);
            }
        },
        EditOp::SelectHome => {
            if st.cursor != 0 {
                if st.selection_anchor.is_none() {
                    st.selection_anchor = Some(st.cursor);
                }
                st.cursor = 0;
            }
        },
        EditOp::SelectEnd => {
            if st.cursor != len {
                if st.selection_anchor.is_none() {
                    st.selection_anchor = Some(st.cursor);
                }
                st.cursor = len;
            }
        },
        EditOp::SelectAll => {
            if len != 0 {
                st.selection_anchor = Some(0);
                st.cursor = len;
            }
        },
        EditOp::Copy => {
            out.clipboard_write = selected_text(st);
        },
        EditOp::Cut => {
            if let Some(text) = selected_text(st) {
                out.clipboard_write = Some(text);
                delete_selection(st);
                out.value_changed = true;
            }
        },
        EditOp::Submit => {
            out.submitted = true;
        },
    }
    out.cursor_moved = st.cursor != cursor;
    out.selection_changed = !same_range(selection_range(st), selected);
    out
}

/// Pasting what a cut took out, where it was taken out, restores the text,
/// and leaves the caret behind it with nothing selected.
pub proof fn paste_undoes_cut(f: Field, s: String)
    requires
        field_wf(f),
        span(f) is Some,
        edited(EditOp::Cut, f).1.clipboard == Some(encode_utf8(s@)),
    ensures
        edited(EditOp::Paste(s), edited(EditOp::Cut, f).0).0 == (Field {
            text: f.text,
            cursor: (span(f)->0).1,
            anchor: None,
        }),
{
    let (lo, hi) = span(f)->0;
    let g = edited(EditOp::Cut, f).0;
    assert(g.text.take(lo) =~= f.text.take(lo));
    assert(g.text.skip(lo) =~= f.text.skip(hi));
    assert(f.text.take(lo) + f.text.subrange(lo, hi) + f.text.skip(hi) =~= f.text);
}

/// Typing one character and deleting it backward restores text and caret.
pub proof fn delete_back_undoes_typing(f: Field, s: String)
    requires
        field_wf(f),
        span(f) is None,
        s@.len() == 1,
    ensures
        ({
            let g = edited(EditOp::Insert(s), f).0;
            let h = edited(EditOp::DeleteBack, g).0;
            h.text == f.text && h.cursor == f.cursor
        }),
{
    let ins = encode_utf8(s@);
    let head = f.text.take(f.cursor);
    let tail = f.text.skip(f.cursor);
    let g = edited(EditOp::Insert(s), f).0;
    let end = f.cursor + ins.len();
    cut_at_boundaries(f.text, f.cursor, f.cursor);
    encode_utf8_valid_utf8(s@);
    encode_empty(s@);
    valid_utf8_concat(head, ins);
    is_char_boundary_start_end_of_seq(ins);
    vstd::utf8::encode_utf8_first_scalar(s@);
    encode_empty(s@.drop_first());
    assert(ins =~= vstd::utf8::encode_scalar(s@[0] as u32));
    assert forall|k: int| f.cursor < k < end implies !#[trigger] is_char_boundary(g.text, k) by {
        boundary_concat(head + ins, tail, k);
        boundary_concat(head, ins, k);
        reveal_with_fuel(is_char_boundary, 2);
        assert(!is_char_boundary(ins, k - f.cursor));
    }
    boundary_concat(head + ins, tail, f.cursor);
    boundary_concat(head, ins, f.cursor);
    walk_back_finds_boundary(g.text, end - 1);
    let b = boundary_at_or_before(g.text, end - 1);
    assert(b == f.cursor) by {
        if b < f.cursor {
            assert(!is_char_boundary(g.text, f.cursor));
        }
    }
    assert(text_without(g.text, f.cursor, end) =~= f.text);
}

/// Typing over a selected whole replaces it.
pub proof fn typing_over_everything_replaces_it(f: Field, s: String)
    requires
        field_wf(f),
        f.text.len() > 0,
        s@.len() > 0,
    ensures
        edited(EditOp::Insert(s), edited(EditOp::SelectAll, f).0).0 == (Field {
            text: encode_utf8(s@),
            cursor: encode_utf8(s@).len() as int,
            anchor: None,
        }),
{
    let g = without_selection(edited(EditOp::SelectAll, f).0);
    assert(g.text =~= Seq::<u8>::empty());
    assert(with_inserted(g, encode_utf8(s@)).text =~= encode_utf8(s@));
}

/// Whether an edit only moves the caret or the selection, copies, or submits.
pub open spec fn keeps_text(op: EditOp) -> bool {
    !(op is Insert || op is Paste || op is DeleteBack || op is DeleteForward || op is Cut)
}

/// Moving, selecting, copying and submitting never touch the text; copying
/// and submitting touch nothing.
pub proof fn only_edits_touch_the_text(op: EditOp, f: Field)
    requires
        keeps_text(op),
    ensures
        edited(op, f).0.text == f.text,
        !edited(op, f).1.value_changed,
        op is Copy || op is Submit ==> edited(op, f).0 == f,
{
}

/// A caret is reported as moved exactly when it is elsewhere, and a selection
/// as changed exactly when another span is selected.
pub proof fn moves_are_reported(op: EditOp, f: Field)
    ensures
        edited(op, f).1.cursor_moved <==> edited(op, f).0.cursor != f.cursor,
        edited(op, f).1.selection_changed <==> span(edited(op, f).0) != span(f),
{
}

/// A text that is not reported as changed is as it was.
pub proof fn unreported_text_is_unchanged(op: EditOp, f: Field)
    requires
        field_wf(f),
        !edited(op, f).1.value_changed,
    ensures
        edited(op, f).0.text == f.text,
{
    match op {
        EditOp::Paste(s) => {
            encode_empty(s@);
            assert(with_inserted(without_selection(f), encode_utf8(s@)).text =~= f.text);
        },
        _ => {},
    }
}

/// With a span selected, deleting forward and backward leave the field that
/// cutting leaves: exactly the selected bytes are gone, the caret is where they
/// began, and nothing is selected.
pub proof fn deleting_takes_the_selection(f: Field)
    requires
        field_wf(f),
        f.anchor is Some,
        f.anchor->0 != f.cursor,
    ensures
        ({
            let (lo, hi) = if f.anchor->0 < f.cursor {
                (f.anchor->0, f.cursor)
            } else {
                (f.cursor, f.anchor->0)
            };
            let g = edited(EditOp::Cut, f).0;
            &&& g.text == f.text.take(lo) + f.text.skip(hi)
            &&& g.cursor == lo
            &&& g.anchor is None
            &&& edited(EditOp::DeleteForward, f).0 == g
            &&& edited(EditOp::DeleteBack, f).0 == g
            &&& edited(EditOp::Cut, f).1.clipboard == Some(f.text.subrange(lo, hi))
            &&& edited(EditOp::Copy, f).1.clipboard == Some(f.text.subrange(lo, hi))
            &&& edited(EditOp::Copy, f).0 == f
        }),
{
}

/// With nothing selected, deleting a character is selecting it and cutting it
/// out; at the end of the text that it goes toward, nothing is deleted.
pub proof fn deleting_is_selecting_and_cutting(f: Field)
    requires
        field_wf(f),
        f.anchor is None,
    ensures
        f.cursor > 0 ==> edited(EditOp::DeleteBack, f).0 == edited(
            EditOp::Cut,
            edited(EditOp::SelectLeft, f).0,
        ).0,
        f.cursor < f.text.len() ==> edited(EditOp::DeleteForward, f).0 == edited(
            EditOp::Cut,
            edited(EditOp::SelectRight, f).0,
        ).0,
        f.cursor == 0 ==> edited(EditOp::DeleteBack, f).0 == f,
        f.cursor == f.text.len() ==> edited(EditOp::DeleteForward, f).0 == f,
{
    if f.cursor > 0 {
        walk_back_finds_boundary(f.text, f.cursor - 1);
    }
    if f.cursor < f.text.len() {
        walk_forward_finds_boundary(f.text, f.cursor + 1);
    }
}

/// With nothing selected, deleting forward is moving right and deleting
/// backward.
pub proof fn deleting_forward_is_deleting_back_from_the_right(f: Field)
    requires
        field_wf(f),
        f.anchor is None,
        f.cursor < f.text.len(),
    ensures
        edited(EditOp::DeleteForward, f).0 == edited(
            EditOp::DeleteBack,
            edited(EditOp::MoveRight, f).0,
        ).0,
{
    stepping_back_undoes_stepping_forward(f);
}

/// The caret steps over one character: to the right and back again, or to the
/// left and back again, it is where it was, and in between it was elsewhere
/// with no boundary skipped.
pub proof fn stepping_back_undoes_stepping_forward(f: Field)
    requires
        field_wf(f),
        f.anchor is None,
    ensures
        f.cursor < f.text.len() ==> {
            let g = edited(EditOp::MoveRight, f).0;
            &&& f.cursor < g.cursor <= f.text.len()
            &&& is_char_boundary(f.text, g.cursor)
            &&& forall|k: int| f.cursor < k < g.cursor ==> !#[trigger] is_char_boundary(f.text, k)
            &&& edited(EditOp::MoveLeft, g).0 == f
        },
        f.cursor > 0 ==> {
            let g = edited(EditOp::MoveLeft, f).0;
            &&& 0 <= g.cursor < f.cursor
            &&& is_char_boundary(f.text, g.cursor)
            &&& forall|k: int| g.cursor < k < f.cursor ==> !#[trigger] is_char_boundary(f.text, k)
            &&& edited(EditOp::MoveRight, g).0 == f
        },
        f.cursor == f.text.len() ==> edited(EditOp::MoveRight, f).0 == f,
        f.cursor == 0 ==> edited(EditOp::MoveLeft, f).0 == f,
{
    if f.cursor < f.text.len() {
        walk_forward_finds_boundary(f.text, f.cursor + 1);
        let g = edited(EditOp::MoveRight, f).0;
        walk_back_finds_boundary(f.text, g.cursor - 1);
        let b = boundary_at_or_before(f.text, g.cursor - 1);
        if b < f.cursor {
            assert(!is_char_boundary(f.text, f.cursor));
        } else if b > f.cursor {
            assert(!is_char_boundary(f.text, b));
        }
    }
    if f.cursor > 0 {
        walk_back_finds_boundary(f.text, f.cursor - 1);
        let g = edited(EditOp::MoveLeft, f).0;
        walk_forward_finds_boundary(f.text, g.cursor + 1);
        let b = boundary_at_or_after(f.text, g.cursor + 1);
        if b > f.cursor {
            assert(!is_char_boundary(f.text, f.cursor));
        } else if b < f.cursor {
            assert(!is_char_boundary(f.text, b));
        }
    }
}

/// A selecting move takes the caret where the plain move takes it, and keeps
/// the text and the end of the selection that it started from; a plain move
/// leaves nothing selected.
pub proof fn selecting_moves_follow_plain_moves(f: Field)
    requires
        field_wf(f),
    ensures
        ({
            let from = match f.anchor {
                Some(a) => a,
                None => f.cursor,
            };
            let caret = Field { anchor: None, ..f };
            &&& edited(EditOp::SelectLeft, f).0.cursor == edited(EditOp::MoveLeft, caret).0.cursor
            &&& edited(EditOp::SelectRight, f).0.cursor == edited(
                EditOp::MoveRight,
                caret,
            ).0.cursor
            &&& edited(EditOp::SelectHome, f).0.cursor == 0
            &&& edited(EditOp::SelectEnd, f).0.cursor == f.text.len()
            &&& forall|op: EditOp|
                (op is SelectLeft || op is SelectRight || op is SelectHome || op is SelectEnd)
                    && #[trigger] edited(op, f).0.cursor != f.cursor ==> edited(op, f).0.anchor
                    == Some(from) && edited(op, f).0.text == f.text
        }),
        edited(EditOp::Home, f).0 == (Field { cursor: 0, anchor: None, ..f }),
        edited(EditOp::End, f).0 == (Field { cursor: f.text.len() as int, anchor: None, ..f }),
        (f.anchor is Some && f.anchor->0 != f.cursor) ==> {
            let (lo, hi) = if f.anchor->0 < f.cursor {
                (f.anchor->0, f.cursor)
            } else {
                (f.cursor, f.anchor->0)
            };
            &&& edited(EditOp::MoveLeft, f).0 == (Field { cursor: lo, anchor: None, ..f })
            &&& edited(EditOp::MoveRight, f).0 == (Field { cursor: hi, anchor: None, ..f })
        },
        f.text.len() > 0 ==> {
            let all = edited(EditOp::SelectAll, f).0;
            &&& edited(EditOp::Copy, all).1.clipboard == Some(f.text)
            &&& edited(EditOp::Cut, all).0.text.len() == 0
            &&& all.cursor == f.text.len()
        },
{
    if f.text.len() > 0 {
        let all = edited(EditOp::SelectAll, f).0;
        assert(f.text.subrange(0, f.text.len() as int) =~= f.text);
    }
    if f.cursor > 0 {
        walk_back_finds_boundary(f.text, f.cursor - 1);
    }
    if f.cursor < f.text.len() {
        walk_forward_finds_boundary(f.text, f.cursor + 1);
    }
}

/// Typing and pasting put the text where the selection or the caret was: what
/// was before it and behind it stays, and the caret comes behind the new text.
/// Both do the same, and the same as if the selection had been cut out first.
pub proof fn typing_goes_to_the_caret(f: Field, s: String)
    requires
        field_wf(f),
        s@.len() > 0,
    ensures
        ({
            let g = edited(EditOp::Insert(s), f).0;
            let (lo, hi) = match f.anchor {
                Some(a) => if a < f.cursor {
                    (a, f.cursor)
                } else {
                    (f.cursor, a)
                },
                None => (f.cursor, f.cursor),
            };
            let new = encode_utf8(s@);
            &&& g.text == f.text.take(lo) + new + f.text.skip(hi)
            &&& g.cursor == lo + new.len()
            &&& g.anchor is None
            &&& edited(EditOp::Paste(s), f).0 == g
            &&& edited(EditOp::Insert(s), f).1.value_changed
            &&& edited(EditOp::Paste(s), f).1.value_changed
            &&& (f.anchor is Some && f.anchor->0 != f.cursor) ==> edited(EditOp::Insert(s), edited(EditOp::Cut, f).0).0 == g
            &&& edited(EditOp::Submit, f).1.submitted
            &&& !edited(EditOp::Insert(s), f).1.submitted
        }),
{
    let g = edited(EditOp::Insert(s), f).0;
    let new = encode_utf8(s@);
    let (lo, hi) = match f.anchor {
        Some(a) => if a < f.cursor {
            (a, f.cursor)
        } else {
            (f.cursor, a)
        },
        None => (f.cursor, f.cursor),
    };
    if f.anchor is Some && f.anchor->0 != f.cursor {
        let cut = edited(EditOp::Cut, f).0;
        assert(cut.text.take(lo) =~= f.text.take(lo));
        assert(cut.text.skip(lo) =~= f.text.skip(hi));
    }
}

/// Nothing is typed or pasted that is empty, and a paste of nothing over a
/// selection deletes it.
pub proof fn empty_text_types_nothing(f: Field, s: String)
    requires
        field_wf(f),
        s@.len() == 0,
    ensures
        edited(EditOp::Insert(s), f).0 == f,
        (f.anchor is Some && f.anchor->0 != f.cursor) ==> edited(EditOp::Paste(s), f).0 == edited(EditOp::Cut, f).0,
        !(f.anchor is Some && f.anchor->0 != f.cursor) ==> edited(EditOp::Paste(s), f).0 == (Field { anchor: None, ..f }),
{
    encode_empty(s@);
    let g = without_selection(f);
    assert(with_inserted(g, encode_utf8(s@)).text =~= g.text);
}

/// The reported changes are true: text that is reported as unchanged is, and
/// where the text changed that is reported.
pub proof fn changed_text_is_reported(op: EditOp, f: Field)
    requires
        field_wf(f),
        edited(op, f).0.text != f.text,
    ensures
        edited(op, f).1.value_changed,
{
    if !edited(op, f).1.value_changed {
        unreported_text_is_unchanged(op, f);
    }
}

/// Copying and cutting hand out the bytes between the caret and the anchor, and
/// nothing where nothing is selected; no other edit hands out anything. Only
/// submitting submits.
pub proof fn selections_are_handed_out(op: EditOp, f: Field)
    requires
        field_wf(f),
    ensures
        ({
            let out = edited(op, f).1;
            let spans = f.anchor is Some && f.anchor->0 != f.cursor;
            &&& out.clipboard is Some <==> (op is Copy || op is Cut) && spans
            &&& out.clipboard is Some && f.anchor->0 < f.cursor ==> f.text.take(f.anchor->0)
                + out.clipboard->0 + f.text.skip(f.cursor) == f.text
            &&& out.clipboard is Some && f.cursor < f.anchor->0 ==> f.text.take(f.cursor)
                + out.clipboard->0 + f.text.skip(f.anchor->0) == f.text
            &&& out.submitted <==> op is Submit
        }),
{
    let out = edited(op, f).1;
    if out.clipboard is Some {
        let (lo, hi) = span(f)->0;
        assert(f.text.take(lo) + f.text.subrange(lo, hi) + f.text.skip(hi) =~= f.text);
    }
}

} // verus!
