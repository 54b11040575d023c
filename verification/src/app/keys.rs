//! Which key does what.
use vstd::prelude::*;

use crate::editor::EditOp;
use crate::input::KeyCode;
use crate::node::tree::strings_equal;
use crate::node::NodeId;

verus! {

/// Keys that stand for no character.
#[derive(Copy, Clone, Debug, PartialEq, Eq, Structural)]
pub enum NamedKey {
    Backspace,
    Delete,
    ArrowLeft,
    ArrowRight,
    Home,
    End,
    Enter,
    Escape,
    Other,
}

/// A key by its meaning on the keyboard layout in use.
#[derive(Clone, Debug, PartialEq, Eq)]
pub enum Key {
    Named(NamedKey),
    Character(String),
    Unidentified,
}

/// The modifier keys that are held.
#[derive(Copy, Clone, Debug, PartialEq, Eq, Structural)]
pub struct Modifiers {
    pub shift: bool,
    pub control: bool,
    /// The Command or Windows key.
    pub command: bool,
}

impl Modifiers {
    pub open spec fn accelerates(self) -> bool {
        self.control || self.command
    }

    /// Whether the key that makes a shortcut is held.
    pub fn accel(&self) -> (r: bool)
        ensures
            r == self.accelerates(),
    {
        self.control || self.command
    }
}

/// The key is the letter, in either case.
pub open spec fn is_letter(key: Key, lower: char, upper: char) -> bool {
    match key {
        Key::Character(s) => s@ == seq![lower] || s@ == seq![upper],
        _ => false,
    }
}

/// A control character.
pub open spec fn is_control(c: char) -> bool {
    (c as u32) < 0x20 || (0x7f <= (c as u32) && (c as u32) < 0xa0)
}

/// The text can be typed: it is not empty and has no control character.
pub open spec fn typeable(s: Seq<char>) -> bool {
    s.len() > 0 && forall|i: int| 0 <= i < s.len() ==> !is_control(#[trigger] s[i])
}

fn key_is(key: &Key, lower: &str, upper: &str) -> (r: bool)
    ensures
        r == (match *key {
            Key::Character(s) => s@ == lower@ || s@ == upper@,
            _ => false,
        }),
{
    match key {
        Key::Character(s) => strings_equal(s, &lower.to_owned()) || strings_equal(
            s,
            &upper.to_owned(),
        ),
        _ => false,
    }
}

fn can_type(s: &str) -> (r: bool)
    ensures
        r == typeable(s@),
{
    let n: usize = s.unicode_len();
    if n == 0 {
        return false;
    }
    let mut i: usize = 0;
    while i < n
        invariant
            n == s@.len(),
            i <= n,
            forall|j: int| 0 <= j < i ==> !is_control(#[trigger] s@[j]),
        decreases n - i,
    {
        let c: char = s.get_char(i);
        let u: u32 = c as u32;
        if u < 0x20 || (u >= 0x7f && u < 0xa0) {
            return false;
        }
        i = i + 1;
    }
    true
}

/// The edit that a named key makes.
pub open spec fn named_edit(key: NamedKey, shift: bool) -> Option<EditOp> {
    match key {
        NamedKey::Backspace => Some(EditOp::DeleteBack),
        NamedKey::Delete => Some(EditOp::DeleteForward),
        NamedKey::ArrowLeft => Some(
            if shift {
                EditOp::SelectLeft
            } else {
                EditOp::MoveLeft
            },
        ),
        NamedKey::ArrowRight => Some(
            if shift {
                EditOp::SelectRight
            } else {
                EditOp::MoveRight
            },
        ),
        NamedKey::Home => Some(
            if shift {
                EditOp::SelectHome
            } else {
                EditOp::Home
            },
        ),
        NamedKey::End => Some(
            if shift {
                EditOp::SelectEnd
            } else {
                EditOp::End
            },
        ),
        NamedKey::Enter => Some(EditOp::Submit),
        _ => None,
    }
}

/// The edit `r` is the one that the key makes in a text field.
///
/// Named keys move, select, delete and submit. With the shortcut key held, A
/// selects all, C copies and X cuts, and nothing else edits. Any other key
/// types its text.
pub open spec fn edits(key: Key, text: Option<Seq<char>>, mods: Modifiers, r: Option<EditOp>) -> bool {
    if key is Named && named_edit(key->Named_0, mods.shift) is Some {
        r == named_edit(key->Named_0, mods.shift)
    } else if mods.accelerates() {
        r == (if is_letter(key, 'a', 'A') {
            Some(EditOp::SelectAll)
        } else if is_letter(key, 'c', 'C') {
            Some(EditOp::Copy)
        } else if is_letter(key, 'x', 'X') {
            Some(EditOp::Cut)
        } else {
            None
        })
    } else if text is Some && typeable(text->0) {
        r matches Some(op) && op is Insert && op->Insert_0@ == text->0
    } else {
        r is None
    }
}

/// The edit that a key makes in a text field, if any. Pasting is not among
/// them: its text comes from the clipboard.
pub fn resolve_edit_op(key: &Key, text: Option<&str>, mods: Modifiers) -> (r: Option<EditOp>)
    ensures
        edits(
            *key,
            match text {
                Some(s) => Some(s@),
                None => None,
            },
            mods,
            r,
        ),
{
    if let Key::Named(named) = key {
        match named {
            NamedKey::Backspace => return Some(EditOp::DeleteBack),
            NamedKey::Delete => return Some(EditOp::DeleteForward),
            NamedKey::ArrowLeft => return if mods.shift {
                Some(EditOp::SelectLeft)
            } else {
                Some(EditOp::MoveLeft)
            },
            NamedKey::ArrowRight => return if mods.shift {
                Some(EditOp::SelectRight)
            } else {
                Some(EditOp::MoveRight)
            },
            NamedKey::Home => return if mods.shift {
                Some(EditOp::SelectHome)
            } else {
                Some(EditOp::Home)
            },
            NamedKey::End => return if mods.shift {
                Some(EditOp::SelectEnd)
            } else {
                Some(EditOp::End)
            },
            NamedKey::Enter => return Some(EditOp::Submit),
            _ => {},
        }
    }
    if mods.accel() {
        proof {
            reveal_strlit("a");
            reveal_strlit("A");
            reveal_strlit("c");
            reveal_strlit("C");
            reveal_strlit("x");
            reveal_strlit("X");
            assert("a"@ =~= seq!['a']);
            assert("A"@ =~= seq!['A']);
            assert("c"@ =~= seq!['c']);
            assert("C"@ =~= seq!['C']);
            assert("x"@ =~= seq!['x']);
            assert("X"@ =~= seq!['X']);
        }
        if key_is(key, "a", "A") {
            return Some(EditOp::SelectAll);
        }
        if key_is(key, "c", "C") {
            return Some(EditOp::Copy);
        }
        if key_is(key, "x", "X") {
            return Some(EditOp::Cut);
        }
        return None;
    }
    if let Some(s) = text {
        if can_type(s) {
            return Some(EditOp::Insert(s.to_owned()));
        }
    }
    None
}

/// What a key does.
#[derive(Clone, Debug)]
pub enum KeyAction {
    /// Take the focus from a text field.
    Blur(NodeId),
    /// Read the clipboard and paste into a text field.
    Paste(NodeId),
    Edit(NodeId, EditOp),
    /// Close the window.
    Exit,
    /// Show or hide the statistics overlay.
    ToggleStats,
    Screenshot,
    /// Show or hide the overdraw picture.
    ToggleOverdraw,
    /// Draw everything anew.
    Refresh,
    /// Move the focus along the Tab order.
    Tab { forward: bool },
    /// Hold a scroll key down and scroll by it.
    ScrollHeld,
    /// Nothing: the key is held and scrolls by itself.
    Ignore,
    /// Scroll to an end or by a page; if nothing scrolled, tell the key hook.
    /// `hold` says whether the key went down just now.
    ScrollJump { hold: bool },
    /// The key was let go. The key hook hears of presses only, so `hook` is
    /// false.
    Release { hook: bool },
    /// Tell the key hook, if the key went down just now.
    Hook { hook: bool },
}

/// A key event.
#[derive(Clone, Debug)]
pub struct KeyPress {
    /// The key by its place on the keyboard.
    pub code: KeyCode,
    /// The key by its meaning.
    pub key: Key,
    /// The text that the key produces.
    pub text: Option<String>,
    pub pressed: bool,
    /// The event repeats one that was not let go.
    pub repeat: bool,
}

/// The text of a key event.
pub open spec fn key_text(e: KeyPress) -> Option<Seq<char>> {
    match e.text {
        Some(s) => Some(s@),
        None => None,
    }
}

/// What the shell itself does on a key, apart from text fields.
pub open spec fn shell_key(e: KeyPress, shift: bool) -> KeyAction {
    if !e.repeat && e.code is Escape {
        KeyAction::Exit
    } else if !e.repeat && e.code is F1 {
        KeyAction::ToggleStats
    } else if !e.repeat && e.code is F2 {
        KeyAction::Screenshot
    } else if !e.repeat && e.code is F4 {
        KeyAction::ToggleOverdraw
    } else if !e.repeat && e.code is F5 {
        KeyAction::Refresh
    } else if !e.repeat && e.code is Tab {
        KeyAction::Tab { forward: !shift }
    } else if e.code is ArrowUp || e.code is ArrowDown || e.code is ArrowLeft || e.code
        is ArrowRight {
        if e.repeat {
            KeyAction::Ignore
        } else {
            KeyAction::ScrollHeld
        }
    } else if e.code is PageUp || e.code is PageDown || e.code is Home || e.code is End {
        KeyAction::ScrollJump { hold: !e.repeat }
    } else {
        KeyAction::Hook { hook: !e.repeat }
    }
}

/// What a key does. A key that is let go is only let go. A text field with the focus comes first: Escape leaves
/// it, the shortcut with V pastes, and what edits edits. Other keys do what
/// they do without a text field.
pub open spec fn key_does(
    editor: Option<NodeId>,
    e: KeyPress,
    mods: Modifiers,
    action: KeyAction,
) -> bool {
    if !e.pressed {
        action == KeyAction::Release { hook: false }
    } else if editor is Some && e.key == Key::Named(NamedKey::Escape) {
        action == KeyAction::Blur(editor->0)
    } else if editor is Some && mods.accelerates() && is_letter(e.key, 'v', 'V') {
        action == KeyAction::Paste(editor->0)
    } else if editor is Some && !edits(e.key, key_text(e), mods, None) {
        &&& action is Edit
        &&& action->Edit_0 == editor->0
        &&& edits(e.key, key_text(e), mods, Some(action->Edit_1))
    } else {
        action == shell_key(e, mods.shift)
    }
}

fn shell_action(e: &KeyPress, shift: bool) -> (r: KeyAction)
    ensures
        r == shell_key(*e, shift),
{
    if !e.repeat {
        match e.code {
            KeyCode::Escape => return KeyAction::Exit,
            KeyCode::F1 => return KeyAction::ToggleStats,
            KeyCode::F2 => return KeyAction::Screenshot,
            KeyCode::F4 => return KeyAction::ToggleOverdraw,
            KeyCode::F5 => return KeyAction::Refresh,
            KeyCode::Tab => return KeyAction::Tab { forward: !shift },
            _ => {},
        }
    }
    match e.code {
        KeyCode::ArrowUp | KeyCode::ArrowDown | KeyCode::ArrowLeft | KeyCode::ArrowRight => {
            if e.repeat {
                KeyAction::Ignore
            } else {
                KeyAction::ScrollHeld
            }
        },
        KeyCode::PageUp | KeyCode::PageDown | KeyCode::Home | KeyCode::End => {
            KeyAction::ScrollJump { hold: !e.repeat }
        },
        _ => KeyAction::Hook { hook: !e.repeat },
    }
}

/// What a key does. `editor` is the text field that has the focus.
pub fn route_key(editor: Option<NodeId>, e: &KeyPress, mods: Modifiers) -> (r: KeyAction)
    ensures
        key_does(editor, *e, mods, r),
{
    if !e.pressed {
        return KeyAction::Release { hook: false };
    }
    if let Some(field) = editor {
        if let Key::Named(NamedKey::Escape) = &e.key {
            return KeyAction::Blur(field);
        }
        proof {
            reveal_strlit("v");
            reveal_strlit("V");
            assert("v"@ =~= seq!['v']);
            assert("V"@ =~= seq!['V']);
        }
        if mods.accel() && key_is(&e.key, "v", "V") {
            return KeyAction::Paste(field);
        }
        let text: Option<&str> = match &e.text {
            Some(s) => Some(s.as_str()),
            None => None,
        };
        if let Some(op) = resolve_edit_op(&e.key, text, mods) {
            return KeyAction::Edit(field, op);
        }
    }
    shell_action(e, mods.shift)
}

/// With the shortcut key held nothing is typed.
pub proof fn shortcuts_type_nothing(key: Key, text: Option<Seq<char>>, mods: Modifiers, r: Option<EditOp>)
    requires
        mods.accelerates(),
        edits(key, text, mods, r),
    ensures
        !(r matches Some(op) && op is Insert),
{
}

/// What the keys without a character do in a text field, and that Shift makes
/// a move select.
pub proof fn named_keys_edit(shift: bool)
    ensures
        named_edit(NamedKey::Backspace, shift) == Some(EditOp::DeleteBack),
        named_edit(NamedKey::Delete, shift) == Some(EditOp::DeleteForward),
        named_edit(NamedKey::Enter, shift) == Some(EditOp::Submit),
        named_edit(NamedKey::ArrowLeft, false) == Some(EditOp::MoveLeft),
        named_edit(NamedKey::ArrowLeft, true) == Some(EditOp::SelectLeft),
        named_edit(NamedKey::ArrowRight, false) == Some(EditOp::MoveRight),
        named_edit(NamedKey::ArrowRight, true) == Some(EditOp::SelectRight),
        named_edit(NamedKey::Home, false) == Some(EditOp::Home),
        named_edit(NamedKey::Home, true) == Some(EditOp::SelectHome),
        named_edit(NamedKey::End, false) == Some(EditOp::End),
        named_edit(NamedKey::End, true) == Some(EditOp::SelectEnd),
        named_edit(NamedKey::Escape, shift) is None,
        named_edit(NamedKey::Other, shift) is None,
{
}

/// A key makes one edit only: what it may make is one thing, up to the string
/// that a typed text is held in.
pub proof fn a_key_makes_one_edit(
    key: Key,
    text: Option<Seq<char>>,
    mods: Modifiers,
    a: Option<EditOp>,
    b: Option<EditOp>,
)
    requires
        edits(key, text, mods, a),
        edits(key, text, mods, b),
    ensures
        a is Some == b is Some,
        a is Some && a->0 is Insert ==> b->0 is Insert && a->0->Insert_0@ == b->0->Insert_0@,
        a is Some && !(a->0 is Insert) ==> a == b,
{
}

/// With the shortcut key held, the letters A, C and X select all, copy and cut,
/// in either case, and other letters make no edit. Without it a key types the
/// text that it produces, unless that is empty or holds a control character.
pub proof fn letters_edit(s: String, text: Option<Seq<char>>, mods: Modifiers, r: Option<EditOp>)
    requires
        edits(Key::Character(s), text, mods, r),
    ensures
        (mods.control || mods.command) && (s@ == seq!['a'] || s@ == seq!['A']) ==> r == Some(
            EditOp::SelectAll,
        ),
        (mods.control || mods.command) && (s@ == seq!['c'] || s@ == seq!['C']) ==> r == Some(
            EditOp::Copy,
        ),
        (mods.control || mods.command) && (s@ == seq!['x'] || s@ == seq!['X']) ==> r == Some(
            EditOp::Cut,
        ),
        (mods.control || mods.command) && s@.len() != 1 ==> r is None,
        !(mods.control || mods.command) && text is None ==> r is None,
        !(mods.control || mods.command) && text is Some && text->0.len() == 0 ==> r is None,
        !(mods.control || mods.command) && text is Some && text->0.len() > 0 && (forall|i: int|
            0 <= i < text->0.len() ==> (#[trigger] text->0[i]) as u32 >= 0x20 && !(0x7f
                <= text->0[i] as u32 <= 0x9f)) ==> r is Some && r->0 is Insert
            && r->0->Insert_0@ == text->0,
        r is Some && r->0 is Insert ==> text == Some(r->0->Insert_0@) && (forall|i: int|
            0 <= i < r->0->Insert_0@.len() ==> (#[trigger] r->0->Insert_0@[i]) as u32 >= 0x20
                && !(0x7f <= r->0->Insert_0@[i] as u32 <= 0x9f)),
{
    if s@ == seq!['c'] || s@ == seq!['C'] || s@ == seq!['x'] || s@ == seq!['X'] || s@ == seq!['a']
        || s@ == seq!['A'] {
        assert(s@[0] == 'a' || s@[0] == 'A' || s@[0] == 'c' || s@[0] == 'C' || s@[0] == 'x'
            || s@[0] == 'X');
        assert(seq!['a'][0] == 'a' && seq!['A'][0] == 'A' && seq!['c'][0] == 'c' && seq!['C'][0]
            == 'C' && seq!['x'][0] == 'x' && seq!['X'][0] == 'X');
    }
    assert(seq!['a'].len() == 1 && seq!['A'].len() == 1 && seq!['c'].len() == 1
        && seq!['C'].len() == 1 && seq!['x'].len() == 1 && seq!['X'].len() == 1);
}

/// The keys of the shell itself act once, when they go down; a key that is held
/// down neither leaves the program nor switches anything again. Tab goes
/// forward, and back with Shift. The keys that scroll by a line scroll for as
/// long as they are held, the others once for each event.
pub proof fn shell_keys_act_once(e: KeyPress, shift: bool)
    ensures
        ({
            let a = shell_key(e, shift);
            let arrow = e.code is ArrowUp || e.code is ArrowDown || e.code is ArrowLeft || e.code
                is ArrowRight;
            let jump = e.code is PageUp || e.code is PageDown || e.code is Home || e.code is End;
            &&& a is Exit <==> e.code is Escape && !e.repeat
            &&& a is ToggleStats <==> e.code is F1 && !e.repeat
            &&& a is Screenshot <==> e.code is F2 && !e.repeat
            &&& a is ToggleOverdraw <==> e.code is F4 && !e.repeat
            &&& a is Refresh <==> e.code is F5 && !e.repeat
            &&& a is Tab <==> e.code is Tab && !e.repeat
            &&& a matches KeyAction::Tab { forward } ==> forward == !shift
            &&& a is ScrollHeld <==> arrow && !e.repeat
            &&& a is Ignore <==> arrow && e.repeat
            &&& a is ScrollJump <==> jump
            &&& a matches KeyAction::ScrollJump { hold } ==> hold == !e.repeat
            &&& a matches KeyAction::Hook { hook } ==> hook == !e.repeat
        }),
{
}

/// Only a text field with the focus edits, and only while a key goes down; it
/// gets its keys before the shell does. Escape leaves it rather than the
/// program.
pub proof fn text_fields_come_first(
    editor: Option<NodeId>,
    e: KeyPress,
    mods: Modifiers,
    action: KeyAction,
)
    requires
        key_does(editor, e, mods, action),
    ensures
        action is Release <==> !e.pressed,
        action is Edit || action is Paste || action is Blur ==> editor is Some && e.pressed,
        editor is None && e.pressed ==> action == shell_key(e, mods.shift),
        editor is Some && e.pressed && e.key == Key::Named(NamedKey::Escape) ==> action
            == KeyAction::Blur(editor->0),
        action matches KeyAction::Edit(id, op) ==> editor == Some(id) && edits(
            e.key,
            key_text(e),
            mods,
            Some(op),
        ),
        action matches KeyAction::Paste(id) ==> editor == Some(id) && (mods.control
            || mods.command) && e.key is Character,
        action is Edit ==> !(e.key == Key::Named(NamedKey::Escape)),
{
}

} // verus!
