//! Key presses, and the one-line text buffer that they edit.

use vstd::prelude::*;
use tui_input::backend::crossterm::EventHandler;

verus! {

/// A key.
#[derive(Debug, Clone, Copy, PartialEq, Eq, Structural)]
pub enum KeyCode {
    Char(char),
    Enter,
    Esc,
    Backspace,
    Delete,
    Left,
    Right,
    Up,
    Down,
    Home,
    End,
    Tab,
    BackTab,
    /// Any key that nothing here reacts to.
    Other,
}

/// The shift key's bit among the modifiers.
pub const SHIFT: u8 = 1;

/// The control key's bit.
pub const CONTROL: u8 = 2;

/// The alt key's bit.
pub const ALT: u8 = 4;

/// The meta key's bit.
pub const META: u8 = 32;

/// The control and alt keys together.
pub const CONTROL_ALT: u8 = 6;

/// All six modifier bits (shift, control, alt, super, hyper, meta).
pub const ALL_MODIFIERS: u8 = 63;

/// A key press with the modifiers that were held.
#[derive(Debug, Clone, Copy, PartialEq, Eq, Structural)]
pub struct KeyEvent {
    pub code: KeyCode,
    /// The bits of the modifiers held.
    pub modifiers: u8,
}

impl KeyEvent {
    /// A press without modifiers.
    pub fn plain(code: KeyCode) -> (r: Self)
        ensures
            r.code == code,
            r.modifiers == 0,
    {
        KeyEvent { code, modifiers: 0 }
    }

    /// Whether the control key is among the modifiers.
    pub open spec fn with_control(self) -> bool {
        self.modifiers & CONTROL == CONTROL
    }

    /// Whether the shift key is among the modifiers.
    pub open spec fn with_shift(self) -> bool {
        self.modifiers & SHIFT == SHIFT
    }

    /// Tests for the control key.
    pub fn has_control(&self) -> (r: bool)
        ensures
            r == self.with_control(),
    {
        self.modifiers & CONTROL == CONTROL
    }

    /// Tests for the shift key.
    pub fn has_shift(&self) -> (r: bool)
        ensures
            r == self.with_shift(),
    {
        self.modifiers & SHIFT == SHIFT
    }
}

/// The text buffer of the `tui-input` crate: characters and a cursor among them.
#[verifier::external_type_specification]
#[verifier::external_body]
pub struct ExInput(tui_input::Input);

/// The characters that a text buffer holds.
pub uninterp spec fn input_text(input: tui_input::Input) -> Seq<char>;

/// How many of a text buffer's characters stand before its cursor.
pub uninterp spec fn input_cursor(input: tui_input::Input) -> nat;

/// The characters that a text buffer cut last, and gives back on request.
pub uninterp spec fn input_cut(input: tui_input::Input) -> Seq<char>;

/// Whether the last key cut: a cut that follows adds to what was cut.
pub uninterp spec fn input_cutting(input: tui_input::Input) -> bool;

/// What a text buffer holds.
#[verifier::ext_equal]
pub struct Buffer {
    pub text: Seq<char>,
    pub cursor: nat,
    pub cut: Seq<char>,
    pub cutting: bool,
}

/// What a given buffer holds.
pub open spec fn buffer(input: tui_input::Input) -> Buffer {
    Buffer {
        text: input_text(input),
        cursor: input_cursor(input),
        cut: input_cut(input),
        cutting: input_cutting(input),
    }
}

/// A text with the cursor at its end and nothing cut.
pub open spec fn fresh_buffer(text: Seq<char>) -> Buffer {
    Buffer { text, cursor: text.len(), cut: Seq::empty(), cutting: false }
}

/// A key that edits text.
#[derive(Debug, Clone, Copy, PartialEq, Eq, Structural)]
pub enum EditKey {
    Char(char),
    Backspace,
    Delete,
    Left,
    Right,
    Home,
    End,
}

/// The key as one that edits text, if it is one.
pub open spec fn edit_key(code: KeyCode) -> Option<EditKey> {
    match code {
        KeyCode::Char(c) => Some(EditKey::Char(c)),
        KeyCode::Backspace => Some(EditKey::Backspace),
        KeyCode::Delete => Some(EditKey::Delete),
        KeyCode::Left => Some(EditKey::Left),
        KeyCode::Right => Some(EditKey::Right),
        KeyCode::Home => Some(EditKey::Home),
        KeyCode::End => Some(EditKey::End),
        _ => None,
    }
}

/// Whether a key types the character it names.
pub open spec fn types(key: EditKey, mods: u8) -> bool {
    key is Char && (mods == 0 || mods == SHIFT || mods == CONTROL_ALT)
}

/// Whether a key with control is the given letter.
pub open spec fn control(key: EditKey, mods: u8, c: char) -> bool {
    key == EditKey::Char(c) && mods == CONTROL
}

/// Whether a key with meta is the given letter.
pub open spec fn meta(key: EditKey, mods: u8, c: char) -> bool {
    key == EditKey::Char(c) && mods == META
}

/// Whether a key deletes the character before the cursor.
pub open spec fn erases(key: EditKey, mods: u8) -> bool {
    control(key, mods, 'h') || (key is Backspace && mods == 0)
}

/// Whether a key cuts the word before the cursor.
pub open spec fn cuts_back(key: EditKey, mods: u8) -> bool {
    control(key, mods, 'w') || meta(key, mods, 'd') || (key is Backspace && (mods == ALT || mods
        == META))
}

/// Whether a key moves the cursor one character to the left.
pub open spec fn steps_left(key: EditKey, mods: u8) -> bool {
    control(key, mods, 'b') || (key is Left && mods == 0)
}

/// Whether a key moves the cursor one word to the left.
pub open spec fn jumps_left(key: EditKey, mods: u8) -> bool {
    meta(key, mods, 'b') || (key is Left && mods == CONTROL)
}

/// Whether a key moves the cursor one character to the right.
pub open spec fn steps_right(key: EditKey, mods: u8) -> bool {
    control(key, mods, 'f') || (key is Right && mods == 0)
}

/// Whether a key moves the cursor one word to the right.
pub open spec fn jumps_right(key: EditKey, mods: u8) -> bool {
    meta(key, mods, 'f') || (key is Right && mods == CONTROL)
}

/// Whether a key acts on what stands before the cursor.
pub open spec fn backwards(key: EditKey, mods: u8) -> bool {
    erases(key, mods) || cuts_back(key, mods) || steps_left(key, mods) || jumps_left(key, mods)
}

/// Whether a key acts on a word rather than a character.
pub open spec fn wordwise(key: EditKey, mods: u8) -> bool {
    cuts_back(key, mods) || jumps_left(key, mods) || jumps_right(key, mods) || (key is Delete
        && mods == CONTROL)
}

/// The place that a step from a cursor leads to: one user-perceived character
/// or one word, backwards or forwards.
pub uninterp spec fn step_from(text: Seq<char>, cursor: nat, back: bool, word: bool) -> nat;

/// Whether a place lies the way a step leads: past the cursor, and at it only
/// where the text ends.
pub open spec fn lies_there(text: Seq<char>, cursor: nat, back: bool, far: nat) -> bool {
    if back {
        if cursor == 0 {
            far == 0
        } else {
            far < cursor
        }
    } else if cursor == text.len() {
        far == cursor
    } else {
        cursor < far <= text.len()
    }
}

/// What is cut together: what was cut before, and what comes to it, on its left
/// or on its right.
pub open spec fn added_cut(b: Buffer, piece: Seq<char>, left: bool) -> Seq<char> {
    if !b.cutting {
        piece
    } else if left {
        piece + b.cut
    } else {
        b.cut + piece
    }
}

/// What an editing key makes of a buffer, where a step from the cursor leads to
/// `far`.
pub open spec fn edited(b: Buffer, key: EditKey, mods: u8, far: nat) -> Buffer {
    let c = b.cursor as int;
    let len = b.text.len();
    if types(key, mods) {
        Buffer {
            text: b.text.insert(c, key->Char_0),
            cursor: b.cursor + 1,
            cutting: false,
            ..b
        }
    } else if control(key, mods, 'a') || (key is Home && mods == 0) {
        Buffer { cursor: 0, cutting: false, ..b }
    } else if control(key, mods, 'e') || (key is End && mods == 0) {
        Buffer { cursor: len, cutting: false, ..b }
    } else if control(key, mods, 'u') {
        Buffer {
            text: Seq::empty(),
            cursor: 0,
            cut: if len == 0 {
                b.cut
            } else {
                added_cut(b, b.text, c == len)
            },
            cutting: true,
        }
    } else if control(key, mods, 'k') {
        Buffer {
            text: b.text.take(c),
            cut: added_cut(b, b.text.skip(c), false),
            cutting: true,
            ..b
        }
    } else if erases(key, mods) {
        if c == 0 {
            b
        } else {
            Buffer {
                text: b.text.take(far as int) + b.text.skip(c),
                cursor: far,
                cutting: false,
                ..b
            }
        }
    } else if cuts_back(key, mods) {
        if c == 0 {
            Buffer { cutting: true, ..b }
        } else {
            Buffer {
                text: b.text.take(far as int) + b.text.skip(c),
                cursor: far,
                cut: added_cut(b, b.text.subrange(far as int, c), true),
                cutting: true,
            }
        }
    } else if key is Delete && mods == 0 {
        if c == len {
            b
        } else {
            Buffer { text: b.text.take(c) + b.text.skip(far as int), cutting: false, ..b }
        }
    } else if key is Delete && mods == CONTROL {
        if c == len {
            Buffer { cutting: true, ..b }
        } else {
            Buffer {
                text: b.text.take(c) + b.text.skip(far as int),
                cut: added_cut(b, b.text.subrange(c, far as int), false),
                cutting: true,
                ..b
            }
        }
    } else if steps_left(key, mods) {
        if c == 0 {
            b
        } else {
            Buffer { cursor: far, cutting: false, ..b }
        }
    } else if steps_right(key, mods) {
        if c == len {
            b
        } else {
            Buffer { cursor: far, cutting: false, ..b }
        }
    } else if jumps_left(key, mods) || jumps_right(key, mods) {
        Buffer { cursor: far, cutting: false, ..b }
    } else if control(key, mods, 'y') {
        Buffer {
            text: b.text.take(c) + b.cut + b.text.skip(c),
            cursor: b.cursor + b.cut.len(),
            cutting: false,
            ..b
        }
    } else {
        b
    }
}

/// What a key press makes of a buffer; keys that edit no text leave it alone.
pub open spec fn pressed(b: Buffer, key: KeyEvent) -> Buffer {
    match edit_key(key.code) {
        Some(k) => edited(
            b,
            k,
            key.modifiers,
            step_from(
                b.text,
                b.cursor,
                backwards(k, key.modifiers),
                wordwise(k, key.modifiers),
            ),
        ),
        None => b,
    }
}

/// `tui_input::Input::new` makes a buffer of the given text, with the cursor
/// behind its last character and nothing cut.
#[verifier::external_body]
pub(crate) fn new_input(text: String) -> (r: tui_input::Input)
    ensures
        input_text(r) == text@,
        input_cursor(r) == text@.len(),
        input_cut(r) == Seq::<char>::empty(),
        !input_cutting(r),
{
    tui_input::Input::new(text)
}

/// `tui_input::Input::value` gives the text of a buffer.
#[verifier::external_body]
pub(crate) fn input_value(input: &tui_input::Input) -> (r: &str)
    ensures
        r@ == input_text(*input),
{
    input.value()
}

/// The number of terminal columns that the text before a cursor takes.
pub uninterp spec fn columns_before(text: Seq<char>, cursor: nat) -> nat;

/// `tui_input::Input::visual_cursor` gives the number of terminal columns before
/// the cursor, which goes by the characters there.
#[verifier::external_body]
pub(crate) fn visual_cursor_of(input: &tui_input::Input) -> (r: usize)
    ensures
        r == columns_before(input_text(*input), input_cursor(*input)),
{
    input.visual_cursor()
}

/// `tui_input`'s `handle_event` applies a key press to a buffer. Which
/// user-perceived character or word a step covers is named, not spelled out; it
/// lies the way the step leads. The cursor never stands past the text.
#[verifier::external_body]
fn handle_key(input: &mut tui_input::Input, key: EditKey, mods: u8)
    requires
        mods <= ALL_MODIFIERS,
    ensures
        input_cursor(*old(input)) <= input_text(*old(input)).len(),
        input_cursor(*final(input)) <= input_text(*final(input)).len(),
        lies_there(
            input_text(*old(input)),
            input_cursor(*old(input)),
            backwards(key, mods),
            step_from(
                input_text(*old(input)),
                input_cursor(*old(input)),
                backwards(key, mods),
                wordwise(key, mods),
            ),
        ),
        buffer(*final(input)) == edited(
            buffer(*old(input)),
            key,
            mods,
            step_from(
                input_text(*old(input)),
                input_cursor(*old(input)),
                backwards(key, mods),
                wordwise(key, mods),
            ),
        ),
{
    let code = match key {
        EditKey::Char(c) => crossterm::event::KeyCode::Char(c),
        EditKey::Backspace => crossterm::event::KeyCode::Backspace,
        EditKey::Delete => crossterm::event::KeyCode::Delete,
        EditKey::Left => crossterm::event::KeyCode::Left,
        EditKey::Right => crossterm::event::KeyCode::Right,
        EditKey::Home => crossterm::event::KeyCode::Home,
        EditKey::End => crossterm::event::KeyCode::End,
    };
    let held = crossterm::event::KeyModifiers::from_bits_truncate(mods);
    let press = crossterm::event::KeyEvent::new(code, held);
    let _ = input.handle_event(&crossterm::event::Event::Key(press));
}

/// Applies a key press to a buffer; keys that edit no text leave it alone.
pub fn edit(input: &mut tui_input::Input, key: KeyEvent)
    requires
        key.modifiers <= ALL_MODIFIERS,
    ensures
        buffer(*final(input)) == pressed(buffer(*old(input)), key),
        edit_key(key.code) is None ==> *final(input) == *old(input),
        edit_key(key.code) is Some ==> input_cursor(*final(input)) <= input_text(
            *final(input),
        ).len(),
{
    match key.code {
        KeyCode::Char(c) => handle_key(input, EditKey::Char(c), key.modifiers),
        KeyCode::Backspace => handle_key(input, EditKey::Backspace, key.modifiers),
        KeyCode::Delete => handle_key(input, EditKey::Delete, key.modifiers),
        KeyCode::Left => handle_key(input, EditKey::Left, key.modifiers),
        KeyCode::Right => handle_key(input, EditKey::Right, key.modifiers),
        KeyCode::Home => handle_key(input, EditKey::Home, key.modifiers),
        KeyCode::End => handle_key(input, EditKey::End, key.modifiers),
        _ => {},
    }
}

/// A typed character enters where the cursor stands, and nothing else of the
/// text changes.
pub proof fn law_typing_inserts(b: Buffer, x: char)
    requires
        b.cursor <= b.text.len(),
    ensures
        ({
            let after = pressed(b, KeyEvent { code: KeyCode::Char(x), modifiers: 0 });
            &&& after.text.len() == b.text.len() + 1
            &&& after.text[b.cursor as int] == x
            &&& after.text.remove(b.cursor as int) == b.text
            &&& after.cursor == b.cursor + 1
        }),
{
    let after = pressed(b, KeyEvent { code: KeyCode::Char(x), modifiers: 0 });
    assert(after.text.remove(b.cursor as int) =~= b.text);
}

} // verus!
