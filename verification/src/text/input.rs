//! Key presses, as the widgets see them.
use vstd::prelude::*;

use crate::chars::{chars_match_ignoring_case, same_ignoring_ascii_case, to_chars};
use crate::keysyms::{
    KEY_BackSpace, KEY_Escape, KEY_KP_Enter, KEY_KP_Left, KEY_KP_Right, KEY_KP_Tab, KEY_Left,
    KEY_Return, KEY_Right, KEY_Tab, KEY_V, KEY_v,
};

verus! {

/// The bit of an event's state that is set while Shift is held.
pub const SHIFT_MASK: u16 = 1;

/// The bit of an event's state that is set while Ctrl is held.
pub const CONTROL_MASK: u16 = 4;

/// What a key press means to a line of text.
#[derive(Clone, Copy, PartialEq, Eq, Structural, Debug)]
pub enum EditKey {
    Insert(char),
    Backspace,
    Enter,
    Escape,
    Tab,
    Left,
    Right,
    Other,
}

/// One key press: its symbol, the text it types and the modifiers held.
#[derive(Clone)]
pub struct KeyInput {
    sym: u32,
    text: String,
    ctrl: bool,
    shift: bool,
}

/// The contents of a key press.
pub struct KeyView {
    pub sym: u32,
    pub text: Seq<char>,
    pub ctrl: bool,
    pub shift: bool,
}

impl View for KeyInput {
    type V = KeyView;

    closed spec fn view(&self) -> KeyView {
        KeyView { sym: self.sym, text: self.text@, ctrl: self.ctrl, shift: self.shift }
    }
}

/// A key press with the modifiers that an event's state reports.
pub open spec fn key_with(sym: u32, text: Seq<char>, state: u16) -> KeyView {
    KeyView {
        sym,
        text,
        ctrl: state & CONTROL_MASK != 0,
        shift: state & SHIFT_MASK != 0,
    }
}

impl KeyInput {
    /// A key press with the modifiers that an event's `state` reports.
    pub fn new(sym: u32, text: &str, state: u16) -> (r: Self)
        ensures
            r@ == key_with(sym, text@, state),
    {
        KeyInput {
            sym,
            text: text.to_owned(),
            ctrl: state & CONTROL_MASK != 0,
            shift: state & SHIFT_MASK != 0,
        }
    }

    pub fn text(&self) -> (r: &str)
        ensures
            r@ == self@.text,
    {
        self.text.as_str()
    }

    pub fn ctrl(&self) -> (r: bool)
        ensures
            r == self@.ctrl,
    {
        self.ctrl
    }

    pub fn shift(&self) -> (r: bool)
        ensures
            r == self@.shift,
    {
        self.shift
    }

    pub fn sym_raw(&self) -> (r: u32)
        ensures
            r == self@.sym,
    {
        self.sym
    }

    /// Whether the key is the given letter, by either of its symbols or by the
    /// text it types.
    pub fn is_letter(&self, lower: u32, upper: u32, letter: &str) -> (r: bool)
        ensures
            r == letter_key(self@, lower, upper, letter@),
    {
        let typed = to_chars(self.text.as_str());
        self.sym == lower || self.sym == upper || chars_match_ignoring_case(
            typed.as_slice(),
            letter,
        )
    }

    /// Ctrl+Shift+V, the terminal's paste.
    pub fn is_paste_shortcut(&self) -> (r: bool)
        ensures
            r == (self@.ctrl && self@.shift && letter_key(self@, KEY_v, KEY_V, "v"@)),
    {
        self.ctrl && self.shift && self.is_letter(KEY_v, KEY_V, "v")
    }

    /// Ctrl+V, the paste of everything else.
    pub fn is_plain_paste_shortcut(&self) -> (r: bool)
        ensures
            r == (self@.ctrl && letter_key(self@, KEY_v, KEY_V, "v"@)),
    {
        self.ctrl && self.is_letter(KEY_v, KEY_V, "v")
    }
}

pub open spec fn letter_key(key: KeyView, lower: u32, upper: u32, letter: Seq<char>) -> bool {
    key.sym == lower || key.sym == upper || same_ignoring_ascii_case(key.text, letter)
}

/// What a key means: a known symbol by its own, any other by the one character
/// that it types.
pub open spec fn edit_key_of(key: KeyView) -> EditKey {
    if key.sym == KEY_Escape {
        EditKey::Escape
    } else if key.sym == KEY_BackSpace {
        EditKey::Backspace
    } else if key.sym == KEY_Tab || key.sym == KEY_KP_Tab {
        EditKey::Tab
    } else if key.sym == KEY_Return || key.sym == KEY_KP_Enter {
        EditKey::Enter
    } else if key.sym == KEY_Left || key.sym == KEY_KP_Left {
        EditKey::Left
    } else if key.sym == KEY_Right || key.sym == KEY_KP_Right {
        EditKey::Right
    } else if key.text.len() == 1 {
        EditKey::Insert(key.text[0])
    } else {
        EditKey::Other
    }
}

pub fn edit_key(input: &KeyInput) -> (r: EditKey)
    ensures
        r == edit_key_of(input@),
{
    let sym: u32 = input.sym;
    if sym == KEY_Escape {
        EditKey::Escape
    } else if sym == KEY_BackSpace {
        EditKey::Backspace
    } else if sym == KEY_Tab || sym == KEY_KP_Tab {
        EditKey::Tab
    } else if sym == KEY_Return || sym == KEY_KP_Enter {
        EditKey::Enter
    } else if sym == KEY_Left || sym == KEY_KP_Left {
        EditKey::Left
    } else if sym == KEY_Right || sym == KEY_KP_Right {
        EditKey::Right
    } else {
        let typed = to_chars(input.text.as_str());
        if typed.len() == 1 {
            EditKey::Insert(typed[0])
        } else {
            EditKey::Other
        }
    }
}

/// A key press has its sign and its text; the state's lowest bit is the shift key, and
/// its third is the control key.
pub proof fn lemma_modifiers_are(sym: u32, text: Seq<char>, state: u16)
    ensures
        key_with(sym, text, state).sym == sym,
        key_with(sym, text, state).text == text,
        key_with(sym, text, state).shift <==> state % 2 == 1,
        key_with(sym, text, state).ctrl <==> state / 4 % 2 == 1,
{
    assert(state & 1 != 0 <==> state % 2 == 1) by (bit_vector);
    assert(state & 4 != 0 <==> state / 4 % 2 == 1) by (bit_vector);
}

/// A key is a letter's when it is the sign of the small or of the large letter, or when
/// its text is the letter in either case.
pub proof fn lemma_letter_keys(key: KeyView, lower: u32, upper: u32, letter: Seq<char>)
    ensures
        key.sym == lower ==> letter_key(key, lower, upper, letter),
        key.sym == upper ==> letter_key(key, lower, upper, letter),
        same_ignoring_ascii_case(key.text, letter) ==> letter_key(key, lower, upper, letter),
        key.sym != lower && key.sym != upper && !same_ignoring_ascii_case(key.text, letter)
            ==> !letter_key(key, lower, upper, letter),
{
}

} // verus!
