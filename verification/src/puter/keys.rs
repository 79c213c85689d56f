//! What a key press sends to the program in the terminal, or does to the
//! terminal itself.
use vstd::prelude::*;

use crate::chars::{from_chars, to_chars};
use crate::keysyms::{
    KEY_A, KEY_BackSpace, KEY_C, KEY_Down, KEY_End, KEY_Escape, KEY_Home, KEY_KP_Down, KEY_KP_End,
    KEY_KP_Enter, KEY_KP_Home, KEY_KP_Left, KEY_KP_Next, KEY_KP_Prior, KEY_KP_Right, KEY_KP_Tab,
    KEY_KP_Up, KEY_Left, KEY_Next, KEY_Prior, KEY_Return, KEY_Right, KEY_Tab, KEY_Up, KEY_Z, KEY_a,
    KEY_bracketleft, KEY_c, KEY_space, KEY_underscore, KEY_z,
};
use crate::json::text_view;
use crate::text::input::{letter_key, KeyInput, KeyView};

verus! {

/// A move through the terminal's scrollback.
#[derive(Clone, Copy, Debug, PartialEq, Eq, Structural)]
pub enum Scroll {
    Delta(i32),
    PageUp,
    PageDown,
    Top,
    Bottom,
}

/// A navigation key's escape sequence: the number that it starts with, if it
/// has one, and the character that ends it.
pub open spec fn navigation(sym: u32) -> Option<(Option<char>, char)> {
    if sym == KEY_Up || sym == KEY_KP_Up {
        Some((None, 'A'))
    } else if sym == KEY_Down || sym == KEY_KP_Down {
        Some((None, 'B'))
    } else if sym == KEY_Right || sym == KEY_KP_Right {
        Some((None, 'C'))
    } else if sym == KEY_Left || sym == KEY_KP_Left {
        Some((None, 'D'))
    } else if sym == KEY_Home || sym == KEY_KP_Home {
        Some((None, 'H'))
    } else if sym == KEY_End || sym == KEY_KP_End {
        Some((None, 'F'))
    } else if sym == KEY_Prior || sym == KEY_KP_Prior {
        Some((Some('5'), '~'))
    } else if sym == KEY_Next || sym == KEY_KP_Next {
        Some((Some('6'), '~'))
    } else {
        None
    }
}

fn navigation_key(sym: u32) -> (r: Option<(Option<char>, char)>)
    ensures
        r == navigation(sym),
{
    if sym == KEY_Up || sym == KEY_KP_Up {
        Some((None, 'A'))
    } else if sym == KEY_Down || sym == KEY_KP_Down {
        Some((None, 'B'))
    } else if sym == KEY_Right || sym == KEY_KP_Right {
        Some((None, 'C'))
    } else if sym == KEY_Left || sym == KEY_KP_Left {
        Some((None, 'D'))
    } else if sym == KEY_Home || sym == KEY_KP_Home {
        Some((None, 'H'))
    } else if sym == KEY_End || sym == KEY_KP_End {
        Some((None, 'F'))
    } else if sym == KEY_Prior || sym == KEY_KP_Prior {
        Some((Some('5'), '~'))
    } else if sym == KEY_Next || sym == KEY_KP_Next {
        Some((Some('6'), '~'))
    } else {
        None
    }
}

/// The sequence of a navigation key alone.
pub open spec fn plain_sequence(number: Option<char>, end: char) -> Seq<char> {
    match number {
        Some(n) => seq!['\x1b', '[', n, end],
        None => seq!['\x1b', '[', end],
    }
}

/// The sequence of a navigation key with Ctrl: it tells the modifiers as one
/// more than the sum of one for Shift and four for Ctrl.
pub open spec fn modified_sequence(number: Option<char>, end: char, shift: bool) -> Seq<char> {
    seq![
        '\x1b',
        '[',
        match number {
            Some(n) => n,
            None => '1',
        },
        ';',
        if shift {
            '6'
        } else {
            '5'
        },
        end,
    ]
}

/// The control code that a key sends with Ctrl.
pub open spec fn control_code(sym: u32) -> Option<u32> {
    if KEY_a <= sym <= KEY_z {
        Some((sym - 0x60) as u32)
    } else if KEY_A <= sym <= KEY_Z || KEY_bracketleft <= sym <= KEY_underscore {
        Some((sym - 0x40) as u32)
    } else if sym == KEY_space {
        Some(0)
    } else {
        None
    }
}

pub fn control_byte(input: &KeyInput) -> (r: Option<u8>)
    ensures
        match r {
            Some(byte) => control_code(input@.sym) == Some(byte as u32) && byte < 32,
            None => control_code(input@.sym) is None,
        },
{
    let raw: u32 = input.sym_raw();
    if raw >= KEY_a && raw <= KEY_z {
        Some((raw - KEY_a + 1) as u8)
    } else if raw >= KEY_A && raw <= KEY_Z {
        Some((raw - KEY_A + 1) as u8)
    } else if raw >= KEY_bracketleft && raw <= KEY_underscore {
        Some((raw - 0x40) as u8)
    } else if raw == KEY_space {
        Some(0)
    } else {
        None
    }
}

/// The sequence that a navigation key sends with Ctrl.
pub fn modified_nav_sequence(input: &KeyInput) -> (r: Option<String>)
    ensures
        text_view(r) == (match navigation(input@.sym) {
            Some((number, end)) => Some(modified_sequence(number, end, input@.shift)),
            None => None,
        }),
{
    match navigation_key(input.sym_raw()) {
        Some((number, end)) => {
            let mut out: Vec<char> = Vec::new();
            out.push('\x1b');
            out.push('[');
            out.push(
                match number {
                    Some(n) => n,
                    None => '1',
                },
            );
            out.push(';');
            out.push(
                if input.shift() {
                    '6'
                } else {
                    '5'
                },
            );
            out.push(end);
            assert(out@ =~= modified_sequence(number, end, input@.shift));
            Some(from_chars(&out))
        },
        None => None,
    }
}

/// What a key sends without Ctrl, or when Ctrl changes nothing about it.
pub open spec fn plain_bytes(key: KeyView) -> Option<Seq<char>> {
    if key.sym == KEY_Escape {
        Some(seq!['\x1b'])
    } else if key.sym == KEY_BackSpace {
        Some(seq!['\x7f'])
    } else if key.sym == KEY_Tab || key.sym == KEY_KP_Tab {
        Some(seq!['\t'])
    } else if key.sym == KEY_Return || key.sym == KEY_KP_Enter {
        Some(seq!['\r'])
    } else {
        match navigation(key.sym) {
            Some((number, end)) => Some(plain_sequence(number, end)),
            None => if key.text.len() == 0 {
                None
            } else {
                Some(key.text)
            },
        }
    }
}

/// What a key sends to the program in the terminal.
pub open spec fn sent(key: KeyView) -> Option<Seq<char>> {
    if key.ctrl && navigation(key.sym) is Some {
        let (number, end) = navigation(key.sym)->0;
        Some(modified_sequence(number, end, key.shift))
    } else if key.ctrl && control_code(key.sym) is Some {
        Some(seq![control_code(key.sym)->0 as char])
    } else {
        plain_bytes(key)
    }
}

fn one_char(c: char) -> (r: Option<String>)
    ensures
        text_view(r) == Some(seq![c]),
{
    let mut out: Vec<char> = Vec::new();
    out.push(c);
    assert(out@ =~= seq![c]);
    Some(from_chars(&out))
}

pub fn key_bytes(input: &KeyInput) -> (r: Option<String>)
    ensures
        text_view(r) == sent(input@),
{
    if input.ctrl() {
        if let Some(sequence) = modified_nav_sequence(input) {
            return Some(sequence);
        }
        if let Some(byte) = control_byte(input) {
            return one_char(byte as char);
        }
    }
    let sym: u32 = input.sym_raw();
    if sym == KEY_Escape {
        return one_char('\x1b');
    }
    if sym == KEY_BackSpace {
        return one_char('\x7f');
    }
    if sym == KEY_Tab || sym == KEY_KP_Tab {
        return one_char('\t');
    }
    if sym == KEY_Return || sym == KEY_KP_Enter {
        return one_char('\r');
    }
    match navigation_key(sym) {
        Some((number, end)) => {
            let mut out: Vec<char> = Vec::new();
            out.push('\x1b');
            out.push('[');
            if let Some(n) = number {
                out.push(n);
            }
            out.push(end);
            assert(out@ =~= plain_sequence(number, end));
            Some(from_chars(&out))
        },
        None => {
            let typed = to_chars(input.text());
            if typed.len() == 0 {
                None
            } else {
                Some(from_chars(&typed))
            }
        },
    }
}

/// Ctrl is never lost: with it every navigation key sends something else than
/// without it, and Shift makes a difference to that.
pub proof fn lemma_modifiers_are_told(sym: u32, text: Seq<char>)
    requires
        navigation(sym) is Some,
    ensures
        sent(KeyView { sym, text, ctrl: true, shift: false }) != sent(
            KeyView { sym, text, ctrl: false, shift: false },
        ),
        sent(KeyView { sym, text, ctrl: true, shift: true }) != sent(
            KeyView { sym, text, ctrl: true, shift: false },
        ),
{
    let (number, end) = navigation(sym)->0;
    let plain = plain_sequence(number, end);
    let one = modified_sequence(number, end, false);
    let two = modified_sequence(number, end, true);
    assert(plain.len() < one.len());
    assert(one[4] == '5' && two[4] == '6');
}

/// The move through the scrollback that a key asks for: with Shift, but not
/// with Ctrl, which belongs to the program.
pub open spec fn scroll_of(key: KeyView) -> Option<Scroll> {
    if !key.shift || key.ctrl {
        None
    } else if key.sym == KEY_Home || key.sym == KEY_KP_Home {
        Some(Scroll::Top)
    } else if key.sym == KEY_Prior || key.sym == KEY_KP_Prior {
        Some(Scroll::PageUp)
    } else if key.sym == KEY_End || key.sym == KEY_KP_End {
        Some(Scroll::Bottom)
    } else if key.sym == KEY_Next || key.sym == KEY_KP_Next {
        Some(Scroll::PageDown)
    } else {
        None
    }
}

pub fn key_scroll(input: &KeyInput) -> (r: Option<Scroll>)
    ensures
        r == scroll_of(input@),
{
    if !input.shift() || input.ctrl() {
        return None;
    }
    let sym: u32 = input.sym_raw();
    if sym == KEY_Home || sym == KEY_KP_Home {
        Some(Scroll::Top)
    } else if sym == KEY_Prior || sym == KEY_KP_Prior {
        Some(Scroll::PageUp)
    } else if sym == KEY_End || sym == KEY_KP_End {
        Some(Scroll::Bottom)
    } else if sym == KEY_Next || sym == KEY_KP_Next {
        Some(Scroll::PageDown)
    } else {
        None
    }
}

/// Ctrl+Shift+C, the terminal's copy.
pub open spec fn copies(key: KeyView) -> bool {
    key.ctrl && key.shift && letter_key(key, KEY_c, KEY_C, "c"@)
}

pub fn is_copy_shortcut(input: &KeyInput) -> (r: bool)
    ensures
        r == copies(input@),
{
    input.ctrl() && input.shift() && input.is_letter(KEY_c, KEY_C, "c")
}

/// The arrows, Home, End and the page keys, on the keypad too, send the
/// terminal's sequence for that key: Up ends in A, Down in B, Right in C, Left in
/// D, Home in H and End in F; Page Up is numbered 5 and Page Down 6. With Ctrl the
/// sequence tells so, and whether Shift is held too.
pub proof fn lemma_navigation_keys(key: KeyView)
    ensures
        !key.ctrl && (key.sym == 0xff52 || key.sym == 0xff97) ==> sent(key) == Some(
            seq!['\x1b', '[', 'A'],
        ),
        !key.ctrl && (key.sym == 0xff54 || key.sym == 0xff99) ==> sent(key) == Some(
            seq!['\x1b', '[', 'B'],
        ),
        !key.ctrl && (key.sym == 0xff53 || key.sym == 0xff98) ==> sent(key) == Some(
            seq!['\x1b', '[', 'C'],
        ),
        !key.ctrl && (key.sym == 0xff51 || key.sym == 0xff96) ==> sent(key) == Some(
            seq!['\x1b', '[', 'D'],
        ),
        !key.ctrl && (key.sym == 0xff50 || key.sym == 0xff95) ==> sent(key) == Some(
            seq!['\x1b', '[', 'H'],
        ),
        !key.ctrl && (key.sym == 0xff57 || key.sym == 0xff9c) ==> sent(key) == Some(
            seq!['\x1b', '[', 'F'],
        ),
        !key.ctrl && (key.sym == 0xff55 || key.sym == 0xff9a) ==> sent(key) == Some(
            seq!['\x1b', '[', '5', '~'],
        ),
        !key.ctrl && (key.sym == 0xff56 || key.sym == 0xff9b) ==> sent(key) == Some(
            seq!['\x1b', '[', '6', '~'],
        ),
        ({
            let held = if key.shift {
                '6'
            } else {
                '5'
            };
            &&& key.ctrl && (key.sym == 0xff52 || key.sym == 0xff97) ==> sent(key) == Some(
                seq!['\x1b', '[', '1', ';', held, 'A'],
            )
            &&& key.ctrl && (key.sym == 0xff54 || key.sym == 0xff99) ==> sent(key) == Some(
                seq!['\x1b', '[', '1', ';', held, 'B'],
            )
            &&& key.ctrl && (key.sym == 0xff53 || key.sym == 0xff98) ==> sent(key) == Some(
                seq!['\x1b', '[', '1', ';', held, 'C'],
            )
            &&& key.ctrl && (key.sym == 0xff51 || key.sym == 0xff96) ==> sent(key) == Some(
                seq!['\x1b', '[', '1', ';', held, 'D'],
            )
            &&& key.ctrl && (key.sym == 0xff50 || key.sym == 0xff95) ==> sent(key) == Some(
                seq!['\x1b', '[', '1', ';', held, 'H'],
            )
            &&& key.ctrl && (key.sym == 0xff57 || key.sym == 0xff9c) ==> sent(key) == Some(
                seq!['\x1b', '[', '1', ';', held, 'F'],
            )
            &&& key.ctrl && (key.sym == 0xff55 || key.sym == 0xff9a) ==> sent(key) == Some(
                seq!['\x1b', '[', '5', ';', held, '~'],
            )
            &&& key.ctrl && (key.sym == 0xff56 || key.sym == 0xff9b) ==> sent(key) == Some(
                seq!['\x1b', '[', '6', ';', held, '~'],
            )
        }),
{
}

/// The other keys. Ctrl with a letter sends the letter's place in the alphabet,
/// with space nothing but a zero, with the signs from the opening bracket to the
/// underscore the codes behind the letters'. Escape, Backspace, Tab and Enter send
/// their own codes, and any other key the text that it types.
pub proof fn lemma_other_keys(key: KeyView)
    ensures
        key.ctrl && 0x61 <= key.sym <= 0x7a ==> sent(key) == Some(
            seq![(key.sym - 0x60) as char],
        ),
        key.ctrl && 0x41 <= key.sym <= 0x5a ==> sent(key) == Some(
            seq![(key.sym - 0x40) as char],
        ),
        key.ctrl && 0x5b <= key.sym <= 0x5f ==> sent(key) == Some(
            seq![(key.sym - 0x40) as char],
        ),
        key.ctrl && key.sym == 0x20 ==> sent(key) == Some(seq!['\0']),
        key.sym == 0xff1b ==> sent(key) == Some(seq!['\x1b']),
        key.sym == 0xff08 ==> sent(key) == Some(seq!['\x7f']),
        key.sym == 0xff09 || key.sym == 0xff89 ==> sent(key) == Some(seq!['\t']),
        key.sym == 0xff0d || key.sym == 0xff8d ==> sent(key) == Some(seq!['\r']),
        (key.sym < 0x20 || 0x7a < key.sym < 0xff00 || (!key.ctrl && key.sym < 0xff00))
            && key.text.len() > 0 ==> sent(key) == Some(key.text),
        (key.sym < 0x20 || 0x7a < key.sym < 0xff00 || (!key.ctrl && key.sym < 0xff00))
            && key.text.len() == 0 ==> sent(key) is None,
{
}

/// With Shift and without Ctrl Home goes to the top of the scrollback, End to its
/// bottom, and the page keys one page up and down. No other key scrolls, and none
/// with Ctrl or without Shift.
pub proof fn lemma_scroll_keys(key: KeyView)
    ensures
        key.ctrl || !key.shift ==> scroll_of(key) is None,
        key.shift && !key.ctrl ==> {
            &&& scroll_of(key) == Some(Scroll::Top) <==> key.sym == 0xff50 || key.sym == 0xff95
            &&& scroll_of(key) == Some(Scroll::Bottom) <==> key.sym == 0xff57 || key.sym == 0xff9c
            &&& scroll_of(key) == Some(Scroll::PageUp) <==> key.sym == 0xff55 || key.sym == 0xff9a
            &&& scroll_of(key) == Some(Scroll::PageDown) <==> key.sym == 0xff56 || key.sym == 0xff9b
            &&& scroll_of(key) is None <==> key.sym != 0xff50 && key.sym != 0xff95 && key.sym
                != 0xff57 && key.sym != 0xff9c && key.sym != 0xff55 && key.sym != 0xff9a && key.sym
                != 0xff56 && key.sym != 0xff9b
        },
{
}

/// The copy shortcut is Ctrl and Shift with the key C, or with any key that types
/// that letter.
pub proof fn lemma_copy_shortcut(key: KeyView)
    ensures
        copies(key) <==> key.ctrl && key.shift && (key.sym == 0x63 || key.sym == 0x43 || key.text
            == seq!['c'] || key.text == seq!['C']),
{
    reveal_strlit("c");
    if crate::chars::same_ignoring_ascii_case(key.text, "c"@) {
        assert(key.text =~= seq![key.text[0]]);
    }
    if key.text == seq!['c'] || key.text == seq!['C'] {
        assert(crate::chars::same_ignoring_ascii_case(key.text, "c"@));
    }
}

} // verus!
