//! The terminal's grid on the screen, what is written to its program, and what
//! its events mean.
use vstd::prelude::*;

use crate::chars::{
    append_chars, append_str, control, decimal, decimal_chars, from_chars, is_control,
    lemma_nothing_to_replace, lemma_replaced_is, replace_chars, replaced_all, starts_with, to_chars,
};
use crate::json::text_view;
use crate::keysyms::{KEY_V, KEY_v};
use crate::paths::str_view;
use crate::puter::keys::{
    copies, is_copy_shortcut, key_bytes, key_scroll, scroll_of, sent, Scroll,
};
use crate::text::input::{letter_key, KeyInput, KeyView};

verus! {

pub const GLYPH_W: usize = 6;

pub const GLYPH_H: usize = 12;

pub const SCREEN_SOURCE_X: usize = 49;

pub const SCREEN_SOURCE_Y: usize = 49;

pub const SCREEN_W: usize = 205;

pub const SCREEN_H: usize = 158;

pub const ART_CROP_X: usize = 19;

pub const ART_CROP_Y: usize = 17;

/// Where the screen starts on the widget.
pub const SCREEN_X: usize = 30;

pub const SCREEN_Y: usize = 32;

/// The cells of the terminal: one column less than would fit, so that bold and
/// glowing letters stay on the screen.
pub const COLUMNS: usize = 33;

pub const LINES: usize = 13;

pub const SCROLL_LINES: i32 = 3;

/// A place in the art, on the cropped widget.
pub fn art_x(x: usize) -> (r: usize)
    ensures
        r == (if x < ART_CROP_X {
            0
        } else {
            x - ART_CROP_X
        }),
{
    if x < ART_CROP_X {
        0
    } else {
        x - ART_CROP_X
    }
}

pub fn art_y(y: usize) -> (r: usize)
    ensures
        r == (if y < ART_CROP_Y {
            0
        } else {
            y - ART_CROP_Y
        }),
{
    if y < ART_CROP_Y {
        0
    } else {
        y - ART_CROP_Y
    }
}

/// The screen and its grid follow from the art and the glyphs.
pub proof fn lemma_screen_geometry()
    ensures
        SCREEN_X == SCREEN_SOURCE_X - ART_CROP_X,
        SCREEN_Y == SCREEN_SOURCE_Y - ART_CROP_Y,
        COLUMNS == SCREEN_W as int / GLYPH_W as int - 1,
        LINES == SCREEN_H as int / GLYPH_H as int,
{
}

/// A cell of the terminal's grid.
#[derive(Clone, Copy, Debug, PartialEq, Eq, Structural)]
pub struct Point {
    pub line: usize,
    pub column: usize,
}

pub open spec fn on_screen(x: int, y: int) -> bool {
    SCREEN_X <= x < SCREEN_X + SCREEN_W && SCREEN_Y <= y < SCREEN_Y + SCREEN_H
}

/// The cell at a place of the screen; places right of the last column and
/// below the last line belong to those.
pub open spec fn cell_under(x: int, y: int) -> Point {
    let column = (x - SCREEN_X) / GLYPH_W as int;
    let line = (y - SCREEN_Y) / GLYPH_H as int;
    Point {
        line: (if line > LINES - 1 {
            LINES - 1
        } else {
            line
        }) as usize,
        column: (if column > COLUMNS - 1 {
            COLUMNS - 1
        } else {
            column
        }) as usize,
    }
}

fn cell_at(x: usize, y: usize) -> (r: Point)
    requires
        on_screen(x as int, y as int),
    ensures
        r == cell_under(x as int, y as int),
{
    let column: usize = (x - SCREEN_X) / GLYPH_W;
    let line: usize = (y - SCREEN_Y) / GLYPH_H;
    Point {
        line: if line > LINES - 1 {
            LINES - 1
        } else {
            line
        },
        column: if column > COLUMNS - 1 {
            COLUMNS - 1
        } else {
            column
        },
    }
}

/// Whether a place is on the screen.
pub fn screen_contains(x: isize, y: isize) -> (r: bool)
    ensures
        r == on_screen(x as int, y as int),
{
    x >= SCREEN_X as isize && y >= SCREEN_Y as isize && x < (SCREEN_X + SCREEN_W) as isize && y < (
    SCREEN_Y + SCREEN_H) as isize
}

/// The cell at a place, if that is on the screen.
pub fn screen_point(x: isize, y: isize) -> (r: Option<Point>)
    ensures
        r == (if on_screen(x as int, y as int) {
            Some(cell_under(x as int, y as int))
        } else {
            None
        }),
{
    if screen_contains(x, y) {
        Some(cell_at(x as usize, y as usize))
    } else {
        None
    }
}

pub open spec fn held(v: int, low: int, high: int) -> int {
    if v < low {
        low
    } else if v > high {
        high
    } else {
        v
    }
}

/// The cell nearest to a place.
pub open spec fn nearest_cell(x: int, y: int) -> Point {
    cell_under(
        held(x, SCREEN_X as int, SCREEN_X + SCREEN_W - 1),
        held(y, SCREEN_Y as int, SCREEN_Y + SCREEN_H - 1),
    )
}

fn hold(v: isize, low: usize, high: usize) -> (r: usize)
    requires
        low <= high <= 0xFFFF,
    ensures
        r == held(v as int, low as int, high as int),
{
    if v < low as isize {
        low
    } else if v > high as isize {
        high
    } else {
        v as usize
    }
}

pub fn clamped_screen_point(x: isize, y: isize) -> (r: Point)
    ensures
        r == nearest_cell(x as int, y as int),
{
    cell_at(
        hold(x, SCREEN_X, SCREEN_X + SCREEN_W - 1),
        hold(y, SCREEN_Y, SCREEN_Y + SCREEN_H - 1),
    )
}

/// The nearest cell is always one of the grid, and on the screen it is the
/// cell under the place.
pub proof fn lemma_nearest_cell(x: int, y: int)
    ensures
        nearest_cell(x, y).line < LINES,
        nearest_cell(x, y).column < COLUMNS,
        on_screen(x, y) ==> nearest_cell(x, y) == cell_under(x, y),
{
}

/// The report of the left button at a cell, for programs that follow the
/// mouse.
pub open spec fn mouse_report(point: Point, pressed: bool) -> Seq<char> {
    seq!['\x1b', '[', '<', '0', ';'] + decimal((point.column + 1) as nat) + seq![';'] + decimal(
        (point.line + 1) as nat,
    ) + seq![
        if pressed {
            'M'
        } else {
            'm'
        },
    ]
}

pub fn mouse_text(point: Point, pressed: bool) -> (r: String)
    requires
        point.line < LINES,
        point.column < COLUMNS,
    ensures
        r@ == mouse_report(point, pressed),
{
    let mut out: Vec<char> = Vec::new();
    out.push('\x1b');
    out.push('[');
    out.push('<');
    out.push('0');
    out.push(';');
    let column = decimal_chars((point.column + 1) as u64);
    append_chars(&mut out, &column);
    out.push(';');
    let line = decimal_chars((point.line + 1) as u64);
    append_chars(&mut out, &line);
    out.push(
        if pressed {
            'M'
        } else {
            'm'
        },
    );
    assert(out@ =~= mouse_report(point, pressed));
    from_chars(&out)
}

/// The characters of a text for which something holds.
pub open spec fn kept(s: Seq<char>, holds: spec_fn(char) -> bool) -> Seq<char>
    decreases s.len(),
{
    if s.len() == 0 {
        Seq::empty()
    } else if holds(s.last()) {
        kept(s.drop_last(), holds).push(s.last())
    } else {
        kept(s.drop_last(), holds)
    }
}

/// What a paste between brackets may hold: nothing that could end it early.
pub open spec fn safe_in_brackets(c: char) -> bool {
    c != '\x1b' && c != '\x03'
}

/// What a paste without brackets may hold.
pub open spec fn safe_to_type(c: char) -> bool {
    c == '\r' || c == '\t' || !control(c)
}

pub open spec fn paste_start() -> Seq<char> {
    seq!['\x1b', '[', '2', '0', '0', '~']
}

pub open spec fn paste_end() -> Seq<char> {
    seq!['\x1b', '[', '2', '0', '1', '~']
}

/// What a pasted text is sent as. A program that asked for it gets it between
/// brackets; to any other it looks typed, with returns for line ends.
pub open spec fn pasted(bracketed: bool, text: Seq<char>) -> Seq<char> {
    if bracketed {
        paste_start() + kept(text, |c: char| safe_in_brackets(c)) + paste_end()
    } else {
        kept(
            replaced_all(replaced_all(text, "\r\n"@, "\n"@), "\n"@, "\r"@),
            |c: char| safe_to_type(c),
        )
    }
}

fn keep_in_brackets(s: &[char]) -> (r: Vec<char>)
    ensures
        r@ == kept(s@, |c: char| safe_in_brackets(c)),
{
    let mut out: Vec<char> = Vec::new();
    let mut i: usize = 0;
    assert(s@.take(0) =~= Seq::empty());
    while i < s.len()
        invariant
            i <= s@.len(),
            out@ == kept(s@.take(i as int), |c: char| safe_in_brackets(c)),
        decreases s@.len() - i,
    {
        assert(s@.take(i + 1).drop_last() =~= s@.take(i as int));
        if s[i] != '\x1b' && s[i] != '\x03' {
            out.push(s[i]);
        }
        i += 1;
    }
    assert(s@.take(s@.len() as int) =~= s@);
    out
}

fn keep_to_type(s: &[char]) -> (r: Vec<char>)
    ensures
        r@ == kept(s@, |c: char| safe_to_type(c)),
{
    let mut out: Vec<char> = Vec::new();
    let mut i: usize = 0;
    assert(s@.take(0) =~= Seq::empty());
    while i < s.len()
        invariant
            i <= s@.len(),
            out@ == kept(s@.take(i as int), |c: char| safe_to_type(c)),
        decreases s@.len() - i,
    {
        assert(s@.take(i + 1).drop_last() =~= s@.take(i as int));
        if s[i] == '\r' || s[i] == '\t' || !is_control(s[i]) {
            out.push(s[i]);
        }
        i += 1;
    }
    assert(s@.take(s@.len() as int) =~= s@);
    out
}

pub fn paste_text(bracketed: bool, text: &str) -> (r: String)
    ensures
        r@ == pasted(bracketed, text@),
{
    let chars = to_chars(text);
    if bracketed {
        let body = keep_in_brackets(&chars);
        let mut out: Vec<char> = Vec::new();
        append_str(&mut out, "\x1b[200~");
        append_chars(&mut out, &body);
        append_str(&mut out, "\x1b[201~");
        proof {
            reveal_strlit("\x1b[200~");
            reveal_strlit("\x1b[201~");
            assert("\x1b[200~"@ =~= paste_start());
            assert("\x1b[201~"@ =~= paste_end());
            assert(out@ =~= pasted(bracketed, text@));
        }
        from_chars(&out)
    } else {
        proof {
            reveal_strlit("\r\n");
            reveal_strlit("\n");
        }
        let crlf = to_chars("\r\n");
        let lf = to_chars("\n");
        let cr = to_chars("\r");
        let lines = replace_chars(&chars, &crlf, &lf);
        let typed = replace_chars(&lines, &lf, &cr);
        from_chars(&keep_to_type(&typed))
    }
}

/// The bytes that a pasted text is sent as.
pub fn paste_bytes(bracketed: bool, text: &str) -> (r: Vec<u8>)
    ensures
        r@ == vstd::utf8::encode_utf8(pasted(bracketed, text@)),
{
    let sent = paste_text(bracketed, text);
    let bytes = sent.as_str().as_bytes();
    let mut out: Vec<u8> = Vec::new();
    let mut i: usize = 0;
    while i < bytes.len()
        invariant
            i <= bytes@.len(),
            out@ == bytes@.take(i as int),
        decreases bytes@.len() - i,
    {
        out.push(bytes[i]);
        assert(out@ =~= bytes@.take(i + 1));
        i += 1;
    }
    assert(bytes@.take(bytes@.len() as int) =~= bytes@);
    out
}

proof fn lemma_kept(s: Seq<char>, holds: spec_fn(char) -> bool)
    ensures
        forall|i: int| 0 <= i < kept(s, holds).len() ==> holds(#[trigger] kept(s, holds)[i]),
    decreases s.len(),
{
    if s.len() > 0 {
        let front = s.drop_last();
        lemma_kept(front, holds);
        let n = kept(front, holds).len() as int;
        assert forall|i: int| 0 <= i < kept(s, holds).len() implies holds(
            #[trigger] kept(s, holds)[i],
        ) by {
            if i < n {
                assert(kept(s, holds)[i] == kept(front, holds)[i]);
            }
        }
    }
}

/// A pasted text cannot get out of its brackets, nor without them look like an
/// escape sequence: what comes of it holds no escape, between the brackets no
/// interrupt either, and without them no control character but tabs and
/// returns.
pub proof fn lemma_paste_is_contained(text: Seq<char>)
    ensures
        ({
            let n = pasted(true, text).len() as int;
            &&& n >= 12
            &&& pasted(true, text).take(6) == paste_start()
            &&& pasted(true, text).skip(n - 6) == paste_end()
            &&& forall|i: int|
                6 <= i < n - 6 ==> safe_in_brackets(#[trigger] pasted(true, text)[i])
        }),
        forall|i: int|
            0 <= i < pasted(false, text).len() ==> safe_to_type(#[trigger] pasted(false, text)[i])
                && pasted(false, text)[i] != '\x1b',
{
    let body = kept(text, |c: char| safe_in_brackets(c));
    lemma_kept(text, |c: char| safe_in_brackets(c));
    let whole = pasted(true, text);
    assert(whole.len() == body.len() + 12);
    assert(whole.take(6) =~= paste_start());
    assert(whole.skip(whole.len() - 6) =~= paste_end());
    assert forall|i: int| 6 <= i < whole.len() - 6 implies safe_in_brackets(
        #[trigger] whole[i],
    ) by {
        assert(whole[i] == body[i - 6]);
    }
    let typed = replaced_all(replaced_all(text, "\r\n"@, "\n"@), "\n"@, "\r"@);
    lemma_kept(typed, |c: char| safe_to_type(c));
    assert forall|i: int| 0 <= i < pasted(false, text).len() implies safe_to_type(
        #[trigger] pasted(false, text)[i],
    ) && pasted(false, text)[i] != '\x1b' by {
        assert((|c: char| safe_to_type(c))(pasted(false, text)[i]));
        assert('\x1b' as u32 == 0x1B);
    }
}

/// What became of the terminal since it was last looked at.
#[derive(Clone, Copy, Debug, PartialEq, Eq, Structural)]
pub struct TerminalEvents {
    pub running: bool,
    pub dirty: bool,
}

/// An event of the terminal, as far as it matters here.
pub enum TerminalEvent {
    /// The program ended.
    Exit,
    /// Something to be written to the program.
    Write(String),
    Other,
}

pub open spec fn is_exit(event: TerminalEvent) -> bool {
    event is Exit
}

/// The texts that events ask to be written.
pub open spec fn writes_of(events: Seq<TerminalEvent>) -> Seq<Seq<char>>
    decreases events.len(),
{
    if events.len() == 0 {
        Seq::empty()
    } else {
        match events.last() {
            TerminalEvent::Write(text) => writes_of(events.drop_last()).push(text@),
            _ => writes_of(events.drop_last()),
        }
    }
}

/// What events mean: whether the program still runs, whether there is anything
/// new to see, and what is to be written, in order.
pub fn drain_events(events: &Vec<TerminalEvent>) -> (r: (TerminalEvents, Vec<String>))
    ensures
        r.0.running == !(exists|i: int| 0 <= i < events@.len() && is_exit(#[trigger] events@[i])),
        r.0.dirty == (events@.len() > 0),
        crate::chars::string_views(r.1@) == writes_of(events@),
{
    let mut running = true;
    let mut writes: Vec<String> = Vec::new();
    let mut i: usize = 0;
    assert(events@.take(0) =~= Seq::empty());
    assert(crate::chars::string_views(writes@) =~= Seq::empty());
    while i < events.len()
        invariant
            i <= events@.len(),
            running == !(exists|j: int| 0 <= j < i && is_exit(#[trigger] events@[j])),
            crate::chars::string_views(writes@) =~= writes_of(events@.take(i as int)),
        decreases events@.len() - i,
    {
        assert(events@.take(i + 1).drop_last() =~= events@.take(i as int));
        assert(events@.take(i + 1).last() == events@[i as int]);
        match &events[i] {
            TerminalEvent::Exit => {
                running = false;
                assert(is_exit(events@[i as int]));
            },
            TerminalEvent::Write(text) => {
                let ghost before = writes@;
                writes.push(text.as_str().to_owned());
                assert(crate::chars::string_views(writes@) =~= crate::chars::string_views(
                    before,
                ).push(text@));
            },
            TerminalEvent::Other => {},
        }
        i += 1;
    }
    assert(events@.take(events@.len() as int) =~= events@);
    (TerminalEvents { running, dirty: events.len() > 0 }, writes)
}

/// What a key press does.
pub enum KeyAction {
    Scroll(Scroll),
    Copy,
    /// Go to the bottom and write a text.
    Write(String),
    Nothing,
}

/// Ctrl+Shift+V.
pub open spec fn pastes(key: KeyView) -> bool {
    key.ctrl && key.shift && letter_key(key, KEY_v, KEY_V, "v"@)
}

/// The text that a paste takes: the clipboard's, else the one last copied
/// here, if any.
pub open spec fn paste_source(clipboard: Option<Seq<char>>, own: Seq<char>) -> Option<Seq<char>> {
    match clipboard {
        Some(text) => Some(text),
        None => if own.len() > 0 {
            Some(own)
        } else {
            None
        },
    }
}

pub open spec fn key_does(
    key: KeyView,
    clipboard: Option<Seq<char>>,
    own: Seq<char>,
    bracketed: bool,
    action: KeyAction,
) -> bool {
    if scroll_of(key) is Some {
        action == KeyAction::Scroll(scroll_of(key)->0)
    } else if copies(key) {
        action is Copy
    } else if pastes(key) {
        match paste_source(clipboard, own) {
            Some(text) => action matches KeyAction::Write(written) && written@ == pasted(
                bracketed,
                text,
            ),
            None => action is Nothing,
        }
    } else {
        match sent(key) {
            Some(text) => action matches KeyAction::Write(written) && written@ == text,
            None => action is Nothing,
        }
    }
}

/// What a key press does, given the clipboard's text, the text last copied
/// here, and whether the program asked for pastes in brackets.
pub fn handle_key_press(
    input: &KeyInput,
    clipboard: Option<&str>,
    own: &str,
    bracketed: bool,
) -> (r: KeyAction)
    ensures
        key_does(input@, str_view(clipboard), own@, bracketed, r),
{
    if let Some(scroll) = key_scroll(input) {
        return KeyAction::Scroll(scroll);
    }
    if is_copy_shortcut(input) {
        return KeyAction::Copy;
    }
    if input.is_paste_shortcut() {
        let copied = to_chars(own);
        return match clipboard {
            Some(text) => KeyAction::Write(paste_text(bracketed, text)),
            None => if copied.len() > 0 {
                KeyAction::Write(paste_text(bracketed, own))
            } else {
                KeyAction::Nothing
            },
        };
    }
    match key_bytes(input) {
        Some(text) => KeyAction::Write(text),
        None => KeyAction::Nothing,
    }
}

/// The text that a copy takes: what is selected, else what was copied before,
/// if anything.
pub fn copied_text(selection: Option<String>, own: &str) -> (r: Option<String>)
    ensures
        text_view(r) == paste_source(text_view(selection), own@),
{
    match selection {
        Some(text) => Some(text),
        None => {
            let chars = to_chars(own);
            if chars.len() > 0 {
                Some(own.to_owned())
            } else {
                None
            }
        },
    }
}

/// The line of the screen that a line of the history is on, when the screen
/// shows the history `offset` lines back.
pub fn viewport_line(offset: usize, line: i32) -> (r: Option<usize>)
    requires
        offset <= i32::MAX,
        line + offset <= i32::MAX,
    ensures
        r == (if line + offset >= 0 {
            Some((line + offset) as usize)
        } else {
            None
        }),
{
    let at: i64 = line as i64 + offset as i64;
    if at >= 0 {
        Some(at as usize)
    } else {
        None
    }
}

/// A place on the screen is in the cell that it lies in, six columns wide and
/// twelve rows high; what is beyond the last cells counts as theirs, and a place
/// beside the screen as the nearest on it.
pub proof fn lemma_cells_are(x: int, y: int, column: int, line: int)
    ensures
        on_screen(x, y) <==> 30 <= x < 235 && 32 <= y < 190,
        on_screen(x, y) ==> {
            &&& cell_under(x, y).column == column && column < 32 ==> 30 + 6 * column <= x < 36 + 6
                * column
            &&& 0 <= column < 33 && 30 + 6 * column <= x < 36 + 6 * column ==> cell_under(
                x,
                y,
            ).column == column
            &&& x >= 228 ==> cell_under(x, y).column == 32
            &&& 0 <= line < 13 && 32 + 12 * line <= y < 44 + 12 * line ==> cell_under(x, y).line
                == line
            &&& y >= 188 ==> cell_under(x, y).line == 12
        },
        x < 30 ==> nearest_cell(x, y).column == 0,
        x >= 235 ==> nearest_cell(x, y).column == 32,
        y < 32 ==> nearest_cell(x, y).line == 0,
        y >= 190 ==> nearest_cell(x, y).line == 12,
        on_screen(x, y) ==> nearest_cell(x, y) == cell_under(x, y),
{
}

/// A press and a release of the mouse are reported with the cell, counted from one,
/// the column first.
pub proof fn lemma_mouse_reports(point: Point)
    ensures
        mouse_report(point, true) == "\x1b[<0;"@ + decimal((point.column + 1) as nat) + ";"@
            + decimal((point.line + 1) as nat) + "M"@,
        mouse_report(point, false) == "\x1b[<0;"@ + decimal((point.column + 1) as nat) + ";"@
            + decimal((point.line + 1) as nat) + "m"@,
{
    reveal_strlit("\x1b[<0;");
    reveal_strlit(";");
    reveal_strlit("M");
    reveal_strlit("m");
    assert("\x1b[<0;"@ =~= seq!['\x1b', '[', '<', '0', ';']);
    assert(";"@ =~= seq![';']);
    assert("M"@ =~= seq!['M']);
    assert("m"@ =~= seq!['m']);
}

/// Of a text the characters that hold are kept, all of them and in their order.
pub proof fn lemma_kept_is(s: Seq<char>, holds: spec_fn(char) -> bool)
    ensures
        kept(s, holds) == s.filter(holds),
    decreases s.len(),
{
    reveal(Seq::filter);
    if s.len() > 0 {
        lemma_kept_is(s.drop_last(), holds);
    } else {
        assert(s.filter(holds) =~= kept(s, holds));
    }
}

/// What is pasted in brackets is the text without the signs that could end them,
/// between its start and its end.
pub proof fn lemma_bracketed_paste_is(text: Seq<char>)
    ensures
        pasted(true, text) == "\x1b[200~"@ + text.filter(
            |c: char| c != '\x1b' && c != '\x03',
        ) + "\x1b[201~"@,
{
    reveal_strlit("\x1b[200~");
    reveal_strlit("\x1b[201~");
    assert("\x1b[200~"@ =~= seq!['\x1b', '[', '2', '0', '0', '~']);
    assert("\x1b[201~"@ =~= seq!['\x1b', '[', '2', '0', '1', '~']);
    lemma_kept_is(text, |c: char| safe_in_brackets(c));
    lemma_same_filter(
        text,
        |c: char| safe_in_brackets(c),
        |c: char| c != '\x1b' && c != '\x03',
    );
}

proof fn lemma_same_filter(s: Seq<char>, f: spec_fn(char) -> bool, g: spec_fn(char) -> bool)
    requires
        forall|c: char| #[trigger] f(c) == g(c),
    ensures
        s.filter(f) == s.filter(g),
    decreases s.len(),
{
    reveal(Seq::filter);
    if s.len() > 0 {
        lemma_same_filter(s.drop_last(), f, g);
        assert(f(s.last()) == g(s.last()));
    }
}

/// What is pasted as if it were typed has each end of a line, in either form, as
/// Enter sends it. Otherwise it is the text without its control characters but
/// tabs.
pub proof fn lemma_typed_paste_is(a: Seq<char>, b: Seq<char>)
    requires
        forall|i: int| 0 <= i < a.len() ==> #[trigger] a[i] != '\n' && a[i] != '\r',
        forall|i: int| 0 <= i < b.len() ==> #[trigger] b[i] != '\n' && b[i] != '\r',
    ensures
        ({
            let kept = |s: Seq<char>| s.filter(
                |c: char| c == '\r' || c == '\t' || !(c as u32 <= 31 || 127 <= c as u32 <= 159),
            );
            &&& pasted(false, a) == kept(a)
            &&& pasted(false, a + seq!['\n'] + b) == kept(a + seq!['\r'] + b)
            &&& pasted(false, a + seq!['\r', '\n'] + b) == kept(a + seq!['\r'] + b)
        }),
{
    reveal_strlit("\r\n");
    reveal_strlit("\n");
    reveal_strlit("\r");
    assert("\r\n"@ =~= seq!['\r', '\n']);
    assert("\n"@ =~= seq!['\n']);
    assert("\r"@ =~= seq!['\r']);
    let one = a + seq!['\n'] + b;
    let two = a + seq!['\r', '\n'] + b;
    let end = a + seq!['\r'] + b;
    lemma_no_needle(a, seq!['\r', '\n'], seq!['\n']);
    lemma_no_needle(a, seq!['\n'], seq!['\r']);
    lemma_no_needle(b, seq!['\r', '\n'], seq!['\n']);
    lemma_no_needle(b, seq!['\n'], seq!['\r']);
    assert forall|i: int| 0 <= i < one.len() implies !starts_with(
        #[trigger] one.skip(i),
        seq!['\r', '\n'],
    ) by {
        if starts_with(one.skip(i), seq!['\r', '\n']) {
            assert(one.skip(i).take(2)[0] == one[i]);
            if i < a.len() {
                assert(one[i] == a[i]);
            } else if i > a.len() {
                assert(one[i] == b[i - a.len() - 1]);
            }
        }
    }
    lemma_nothing_to_replace(one, seq!['\r', '\n'], seq!['\n']);
    lemma_first_needle(a, seq!['\n'], b, seq!['\r']);
    lemma_first_needle(a, seq!['\r', '\n'], b, seq!['\n']);
    lemma_typed(a);
    lemma_typed(end);
}

proof fn lemma_typed(s: Seq<char>)
    ensures
        kept(s, |c: char| safe_to_type(c)) == s.filter(
            |c: char| c == '\r' || c == '\t' || !(c as u32 <= 31 || 127 <= c as u32 <= 159),
        ),
{
    lemma_kept_is(s, |c: char| safe_to_type(c));
    lemma_same_filter(
        s,
        |c: char| safe_to_type(c),
        |c: char| c == '\r' || c == '\t' || !(c as u32 <= 31 || 127 <= c as u32 <= 159),
    );
}

proof fn lemma_no_needle(s: Seq<char>, needle: Seq<char>, with: Seq<char>)
    requires
        needle.len() > 0,
        forall|i: int| 0 <= i < s.len() ==> #[trigger] s[i] != needle[0],
    ensures
        replaced_all(s, needle, with) == s,
{
    assert forall|i: int| 0 <= i < s.len() implies !starts_with(#[trigger] s.skip(i), needle) by {
        if starts_with(s.skip(i), needle) {
            assert(s.skip(i).take(needle.len() as int)[0] == s[i]);
        }
    }
    lemma_nothing_to_replace(s, needle, with);
}

proof fn lemma_first_needle(a: Seq<char>, needle: Seq<char>, b: Seq<char>, with: Seq<char>)
    requires
        needle.len() > 0,
        forall|i: int| 0 <= i < a.len() ==> #[trigger] a[i] != needle[0],
        replaced_all(b, needle, with) == b,
    ensures
        replaced_all(a + needle + b, needle, with) == a + with + b,
{
    let s = a + needle + b;
    assert forall|i: int| 0 <= i < a.len() implies !starts_with(#[trigger] s.skip(i), needle) by {
        if starts_with(s.skip(i), needle) {
            assert(s.skip(i).take(needle.len() as int)[0] == s[i]);
            assert(s[i] == a[i]);
        }
    }
    lemma_replaced_is(a, needle, b, with);
}

/// What the terminal writes is the texts of its events that are writes, in order.
pub proof fn lemma_writes_are(events: Seq<TerminalEvent>, event: TerminalEvent)
    ensures
        writes_of(Seq::empty()).len() == 0,
        event matches TerminalEvent::Write(text) ==> writes_of(events.push(event)) == writes_of(
            events,
        ).push(text@),
        !(event is Write) ==> writes_of(events.push(event)) == writes_of(events),
{
    assert(events.push(event).drop_last() =~= events);
}

/// What a key does in the terminal. One that scrolls only scrolls; the copy
/// shortcut copies; the paste shortcut, Ctrl and Shift with V, writes the clipboard,
/// or what the terminal itself copied where there is none; any other key is sent.
pub proof fn lemma_terminal_keys(
    key: KeyView,
    clipboard: Option<Seq<char>>,
    own: Seq<char>,
    bracketed: bool,
    action: KeyAction,
)
    requires
        key_does(key, clipboard, own, bracketed, action),
    ensures
        pastes(key) <==> key.ctrl && key.shift && (key.sym == 0x76 || key.sym == 0x56 || key.text
            == seq!['v'] || key.text == seq!['V']),
        scroll_of(key) matches Some(scroll) ==> action == KeyAction::Scroll(scroll),
        scroll_of(key) is None && copies(key) ==> action is Copy,
        scroll_of(key) is None && !copies(key) && pastes(key) ==> {
            &&& clipboard matches Some(text) ==> (action matches KeyAction::Write(written)
                && written@ == pasted(bracketed, text))
            &&& clipboard is None && own.len() > 0 ==> (action matches KeyAction::Write(written)
                && written@ == pasted(bracketed, own))
            &&& clipboard is None && own.len() == 0 ==> action is Nothing
        },
        scroll_of(key) is None && !copies(key) && !pastes(key) ==> {
            &&& sent(key) matches Some(text) ==> (action matches KeyAction::Write(written)
                && written@ == text)
            &&& sent(key) is None ==> action is Nothing
        },
{
    reveal_strlit("v");
    if crate::chars::same_ignoring_ascii_case(key.text, "v"@) {
        assert(key.text =~= seq![key.text[0]]);
    }
    if key.text == seq!['v'] || key.text == seq!['V'] {
        assert(crate::chars::same_ignoring_ascii_case(key.text, "v"@));
    }
}

/// The cell nearest to a place on the screen is the one under it. Left of the screen
/// it is in the first column, right of it in the last, above it in the first line and
/// below it in the last.
pub proof fn lemma_nearest_cell_is(x: int, y: int)
    ensures
        on_screen(x, y) ==> nearest_cell(x, y) == cell_under(x, y),
        x < SCREEN_X ==> nearest_cell(x, y).column == 0,
        x >= SCREEN_X + SCREEN_W ==> nearest_cell(x, y).column == COLUMNS - 1,
        y < SCREEN_Y ==> nearest_cell(x, y).line == 0,
        y >= SCREEN_Y + SCREEN_H ==> nearest_cell(x, y).line == LINES - 1,
{
    lemma_screen_geometry();
}

} // verus!
