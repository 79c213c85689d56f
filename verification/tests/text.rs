//! Text editing, wrapping, fonts and keys.
use cozyui::keysyms::{
    KEY_BackSpace, KEY_Left, KEY_Right, KEY_a, KEY_c, KEY_q, KEY_v, KEY_x, KEY_z,
};
use cozyui::text::edit::{
    char_len, char_to_byte, next_grapheme_end, prev_grapheme_start, slice_chars, TextEdit,
    TextEditOutcome,
};
use cozyui::text::field::{TextField, TextLayout};
use cozyui::text::font::{BitmapFont, FontAtlas, FontError, FontSpec, TextInkBounds};
use cozyui::text::input::{edit_key, EditKey, KeyInput};
use cozyui::text_wrap::wrap_lines;

const CTRL: u16 = 4;
const SHIFT: u16 = 1;

/// A picture of gray levels as a file.
fn gray_png(width: u32, height: u32, levels: &[u8]) -> Vec<u8> {
    let mut file: Vec<u8> = Vec::new();
    {
        let mut encoder = png::Encoder::new(&mut file, width, height);
        encoder.set_color(png::ColorType::Rgb);
        encoder.set_depth(png::BitDepth::Eight);
        let mut writer = encoder.write_header().unwrap();
        let samples: Vec<u8> = levels.iter().flat_map(|level| [*level; 3]).collect();
        writer.write_image_data(&samples).unwrap();
    }
    file
}

/// A font of 6 by 8 cells, 16 to a row. Each atlas has one block of 128
/// codepoints; a glyph's ink is its codepoint in binary on its first rows.
fn spec(firsts: &[usize], advance_len: usize) -> FontSpec {
    FontSpec {
        atlases: firsts
            .iter()
            .map(|first| FontAtlas { first_codepoint: *first, path: format!("{first}.png") })
            .collect(),
        block: 128,
        cell_w: 6,
        cell_h: 8,
        cols: 16,
        x_origin: 0,
        advance: vec![6; advance_len],
    }
}

fn atlas(first: usize) -> Vec<u8> {
    let (w, h) = (16 * 6, 8 * 8);
    let mut levels = vec![0u8; w * h];
    for i in 0..128 {
        let code = first + i;
        for bit in 0..20 {
            if (code >> bit) & 1 == 1 {
                let x = (i % 16) * 6 + bit % 5;
                let y = (i / 16) * 8 + bit / 5;
                levels[y * w + x] = 255;
            }
        }
    }
    gray_png(w as u32, h as u32, &levels)
}

fn font() -> BitmapFont {
    match BitmapFont::load(spec(&[0, 128], 256), &vec![atlas(0), atlas(128)]) {
        Ok(font) => font,
        Err(_) => panic!("the atlases are whole"),
    }
}

fn glyph_ink(font: &BitmapFont, ch: char) -> Vec<(usize, usize)> {
    let glyph = font.glyph(ch);
    let mut ink = Vec::new();
    for y in 0..glyph.cell_h {
        for x in 0..glyph.cell_w {
            if glyph.is_on(x, y) {
                ink.push((x, y));
            }
        }
    }
    ink
}

#[test]
fn backspace_deletes_whole_grapheme_cluster() {
    let mut edit = TextEdit::default();
    let mut text = String::from("a\u{1F1FA}\u{1F1F8}");
    edit.set_cursor(char_len(&text), &text);
    assert!(edit.backspace(&mut text));
    assert_eq!(text, "a");
    assert_eq!(edit.cursor(), 1);
}

#[test]
fn arrows_step_over_grapheme_clusters() {
    let mut edit = TextEdit::default();
    let text = "e\u{0301}x";
    edit.set_cursor(0, text);
    edit.move_cursor(text, 1, false);
    assert_eq!(edit.cursor(), 2);
    edit.move_cursor(text, 1, false);
    assert_eq!(edit.cursor(), 3);
    edit.move_cursor(text, -1, false);
    assert_eq!(edit.cursor(), 2);
    edit.move_cursor(text, -1, false);
    assert_eq!(edit.cursor(), 0);
}

#[test]
fn home_and_end_reach_text_boundaries_with_selection() {
    let mut edit = TextEdit::default();
    let text = "hello world";
    edit.set_cursor(3, text);
    edit.move_impl(text, 7, true, false);
    assert_eq!(edit.selection_range(), Some((3, 7)));
    edit.move_to(text, char_len(text), false);
    assert_eq!(edit.cursor(), char_len(text));
    assert_eq!(edit.selection_range(), None);
}

#[test]
fn field_enforces_char_limit_when_typing() {
    let font = font();
    let mut field = TextField::new(3, 1);
    let layout = TextLayout { font: &font, width: 6 * 8 };
    for letter in ['a', 'b', 'c'] {
        let input = KeyInput::new(letter as u32, &letter.to_string(), 0);
        field.handle_key(&input, None, &layout);
    }
    assert_eq!(field.text(), "abc");
    assert_eq!(field.cursor(), 3);
    let input = KeyInput::new('d' as u32, "d", 0);
    field.handle_key(&input, None, &layout);
    assert_eq!(field.text(), "abc");
    assert_eq!(field.cursor(), 3);
}

#[test]
fn renders_non_ascii_glyph_distinct_from_fallback() {
    let font = font();
    let fallback = glyph_ink(&font, '?');
    let found = (0x00A0..0x0180u32).filter_map(char::from_u32).any(|ch| {
        let ink = glyph_ink(&font, ch);
        !ink.is_empty() && ink != fallback && font.advance(ch) > 0
    });
    assert!(found, "no non-ascii glyph rendered distinct ink");
}

#[test]
fn missing_glyph_resolves_through_fallback_font() {
    let loaded = BitmapFont::load_with_fallback(
        spec(&[0, 128], 256),
        &vec![atlas(0), atlas(128)],
        spec(&[0x4E00], 0x4E80),
        &vec![atlas(0x4E00)],
    );
    let font = match loaded {
        Ok(font) => font,
        Err(_) => panic!("the atlases are whole"),
    };
    let cjk = '\u{4E00}';
    let ink = glyph_ink(&font, cjk);
    assert!(!ink.is_empty(), "fallback glyph rendered no ink");
    assert_ne!(ink, glyph_ink(&font, '?'), "fell back to '?' instead of font");
    assert!(font.advance(cjk) > 0, "fallback glyph reported no advance");
}

#[test]
fn uncovered_codepoint_falls_back_to_question_mark() {
    let font = font();
    let uncovered = '\u{4E00}';
    assert_eq!(glyph_ink(&font, uncovered), glyph_ink(&font, '?'));
    assert_eq!(font.advance(uncovered), font.advance('?'));
}

#[test]
fn edit_key_inserts_printable_text_from_xkb() {
    let input = KeyInput::new(KEY_q, "q", 0);
    assert!(matches!(edit_key(&input), EditKey::Insert('q')));
}

#[test]
fn edit_key_keeps_controls_separate() {
    let backspace = KeyInput::new(KEY_BackSpace, "", 0);
    let letter = KeyInput::new(KEY_q, "q", 0);
    assert!(matches!(edit_key(&backspace), EditKey::Backspace));
    assert!(matches!(edit_key(&letter), EditKey::Insert('q')));
}

#[test]
fn wrap_lines_preserves_trailing_spaces() {
    assert_eq!(wrap_lines("a ", 10, |_| 1), vec!["a ".to_string()]);
}

#[test]
fn wrap_lines_preserves_repeated_spaces() {
    assert_eq!(wrap_lines("a  b", 10, |_| 1), vec!["a  b".to_string()]);
}

#[test]
fn wrap_lines_prefers_word_boundaries() {
    assert_eq!(
        wrap_lines("hello world", 8, |_| 1),
        vec!["hello ".to_string(), "world".to_string()]
    );
}

#[test]
fn wrap_lines_splits_words_that_are_too_wide() {
    assert_eq!(
        wrap_lines("abcdefgh", 3, |_| 1),
        vec!["abc".to_string(), "def".to_string(), "gh".to_string()]
    );
}

#[test]
fn wrapped_lines_hold_the_whole_text() {
    let text = "one two  three\nfour   five six";
    let lines = wrap_lines(text, 7, |_| 1);
    let joined: String = lines.concat();
    assert_eq!(joined, text.replace('\n', ""));
    assert!(lines.iter().all(|line| line.trim_end().chars().count() <= 7));
}

#[test]
fn an_empty_text_has_one_line() {
    assert_eq!(wrap_lines("", 5, |_| 1), vec![String::new()]);
    assert_eq!(wrap_lines("a\n\nb", 5, |_| 1), vec!["a", "b"]);
}

#[test]
fn paragraphs_are_measured_on_their_own() {
    let half = usize::MAX / 2 + 1;
    assert_eq!(wrap_lines("a\nb\nc", 5, |_| half), vec!["a", "b", "c"]);
    assert_eq!(wrap_lines("aa\nbb", usize::MAX, |_| usize::MAX / 2), vec!["aa", "bb"]);
}

#[test]
fn a_line_is_broken_only_where_it_must_be() {
    assert_eq!(wrap_lines("ab cd ef", 6, |_| 1), vec!["ab cd ", "ef"]);
    assert_eq!(wrap_lines("ab cd ef", 8, |_| 1), vec!["ab cd ef"]);
    assert_eq!(wrap_lines("ab cdefgh", 4, |_| 1), vec!["ab ", "cdef", "gh"]);
}

#[test]
fn char_positions_count_characters_not_bytes() {
    assert_eq!(char_len("aé😀"), 3);
    assert_eq!(char_to_byte("aé😀", 2), 3);
    assert_eq!(char_to_byte("aé😀", 9), 7);
    assert_eq!(slice_chars("aé😀b", 1, 3), "é😀");
}

#[test]
fn grapheme_steps_cross_whole_clusters() {
    let text = "a\u{1F1FA}\u{1F1F8}b";
    assert_eq!(prev_grapheme_start(text, 3), 1);
    assert_eq!(next_grapheme_end(text, 1), 3);
    assert_eq!(prev_grapheme_start(text, 0), 0);
    assert_eq!(next_grapheme_end(text, 4), 4);
}

#[test]
fn undo_takes_back_what_was_typed() {
    let mut edit = TextEdit::default();
    let mut text = String::from("ab");
    edit.set_cursor(2, &text);
    assert!(edit.insert_text(&mut text, "c", &|_: &str| true));
    assert_eq!(text, "abc");
    let undo = KeyInput::new(KEY_z, "", CTRL);
    edit.handle_key(&undo, &mut text, None, |_: &str| true);
    assert_eq!(text, "ab");
    assert_eq!(edit.cursor(), 2);
}

#[test]
fn cut_and_paste_gives_the_text_back() {
    let mut edit = TextEdit::default();
    let mut text = String::from("hello world");
    edit.set_cursor(0, &text);
    edit.move_impl(&text, 5, true, false);
    let cut = KeyInput::new(KEY_x, "", CTRL);
    let outcome = edit.handle_key(&cut, &mut text, None, |_: &str| true);
    let copied = match outcome {
        TextEditOutcome::Handled { changed: true, copy: Some(copy) } => copy,
        _ => panic!("a selection is cut"),
    };
    assert_eq!(copied, "hello");
    assert_eq!(text, " world");
    let paste = KeyInput::new(KEY_v, "", CTRL);
    edit.handle_key(&paste, &mut text, Some(&copied), |_: &str| true);
    assert_eq!(text, "hello world");
}

#[test]
fn copying_leaves_the_text_alone() {
    let mut edit = TextEdit::default();
    let mut text = String::from("abc");
    let all = KeyInput::new(KEY_a, "", CTRL);
    edit.handle_key(&all, &mut text, None, |_: &str| true);
    assert_eq!(edit.selection_range(), Some((0, 3)));
    let copy = KeyInput::new(KEY_c, "", CTRL);
    match edit.handle_key(&copy, &mut text, None, |_: &str| true) {
        TextEditOutcome::Handled { changed, copy } => {
            assert!(!changed);
            assert_eq!(copy.as_deref(), Some("abc"));
        }
        TextEditOutcome::Unhandled => panic!("copying is handled"),
    }
    assert_eq!(text, "abc");
}

#[test]
fn a_paste_is_cut_to_what_fits() {
    let font = font();
    let layout = TextLayout { font: &font, width: 60 };
    let mut field = TextField::new(5, 1);
    let paste = KeyInput::new(KEY_v, "v", CTRL);
    field.handle_key(&paste, Some("abc\u{7}defgh"), &layout);
    assert_eq!(field.text(), "abcde");
}

#[test]
fn shift_and_an_arrow_select() {
    let mut edit = TextEdit::default();
    let mut text = String::from("abc");
    edit.set_cursor(1, &text);
    let right = KeyInput::new(KEY_Right, "", SHIFT);
    edit.handle_key(&right, &mut text, None, |_: &str| true);
    assert_eq!(edit.selection_range(), Some((1, 2)));
    let left = KeyInput::new(KEY_Left, "", 0);
    edit.handle_key(&left, &mut text, None, |_: &str| true);
    assert_eq!(edit.selection_range(), None);
    assert_eq!(edit.cursor(), 1);
}

#[test]
fn a_drag_selects_between_its_ends() {
    let mut field = TextField::new(20, 1);
    field.set_text("hello");
    field.begin_drag(1);
    assert!(field.is_dragging());
    assert!(field.drag_to(4));
    assert!(!field.drag_to(4));
    assert_eq!(field.selection_range(), Some((1, 4)));
    field.end_drag();
    assert!(!field.drag_to(0));
    assert_eq!(field.selection_range(), Some((1, 4)));
}

#[test]
fn key_shortcuts_need_their_modifiers() {
    let ctrl_v = KeyInput::new(KEY_v, "v", CTRL);
    let ctrl_shift_v = KeyInput::new(KEY_v, "V", CTRL | SHIFT);
    assert!(ctrl_v.is_plain_paste_shortcut());
    assert!(!ctrl_v.is_paste_shortcut());
    assert!(ctrl_shift_v.is_paste_shortcut());
}

#[test]
fn text_is_measured_by_advances_and_by_ink() {
    let font = font();
    assert_eq!(font.text_width("abc"), 18);
    let bounds = font.text_ink_bounds("a").unwrap();
    // 'a' is 0b1100001: bits 0, 5 and 6.
    assert_eq!(
        bounds,
        TextInkBounds { min_x: 0, max_x: 2, min_y: 0, max_y: 2 }
    );
    assert_eq!(bounds.width(), 2);
    assert_eq!(bounds.height(), 2);
    assert!(font.text_ink_bounds("").is_none());
}

#[test]
fn broken_atlases_are_told_apart() {
    let small = gray_png(4, 4, &[0; 16]);
    assert!(matches!(
        BitmapFont::load(spec(&[0], 128), &vec![small]),
        Err(FontError::TooSmall(0))
    ));
    assert!(matches!(
        BitmapFont::load(spec(&[0], 128), &vec![b"no picture".to_vec()]),
        Err(FontError::Image(0, _))
    ));
}
